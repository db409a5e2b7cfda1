use rust_reversi::arena::error::{ArenaError, GameError, PlayerError, player_to_game_error};
use rust_reversi::arena::local::{
    Arena, GameOutcome, GameSession, SessionRequest, engine1_plays_black, is_pong_response,
};
use rust_reversi::board::{Board, Turn};

#[test]
fn play_n_with_odd_count_is_invalid() {
    assert_eq!(Arena::play_n_plan(3), Err(ArenaError::GameNumberInvalid));
    assert_eq!(Arena::play_n_plan(1), Err(ArenaError::GameNumberInvalid));
    assert_eq!(Arena::play_n_plan(4), Ok(2));
    assert_eq!(Arena::play_n_plan(0), Ok(0));
}

#[test]
fn colour_assignment_alternates_within_a_pair() {
    assert!(engine1_plays_black(0));
    assert!(!engine1_plays_black(1));
}

#[test]
fn player_errors_carry_the_offending_colour() {
    assert_eq!(player_to_game_error(PlayerError::IoError, Turn::Black), GameError::BlackCrash);
    assert_eq!(player_to_game_error(PlayerError::IoError, Turn::White), GameError::WhiteCrash);
    assert_eq!(
        player_to_game_error(PlayerError::TimeoutError, Turn::Black),
        GameError::BlackTimeout
    );
    assert_eq!(
        player_to_game_error(PlayerError::ParseError, Turn::White),
        GameError::WhiteInvalidMove
    );
    assert_eq!(
        player_to_game_error(PlayerError::BoardError, Turn::Black),
        GameError::BlackInvalidMove
    );
}

#[test]
fn session_requests_follow_the_position() {
    let session = GameSession::new(true);
    assert_eq!(session.next_request(), SessionRequest::Move(Turn::Black));
    let line = session.board_line();
    let mut expected = String::new();
    for i in 0..64 {
        expected.push(match i {
            27 | 36 => 'O',
            28 | 35 => 'X',
            _ => '-',
        });
    }
    expected.push(' ');
    expected.push('X');
    assert_eq!(line, expected);
}

#[test]
fn session_accepts_a_legal_move_line() {
    let mut session = GameSession::new(true);
    assert_eq!(session.apply_move_line("19\n"), Ok(()));
    let mut expected = Board::new();
    expected.do_move(19).unwrap();
    assert_eq!(session.board.get_board(), expected.get_board());
    assert_eq!(session.next_request(), SessionRequest::Move(Turn::White));
}

#[test]
fn session_rejects_garbage_and_illegal_moves() {
    let mut session = GameSession::new(true);
    let before = session.board.get_board();
    assert_eq!(session.apply_move_line("first\n"), Err(GameError::BlackInvalidMove));
    assert_eq!(session.apply_move_line("64\n"), Err(GameError::BlackInvalidMove));
    assert_eq!(session.apply_move_line("0\n"), Err(GameError::BlackInvalidMove));
    assert_eq!(session.apply_move_line(""), Err(GameError::BlackInvalidMove));
    assert_eq!(session.board.get_board(), before);
    session.apply_move_line("19").unwrap();
    assert_eq!(session.apply_move_line("19"), Err(GameError::WhiteInvalidMove));
}

#[test]
fn session_pass_is_refused_while_moves_exist() {
    let mut session = GameSession::new(true);
    let before = session.board.get_board();
    assert_eq!(session.apply_pass(), Err(GameError::UnexpectedError));
    assert_eq!(session.board.get_board(), before);
}

#[test]
fn session_result_requires_a_finished_game() {
    let session = GameSession::new(true);
    assert_eq!(session.result_for_engine1(), Err(GameError::UnexpectedError));
}

#[test]
fn pong_handshake_accepts_whitespace() {
    assert!(is_pong_response("pong\n"));
    assert!(is_pong_response("  pong  "));
    assert!(!is_pong_response("ping\n"));
    assert!(!is_pong_response(""));
}

/// Both engines always play their first legal move; over two
/// colour-swapped pairs the tallies must balance exactly.
#[test]
fn arena_fairness_with_identical_greedy_engines() {
    let cmd = vec!["engine".to_string()];
    let mut arena = Arena::new(cmd.clone(), cmd);
    let pairs = Arena::play_n_plan(4).unwrap();
    assert_eq!(pairs, 2);
    for _ in 0..pairs {
        for game in 0..2 {
            let mut session = GameSession::new(engine1_plays_black(game));
            loop {
                match session.next_request() {
                    SessionRequest::Move(_) => {
                        let mv = session.board.get_legal_moves_vec()[0];
                        session.apply_move_line(&format!("{}", mv)).unwrap();
                    }
                    SessionRequest::Pass(_) => {
                        session.apply_pass().unwrap();
                    }
                    SessionRequest::Finished => break,
                }
            }
            let result = session.result_for_engine1().unwrap();
            arena.commit_game(result);
        }
    }
    let (w, l, d) = arena.get_stats();
    assert_eq!(w + l + d, 4);
    assert_eq!((w, l, d), (2, 2, 0));
    let (own, opp) = arena.get_pieces();
    assert_eq!(own + opp, 4 * 64);
    assert_eq!((own, opp), (128, 128));
}

#[test]
fn greedy_game_fills_the_board() {
    let mut session = GameSession::new(true);
    loop {
        match session.next_request() {
            SessionRequest::Move(_) => {
                let mv = session.board.get_legal_moves_vec()[0];
                session.apply_move_line(&format!("{}", mv)).unwrap();
            }
            SessionRequest::Pass(_) => session.apply_pass().unwrap(),
            SessionRequest::Finished => break,
        }
    }
    assert_eq!(session.board.piece_sum(), 64);
    let result = session.result_for_engine1().unwrap();
    // the greedy game is won by White: Black keeps 19 stones
    assert_eq!(result.outcome, GameOutcome::Engine1Lose);
    assert_eq!(result.own_pieces, 19);
    assert_eq!(result.opp_pieces, 45);
}

#[test]
fn arena_reports_its_commands() {
    let c1 = vec!["one".to_string(), "a".to_string()];
    let c2 = vec!["two".to_string()];
    let arena = Arena::new(c1.clone(), c2.clone());
    let (r1, r2) = arena.get_commands();
    assert_eq!(*r1, c1);
    assert_eq!(*r2, c2);
    assert_eq!(arena.get_stats(), (0, 0, 0));
    assert_eq!(arena.get_pieces(), (0, 0));
}
