use rust_reversi::board::{Board, BoardError, Color, Turn};
use rust_reversi::pos2bit;

fn bit(pos: usize) -> u64 {
    1u64 << (63 - pos)
}

#[test]
fn pos2bit_trailing_zeros_matches_square() {
    for pos in 0..64usize {
        assert_eq!(pos2bit(pos).trailing_zeros(), 63 - pos as u32);
    }
}

#[test]
fn opening_legal_moves() {
    let board = Board::new();
    let lm = board.get_legal_moves();
    assert_eq!(lm, bit(19) | bit(26) | bit(37) | bit(44));
    assert_eq!(board.get_legal_moves_vec(), vec![19, 26, 37, 44]);
}

#[test]
fn opening_move_d3() {
    let mut board = Board::new();
    assert_eq!(board.do_move(19), Ok(()));
    let (player, opponent, turn) = board.get_board();
    assert_eq!(turn, Turn::White);
    // three black stones and one white in the centre, plus the new stone
    assert_eq!(board.black_piece_num(), 4);
    assert_eq!(board.white_piece_num(), 1);
    assert_eq!(opponent, bit(19) | bit(27) | bit(28) | bit(35));
    assert_eq!(player, bit(36));
    assert_eq!(player & opponent, 0);
}

#[test]
fn lone_row_has_no_moves() {
    let mut board = Board::new();
    board.set_board(0x000000003C000000, 0, Turn::Black);
    assert_eq!(board.get_legal_moves(), 0);
}

#[test]
fn flip_reverses_exactly_the_enclosed_run() {
    let mut board = Board::new();
    // player on squares 34..=37, opponent on 33: capturing from 32
    board.set_board(0x000000003C000000, bit(33), Turn::Black);
    assert_eq!(board.get_legal_moves_vec(), vec![32]);
    assert_eq!(board.do_move(32), Ok(()));
    let (player, opponent, turn) = board.get_board();
    assert_eq!(turn, Turn::White);
    assert_eq!(player, 0);
    assert_eq!(opponent, bit(32) | bit(33) | bit(34) | bit(35) | bit(36) | bit(37));
}

#[test]
fn move_adds_exactly_one_stone() {
    let mut board = Board::new();
    let before = board.piece_sum();
    board.do_move(19).unwrap();
    assert_eq!(board.piece_sum(), before + 1);
    let (player, opponent, _) = board.get_board();
    assert_eq!(player & opponent, 0);
}

#[test]
fn terminal_detection_on_full_black_board() {
    let mut board = Board::new();
    let all_x: String = "X".repeat(64);
    assert_eq!(board.set_board_str(&all_x, Turn::Black), Ok(()));
    assert!(board.is_game_over());
    assert_eq!(board.is_win(), Ok(true));
    assert_eq!(board.is_lose(), Ok(false));
    assert_eq!(board.player_piece_num(), 64);
}

#[test]
fn game_over_iff_neither_side_can_move() {
    let board = Board::new();
    assert!(!board.is_game_over());
    assert_ne!(board.get_legal_moves(), 0);

    // a single black stone: nobody can capture anything
    let mut lone = Board::new();
    lone.set_board(bit(0), 0, Turn::Black);
    assert_eq!(lone.get_legal_moves(), 0);
    assert!(lone.is_game_over());
}

#[test]
fn board_str_round_trip() {
    let mut line = String::new();
    for i in 0..64 {
        line.push(match i {
            27 | 36 => 'O',
            28 | 35 => 'X',
            _ => '-',
        });
    }
    for turn in [Turn::Black, Turn::White] {
        let mut board = Board::new();
        assert_eq!(board.set_board_str(&line, turn), Ok(()));
        assert_eq!(board.serialize(), line);
    }
}

#[test]
fn board_str_of_initial_position() {
    let mut line = String::new();
    for i in 0..64 {
        line.push(match i {
            27 | 36 => 'O',
            28 | 35 => 'X',
            _ => '-',
        });
    }
    let mut board = Board::new();
    board.set_board_str(&line, Turn::Black).unwrap();
    assert_eq!(board.get_board(), Board::new().get_board());
}

#[test]
fn board_str_rejects_bad_character() {
    let mut board = Board::new();
    let before = board.get_board();
    let mut line = "-".repeat(63);
    line.push('?');
    assert_eq!(board.set_board_str(&line, Turn::Black), Err(BoardError::InvalidCharacter));
    assert_eq!(board.get_board(), before);
}

#[test]
fn board_str_rejects_bad_length() {
    let mut board = Board::new();
    let before = board.get_board();
    assert_eq!(board.set_board_str("XO-", Turn::Black), Err(BoardError::InvalidLength));
    assert_eq!(board.get_board(), before);
}

#[test]
fn illegal_move_fails_and_leaves_state() {
    let mut board = Board::new();
    let before = board.get_board();
    assert_eq!(board.do_move(0), Err(BoardError::InvalidMove));
    assert_eq!(board.do_move(64), Err(BoardError::InvalidMove));
    assert_eq!(board.get_board(), before);
}

#[test]
fn pass_with_moves_available_fails_and_leaves_state() {
    let mut board = Board::new();
    let before = board.get_board();
    assert_eq!(board.do_pass(), Err(BoardError::InvalidPass));
    assert_eq!(board.get_board(), before);
}

#[test]
fn pass_when_stuck_swaps_sides() {
    let mut board = Board::new();
    // White to move owns the column pair; only Black has a capture
    board.set_board(bit(8) | bit(16), bit(0), Turn::White);
    assert_eq!(board.get_legal_moves(), 0);
    assert!(!board.is_game_over());
    assert_eq!(board.do_pass(), Ok(()));
    let (player, opponent, turn) = board.get_board();
    assert_eq!(turn, Turn::Black);
    assert_eq!(player, bit(0));
    assert_eq!(opponent, bit(8) | bit(16));
}

#[test]
fn is_win_before_game_over_is_refused() {
    let board = Board::new();
    assert_eq!(board.is_win(), Err(BoardError::GameNotOver));
    assert_eq!(board.is_lose(), Err(BoardError::GameNotOver));
}

#[test]
fn piece_counters_on_initial_board() {
    let board = Board::new();
    assert_eq!(board.player_piece_num(), 2);
    assert_eq!(board.opponent_piece_num(), 2);
    assert_eq!(board.black_piece_num(), 2);
    assert_eq!(board.white_piece_num(), 2);
    assert_eq!(board.piece_sum(), 4);
    assert_eq!(board.diff_piece_num(), 0);
}

#[test]
fn child_boards_of_initial_position() {
    let board = Board::new();
    let children = board.get_child_boards().unwrap();
    assert_eq!(children.len(), 4);
    for (child, mv) in children.iter().zip([19usize, 26, 37, 44]) {
        let mut expected = Board::new();
        expected.do_move(mv).unwrap();
        assert_eq!(child.get_board(), expected.get_board());
    }
}

#[test]
fn child_boards_absent_when_passing() {
    let mut board = Board::new();
    board.set_board(bit(8) | bit(16), bit(0), Turn::White);
    assert!(board.get_child_boards().is_none());
}

#[test]
fn board_vec_and_matrix_projections() {
    let board = Board::new();
    let cells = board.get_board_vec();
    assert_eq!(cells.len(), 64);
    assert_eq!(cells[27], Color::White);
    assert_eq!(cells[28], Color::Black);
    assert_eq!(cells[35], Color::Black);
    assert_eq!(cells[36], Color::White);
    assert_eq!(cells[0], Color::Empty);
    let rows = board.get_board_matrix();
    assert_eq!(rows.len(), 8);
    for (r, row) in rows.iter().enumerate() {
        assert_eq!(row.len(), 8);
        for (c, cell) in row.iter().enumerate() {
            assert_eq!(*cell, cells[r * 8 + c]);
        }
    }
}
