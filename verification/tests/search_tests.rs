use rust_reversi::board::{Board, Turn};
use rust_reversi::search::alpha_beta::AlphaBetaSearch;
use rust_reversi::search::evaluator::{Evaluator, LegalNumEvaluator, PieceEvaluator};
use rust_reversi::search::time_keeper::TimeKeeper;
use rust_reversi::search::transposition_table::{EntryType, TranspositionTable};

fn bit(pos: usize) -> u64 {
    1u64 << (63 - pos)
}

#[test]
fn piece_evaluator_counts_difference() {
    let eval = PieceEvaluator::new();
    assert_eq!(eval.evaluate(&Board::new()), 0);
    let mut board = Board::new();
    board.do_move(19).unwrap();
    // white to move: one white stone against four black ones
    assert_eq!(eval.evaluate(&board), -3);
}

#[test]
fn evaluators_negate_under_side_swap() {
    let mut board = Board::new();
    board.do_move(19).unwrap();
    let (player, opponent, turn) = board.get_board();
    let mut swapped = Board::new();
    swapped.set_board(opponent, player, turn);
    let piece = PieceEvaluator::new();
    assert_eq!(piece.evaluate(&swapped), -piece.evaluate(&board));
    let mobility = LegalNumEvaluator::new();
    assert_eq!(mobility.evaluate(&swapped), -mobility.evaluate(&board));
}

#[test]
fn legal_num_evaluator_on_initial_board() {
    let eval = LegalNumEvaluator::new();
    assert_eq!(eval.evaluate(&Board::new()), 0);
}

#[test]
fn tt_store_keeps_deeper_entry() {
    let mut tt = TranspositionTable::new();
    let board = Board::new();
    tt.store(&board, 5, 10, EntryType::Exact);
    tt.store(&board, 3, 99, EntryType::Exact);
    let e = tt.lookup(&board).unwrap();
    assert_eq!(e.get_depth(), 5);
    assert_eq!(e.get_score(), 10);
}

#[test]
fn tt_store_keeps_exact_at_equal_depth() {
    let mut tt = TranspositionTable::new();
    let board = Board::new();
    tt.store(&board, 4, 7, EntryType::Exact);
    tt.store(&board, 4, 50, EntryType::LowerBound);
    let e = tt.lookup(&board).unwrap();
    assert_eq!(e.get_score(), 7);
    assert!(matches!(e.get_type(), EntryType::Exact));
}

#[test]
fn tt_store_prefers_larger_lower_bound() {
    let mut tt = TranspositionTable::new();
    let board = Board::new();
    tt.store(&board, 4, 10, EntryType::LowerBound);
    tt.store(&board, 4, 20, EntryType::LowerBound);
    assert_eq!(tt.lookup(&board).unwrap().get_score(), 20);
    tt.store(&board, 4, 15, EntryType::LowerBound);
    assert_eq!(tt.lookup(&board).unwrap().get_score(), 20);
}

#[test]
fn tt_store_prefers_smaller_upper_bound() {
    let mut tt = TranspositionTable::new();
    let board = Board::new();
    tt.store(&board, 4, 30, EntryType::UpperBound);
    tt.store(&board, 4, 20, EntryType::UpperBound);
    assert_eq!(tt.lookup(&board).unwrap().get_score(), 20);
    tt.store(&board, 4, 25, EntryType::UpperBound);
    assert_eq!(tt.lookup(&board).unwrap().get_score(), 20);
}

#[test]
fn tt_store_overwrites_mixed_bounds_and_deeper() {
    let mut tt = TranspositionTable::new();
    let board = Board::new();
    tt.store(&board, 4, 30, EntryType::UpperBound);
    tt.store(&board, 4, 10, EntryType::LowerBound);
    let e = tt.lookup(&board).unwrap();
    assert_eq!(e.get_score(), 10);
    assert!(matches!(e.get_type(), EntryType::LowerBound));
    tt.store(&board, 6, 1, EntryType::UpperBound);
    assert_eq!(tt.lookup(&board).unwrap().get_depth(), 6);
}

#[test]
fn tt_exact_replaces_bound_at_equal_depth() {
    let mut tt = TranspositionTable::new();
    let board = Board::new();
    tt.store(&board, 4, 30, EntryType::UpperBound);
    tt.store(&board, 4, 12, EntryType::Exact);
    let e = tt.lookup(&board).unwrap();
    assert_eq!(e.get_score(), 12);
    assert!(matches!(e.get_type(), EntryType::Exact));
}

#[test]
fn tt_len_clear_and_distinct_keys() {
    let mut tt = TranspositionTable::new();
    assert!(tt.is_empty());
    let a = Board::new();
    let mut b = Board::new();
    b.do_move(19).unwrap();
    tt.store(&a, 1, 0, EntryType::Exact);
    tt.store(&b, 1, 5, EntryType::Exact);
    assert_eq!(tt.len(), 2);
    assert_eq!(tt.lookup(&a).unwrap().get_score(), 0);
    assert_eq!(tt.lookup(&b).unwrap().get_score(), 5);
    tt.clear();
    assert!(tt.is_empty());
    assert!(tt.lookup(&a).is_none());
}

#[test]
fn depth_zero_search_returns_a_legal_move_and_exact_root() {
    let board = Board::new();
    let mut search = AlphaBetaSearch::new(0, PieceEvaluator::new());
    let mv = search.get_move(board).unwrap();
    assert!(board.is_legal_move(mv));
    assert_eq!(mv, 19);
    let root = search.tt_probe(&board).unwrap();
    assert!(matches!(root.get_type(), EntryType::Exact));
    assert_eq!(root.get_depth(), 0);
    // every opening reply flips exactly one stone: score 3 for the mover
    assert_eq!(root.get_score(), 3);
}

#[test]
fn seeded_lower_bound_cuts_off_without_descending() {
    let board = Board::new();
    let mut search = AlphaBetaSearch::new(5, PieceEvaluator::new());
    search.tt_store(&board, 5, 100, EntryType::LowerBound);
    let len_before = search.tt_len();
    let score = search.get_search_score(&board, 5, 0, 50);
    assert_eq!(score, 100);
    assert_eq!(search.tt_len(), len_before);
}

#[test]
fn seeded_upper_bound_cuts_off_when_below_alpha() {
    let board = Board::new();
    let mut search = AlphaBetaSearch::new(5, PieceEvaluator::new());
    search.tt_store(&board, 7, -4, EntryType::UpperBound);
    assert_eq!(search.get_search_score(&board, 5, 0, 50), -4);
}

#[test]
fn shallow_table_entry_does_not_cut_off() {
    let board = Board::new();
    let mut search = AlphaBetaSearch::new(5, PieceEvaluator::new());
    search.tt_store(&board, 0, 100, EntryType::LowerBound);
    // depth-1 search must ignore the shallow entry and search the children
    let score = search.get_search_score(&board, 1, i32::MIN + 1, i32::MAX - 1);
    assert_eq!(score, 3);
}

#[test]
fn fixed_depth_moves_stay_legal_for_a_whole_game() {
    let mut board = Board::new();
    let mut search = AlphaBetaSearch::new(2, PieceEvaluator::new());
    let mut plies = 0;
    while !board.is_game_over() && plies < 200 {
        if board.get_legal_moves() == 0 {
            board.do_pass().unwrap();
        } else {
            let mv = search.get_move(board).unwrap();
            assert!(board.is_legal_move(mv));
            board.do_move(mv).unwrap();
        }
        let (p, o, _) = board.get_board();
        assert_eq!(p & o, 0);
        plies += 1;
    }
    assert!(board.is_game_over());
}

#[test]
fn search_without_moves_returns_none() {
    let mut board = Board::new();
    board.set_board(bit(8) | bit(16), bit(0), Turn::White);
    let mut search = AlphaBetaSearch::new(3, PieceEvaluator::new());
    assert_eq!(search.get_move(board), None);
}

#[test]
fn iterative_deepening_zero_deadline_returns_no_move() {
    let board = Board::new();
    let mut search = AlphaBetaSearch::new(3, PieceEvaluator::new());
    assert_eq!(search.get_move_with_iter_deepening(board, 0), None);
}

#[test]
fn iterative_deepening_finds_a_legal_move() {
    let board = Board::new();
    let mut search = AlphaBetaSearch::new(3, PieceEvaluator::new());
    // fifty milliseconds: plenty for the first iterations
    let mv = search.get_move_with_iter_deepening(board, 50_000_000).unwrap();
    assert!(board.is_legal_move(mv));
}

#[test]
fn timed_search_answers_terminal_position_before_the_clock() {
    let mut board = Board::new();
    board.set_board_str(&"X".repeat(64), Turn::Black).unwrap();
    let mut search = AlphaBetaSearch::new(5, PieceEvaluator::new());
    let keeper = TimeKeeper::new(5_000_000_000);
    let score = search.get_search_score_with_timeout(&board, 5, 0, 50, &keeper);
    assert_eq!(score, i32::MAX - 2);
    assert_eq!(search.tt_len(), 0);
}

#[test]
fn timed_search_answers_horizon_before_the_clock() {
    let board = Board::new();
    let mut search = AlphaBetaSearch::new(5, PieceEvaluator::new());
    let keeper = TimeKeeper::new(5_000_000_000);
    let score = search.get_search_score_with_timeout(&board, 0, i32::MIN + 1, i32::MAX - 1, &keeper);
    assert_eq!(score, 0);
    assert_eq!(search.tt_len(), 0);
}

#[test]
fn timed_search_honours_a_seeded_lower_bound() {
    let board = Board::new();
    let mut search = AlphaBetaSearch::new(5, PieceEvaluator::new());
    search.tt_store(&board, 5, 100, EntryType::LowerBound);
    let keeper = TimeKeeper::new(5_000_000_000);
    assert_eq!(search.get_search_score_with_timeout(&board, 5, 0, 50, &keeper), 100);
}

#[test]
fn depth_one_search_from_empty_table_matches_the_reference_value() {
    let board = Board::new();
    let mut search = AlphaBetaSearch::new(1, PieceEvaluator::new());
    // every opening reply flips exactly one stone: best value 3
    let score = search.get_search_score(&board, 1, i32::MIN + 1, i32::MAX - 1);
    assert_eq!(score, 3);
    let root = search.tt_probe(&board).unwrap();
    assert_eq!(root.get_depth(), 1);
    assert_eq!(root.get_score(), 3);
    assert!(matches!(root.get_type(), EntryType::Exact));
}

#[test]
fn depth_zero_search_stores_nothing() {
    let board = Board::new();
    let mut search = AlphaBetaSearch::new(0, PieceEvaluator::new());
    let score = search.get_search_score(&board, 0, i32::MIN + 1, i32::MAX - 1);
    assert_eq!(score, 0);
    assert_eq!(search.tt_len(), 0);
}

#[test]
fn depth_one_search_through_a_forced_pass_matches_the_reference_value() {
    // White to move has no move; Black then wins everything with one capture
    let mut board = Board::new();
    board.set_board(bit(8) | bit(16), bit(0), Turn::White);
    let mut search = AlphaBetaSearch::new(1, PieceEvaluator::new());
    let score = search.get_search_score(&board, 1, i32::MIN + 1, i32::MAX - 1);
    assert_eq!(score, i32::MIN + 2);
}

#[test]
fn fresh_root_search_stores_an_exact_entry_at_the_depth_limit() {
    let board = Board::new();
    let mut search = AlphaBetaSearch::new(2, PieceEvaluator::new());
    let mv = search.get_move(board).unwrap();
    assert!(board.is_legal_move(mv));
    let root = search.tt_probe(&board).unwrap();
    assert_eq!(root.get_depth(), 2);
    assert!(matches!(root.get_type(), EntryType::Exact));
}
