//! Position evaluators: heuristic scores for non-terminal positions,
//! always from the side-to-move's perspective.

use vstd::prelude::*;
use crate::bits::pop64;
use crate::board::{Board, do_pass_spec, legal_moves_spec};
use crate::search::transposition_table::{SCORE_MAX, SCORE_MIN};

verus! {

/// A position evaluator. `evaluate` maps a position to a signed score
/// from the side-to-move's perspective (positive = favourable), bounded
/// away from the integer limits so that negamax negation is always safe.
pub trait Evaluator: Sized {
    /// The score this evaluator assigns to a position.
    spec fn spec_evaluate(&self, b: Board) -> int;

    /// The heuristic score of `board` for the side to move.
    fn evaluate(&self, board: &Board) -> (r: i32)
        requires
            board.wf(),
        ensures
            r == self.spec_evaluate(*board),
            SCORE_MIN <= r <= SCORE_MAX,
    ;
}

/// Scores a position by its stone difference.
pub struct PieceEvaluator {}

impl PieceEvaluator {
    /// A stone-difference evaluator.
    pub fn new() -> (r: PieceEvaluator) {
        PieceEvaluator {  }
    }
}

impl Evaluator for PieceEvaluator {
    /// The mover's stones minus the opponent's stones.
    open spec fn spec_evaluate(&self, b: Board) -> int {
        pop64(b.player) - pop64(b.opponent)
    }

    fn evaluate(&self, board: &Board) -> (r: i32) {
        board.diff_piece_num()
    }
}

/// Scores a position by its mobility: the number of legal moves.
pub struct LegalNumEvaluator {}

impl LegalNumEvaluator {
    /// A mobility evaluator.
    pub fn new() -> (r: LegalNumEvaluator) {
        LegalNumEvaluator {  }
    }
}

impl Evaluator for LegalNumEvaluator {
    /// The mover's legal-move count minus the count the opponent would
    /// have from the side-swapped position.
    open spec fn spec_evaluate(&self, b: Board) -> int {
        pop64(legal_moves_spec(b.player, b.opponent)) - pop64(
            legal_moves_spec(b.opponent, b.player),
        )
    }

    fn evaluate(&self, board: &Board) -> (r: i32) {
        let own = crate::bits::popcount(board.get_legal_moves());
        let swapped = Board { player: board.opponent, opponent: board.player, turn: board.turn };
        let other = crate::bits::popcount(swapped.get_legal_moves());
        own as i32 - other as i32
    }
}

/// Negamax symmetry at the evaluator level: swapping the side to move
/// negates the stone-difference score.
pub proof fn lemma_piece_evaluator_antisymmetric(e: PieceEvaluator, b: Board)
    ensures
        e.spec_evaluate(do_pass_spec(b)) == -e.spec_evaluate(b),
{
}

/// Negamax symmetry at the evaluator level: swapping the side to move
/// negates the mobility score.
pub proof fn lemma_legal_num_evaluator_antisymmetric(e: LegalNumEvaluator, b: Board)
    ensures
        e.spec_evaluate(do_pass_spec(b)) == -e.spec_evaluate(b),
{
}

} // verus!
