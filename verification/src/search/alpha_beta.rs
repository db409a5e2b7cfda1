//! Negamax search with alpha-beta pruning, a transposition table with
//! bound-typed entries, and iterative deepening under a deadline.

use vstd::prelude::*;
use crate::board::{
    Board, do_move_spec, do_pass_spec, is_game_over_spec, legal_moves_spec, legal_positions,
    lemma_legal_positions_empty, lemma_legal_positions_len, lemma_legal_positions_props,
    total_pieces,
};
use crate::bits::{bit_at, pop64};
use crate::search::evaluator::Evaluator;
use crate::search::time_keeper::TimeKeeper;
use crate::search::transposition_table::{
    EntryType, SCORE_MAX, SCORE_MIN, TTEntry, TranspositionTable, stored_entry,
};

verus! {

/// The answer a transposition-table probe gives for a search of `b` at
/// `depth` with window `(alpha, beta)`: an entry of sufficient depth
/// answers directly when it is exact, when it is a lower bound at or
/// above beta, or when it is an upper bound at or below alpha.
pub open spec fn tt_cutoff_spec(
    tt: TranspositionTable,
    b: Board,
    depth: usize,
    alpha: i32,
    beta: i32,
) -> Option<i32> {
    match tt.entry_opt(b) {
        Some(e) => if e.depth >= depth {
            match e.entry_type {
                EntryType::Exact => Some(e.score),
                EntryType::LowerBound => if e.score >= beta {
                    Some(e.score)
                } else {
                    None::<i32>
                },
                EntryType::UpperBound => if e.score <= alpha {
                    Some(e.score)
                } else {
                    None::<i32>
                },
            }
        } else {
            None::<i32>
        },
        None => None::<i32>,
    }
}

/// The score the search returns on a terminal position: sentinels chosen
/// so that unary negation stays representable.
pub open spec fn terminal_score(b: Board) -> int {
    if pop64(b.player) > pop64(b.opponent) {
        SCORE_MAX as int
    } else if pop64(b.player) < pop64(b.opponent) {
        SCORE_MIN as int
    } else {
        0
    }
}


/// The pure negamax value of `b` searched `depth` plies deep under the
/// evaluation `ev`: the mathematical ideal that the imperative,
/// table-assisted search approximates. A finished game is worth its
/// sentinel; at the horizon the evaluation answers; a forced pass
/// recurses on the side-swapped position at the same depth; otherwise
/// the best negated child value wins.
pub open spec fn negamax_spec(b: Board, depth: nat, ev: spec_fn(Board) -> int) -> int
    decreases depth, (if legal_moves_spec(b.player, b.opponent) == 0 {
        1int
    } else {
        0int
    }), 65int,
    via negamax_spec_decreases
{
    if is_game_over_spec(b) {
        terminal_score(b)
    } else if depth == 0 {
        ev(b)
    } else if legal_moves_spec(b.player, b.opponent) == 0 {
        -negamax_spec(do_pass_spec(b), depth, ev)
    } else {
        negamax_children(
            b,
            legal_positions(legal_moves_spec(b.player, b.opponent), 64),
            (depth - 1) as nat,
            ev,
        )
    }
}

#[via_fn]
proof fn negamax_spec_decreases(b: Board, depth: nat, ev: spec_fn(Board) -> int) {
    lemma_legal_positions_len(legal_moves_spec(b.player, b.opponent), 64);
}

/// The largest value, negated, that the children reached by the listed
/// moves take when searched `child_depth` plies deep; on an empty list,
/// one less than the loss sentinel, which any real child beats.
pub open spec fn negamax_children(
    b: Board,
    moves: Seq<usize>,
    child_depth: nat,
    ev: spec_fn(Board) -> int,
) -> int
    decreases child_depth + 1, 0int, moves.len(),
{
    if moves.len() == 0 {
        SCORE_MIN - 1
    } else {
        let s = -negamax_spec(do_move_spec(b, moves.last() as int), child_depth, ev);
        let r = negamax_children(b, moves.drop_last(), child_depth, ev);
        if s > r {
            s
        } else {
            r
        }
    }
}

/// The evaluation of an evaluator value, as a function of the position.
pub open spec fn eval_fn<E: Evaluator>(e: E) -> spec_fn(Board) -> int {
    |b: Board| e.spec_evaluate(b)
}

/// A longer move list can only raise the best child value.
proof fn lemma_negamax_children_take(
    b: Board,
    ps: Seq<usize>,
    cd: nat,
    ev: spec_fn(Board) -> int,
    i: int,
)
    requires
        0 <= i <= ps.len(),
    ensures
        negamax_children(b, ps, cd, ev) >= negamax_children(b, ps.take(i), cd, ev),
    decreases ps.len(),
{
    if i < ps.len() {
        assert(ps.drop_last() =~= ps.take(ps.len() - 1));
        lemma_negamax_children_take(b, ps.drop_last(), cd, ev, i);
        assert(ps.take(i) =~= ps.drop_last().take(i));
    } else {
        assert(ps.take(i) =~= ps);
    }
}

/// When every child value stays at or above the loss sentinel, the best
/// negated child value stays at or below its negation.
proof fn lemma_negamax_children_upper(b: Board, ps: Seq<usize>, ev: spec_fn(Board) -> int)
    requires
        forall|k: int|
            0 <= k < ps.len() ==> negamax_spec(do_move_spec(b, #[trigger] ps[k] as int), 0, ev)
                >= SCORE_MIN,
    ensures
        negamax_children(b, ps, 0, ev) <= SCORE_MAX + 1,
    decreases ps.len(),
{
    if ps.len() > 0 {
        assert forall|k: int|
            0 <= k < ps.drop_last().len() implies negamax_spec(
            do_move_spec(b, #[trigger] ps.drop_last()[k] as int),
            0,
            ev,
        ) >= SCORE_MIN by {
            assert(ps.drop_last()[k] == ps[k]);
        }
        lemma_negamax_children_upper(b, ps.drop_last(), ev);
        assert(negamax_spec(do_move_spec(b, ps[ps.len() - 1] as int), 0, ev) >= SCORE_MIN);
    }
}

/// Negamax symmetry at a forced pass: when the side to move has no
/// legal move in an unfinished position, the value is the negation of
/// the side-swapped value at the same depth; a pass does not consume a
/// ply. With legal moves available the identity does not hold in
/// general, because the two orientations then root different game trees.
pub proof fn lemma_negamax_pass_symmetry(b: Board, depth: nat, ev: spec_fn(Board) -> int)
    requires
        !is_game_over_spec(b),
        legal_moves_spec(b.player, b.opponent) == 0,
        depth > 0,
    ensures
        negamax_spec(b, depth, ev) == -negamax_spec(do_pass_spec(b), depth, ev),
{
}

/// Negamax symmetry at the horizon: at depth 0 an antisymmetric
/// evaluation makes the value of an unfinished position the negation of
/// the side-swapped value. Both reference evaluators are antisymmetric
/// in this sense.
pub proof fn lemma_negamax_horizon_symmetry(b: Board, ev: spec_fn(Board) -> int)
    requires
        !is_game_over_spec(b),
        ev(do_pass_spec(b)) == -ev(b),
    ensures
        negamax_spec(b, 0, ev) == -negamax_spec(do_pass_spec(b), 0, ev),
{
    assert(!is_game_over_spec(do_pass_spec(b)));
}

/// A negamax alpha-beta search with a fixed depth limit, an owned
/// evaluator and a transposition table scoped to this search instance.
pub struct AlphaBetaSearch<E: Evaluator> {
    max_depth: usize,
    evaluator: E,
    tt: TranspositionTable,
}

impl<E: Evaluator> AlphaBetaSearch<E> {
    /// The transposition table of this search.
    pub closed spec fn tt_model(self) -> TranspositionTable {
        self.tt
    }

    /// The evaluator of this search.
    pub closed spec fn eval_model(self) -> E {
        self.evaluator
    }

    /// The fixed depth limit used by `get_move`.
    pub closed spec fn depth_limit(self) -> usize {
        self.max_depth
    }

    /// The transposition table is well formed.
    pub open spec fn wf(self) -> bool {
        self.tt_model().wf()
    }

    /// A search of fixed depth `max_depth` with an empty table.
    pub fn new(max_depth: usize, evaluator: E) -> (r: AlphaBetaSearch<E>)
        ensures
            r.wf(),
            r.depth_limit() == max_depth,
            r.eval_model() == evaluator,
            r.tt_model().model().len() == 0,
            forall|b: Board| !r.tt_model().has_entry(b),
    {
        AlphaBetaSearch { max_depth, evaluator, tt: TranspositionTable::new() }
    }

    /// The table entry this search holds for `board`, if any: a seam for
    /// observing the table from outside the search.
    pub fn tt_probe(&self, board: &Board) -> (r: Option<TTEntry>)
        requires
            self.wf(),
        ensures
            r == self.tt_model().entry_opt(*board),
    {
        self.tt.lookup(board)
    }

    /// Number of entries this search's table holds.
    pub fn tt_len(&self) -> (r: usize)
        ensures
            r == self.tt_model().model().len(),
    {
        self.tt.len()
    }

    /// Place an entry in the search's table directly, subject to the
    /// usual store policy: a seam for seeding the table from outside.
    pub fn tt_store(&mut self, board: &Board, depth: usize, score: i32, entry_type: EntryType)
        requires
            old(self).wf(),
            SCORE_MIN <= score <= SCORE_MAX + 1,
        ensures
            final(self).wf(),
            final(self).depth_limit() == old(self).depth_limit(),
            final(self).eval_model() == old(self).eval_model(),
            final(self).tt_model().has_entry(*board),
            final(self).tt_model().entry_for(*board) == stored_entry(
                old(self).tt_model().entry_opt(*board),
                TTEntry { depth, score, entry_type },
            ),
    {
        self.tt.store(board, depth, score, entry_type);
    }

    /// Probe the table for a cutoff at `board`.
    fn tt_cutoff(&self, board: &Board, depth: usize, alpha: i32, beta: i32) -> (r: Option<i32>)
        requires
            self.wf(),
        ensures
            r == tt_cutoff_spec(self.tt_model(), *board, depth, alpha, beta),
            r matches Some(s) ==> SCORE_MIN <= s <= SCORE_MAX + 1,
    {
        match self.tt.lookup(board) {
            Some(entry) => {
                if entry.get_depth() >= depth {
                    match entry.get_type() {
                        EntryType::Exact => Some(entry.get_score()),
                        EntryType::LowerBound => if entry.get_score() >= beta {
                            Some(entry.get_score())
                        } else {
                            None
                        },
                        EntryType::UpperBound => if entry.get_score() <= alpha {
                            Some(entry.get_score())
                        } else {
                            None
                        },
                    }
                } else {
                    None
                }
            },
            None => None,
        }
    }

    /// The negamax score of `board` searched `depth` plies deep within
    /// the window `(alpha, beta)`: a table probe may answer at once and
    /// leaves the table alone; a finished game is worth its sentinel; at
    /// the horizon the evaluator answers; in both cases nothing is
    /// stored. Otherwise the children are searched with negated windows,
    /// a beta cutoff stores a lower bound, a forced pass recurses at the
    /// same depth, and an entry for `board` is stored either way. The
    /// table persists across searches and a retained deeper entry
    /// answers a shallower probe, so the deep result is pinned against
    /// the negamax reference exactly where the table cannot interfere:
    /// from an empty table, at depth 1, under a window at least as wide
    /// as the full one, with a bounded evaluation — the forced-pass case
    /// included, where the value is the negation of the side-swapped
    /// value at the same depth.
    #[verifier::loop_isolation(false)]
    #[verifier::rlimit(100)]
    pub fn get_search_score(&mut self, board: &Board, depth: usize, alpha: i32, beta: i32) -> (r:
        i32)
        requires
            old(self).wf(),
            board.wf(),
            i32::MIN + 1 <= alpha <= i32::MAX - 1,
            i32::MIN + 2 <= beta <= i32::MAX,
        ensures
            final(self).wf(),
            final(self).depth_limit() == old(self).depth_limit(),
            final(self).eval_model() == old(self).eval_model(),
            SCORE_MIN <= r <= SCORE_MAX + 1,
            tt_cutoff_spec(old(self).tt_model(), *board, depth, alpha, beta) matches Some(s) ==> r
                == s && final(self).tt_model() == old(self).tt_model(),
            tt_cutoff_spec(old(self).tt_model(), *board, depth, alpha, beta) is None
                && is_game_over_spec(*board) ==> r == terminal_score(*board)
                && final(self).tt_model() == old(self).tt_model(),
            tt_cutoff_spec(old(self).tt_model(), *board, depth, alpha, beta) is None
                && !is_game_over_spec(*board) && depth == 0 ==> r
                == old(self).eval_model().spec_evaluate(*board) && final(self).tt_model()
                == old(self).tt_model(),
            tt_cutoff_spec(old(self).tt_model(), *board, depth, alpha, beta) is None
                && !is_game_over_spec(*board) && depth > 0
                ==> final(self).tt_model().has_entry(*board),
            tt_cutoff_spec(old(self).tt_model(), *board, depth, alpha, beta) is None
                && !is_game_over_spec(*board) && depth > 0 && legal_moves_spec(
                board.player,
                board.opponent,
            ) != 0 ==> r >= alpha,
            forall|b: Board|
                #[trigger] final(self).tt_model().has_entry(b)
                    && !old(self).tt_model().has_entry(b) ==> b.wf(),
            forall|b: Board|
                #[trigger] final(self).tt_model().has_entry(b)
                    && !old(self).tt_model().has_entry(b) ==> total_pieces(b) > total_pieces(
                    *board,
                ) || b == *board || (legal_moves_spec(board.player, board.opponent) == 0 && b
                    == do_pass_spec(*board)),
            tt_cutoff_spec(old(self).tt_model(), *board, depth, alpha, beta) is None
                && !is_game_over_spec(*board) && depth > 0 && legal_moves_spec(
                board.player,
                board.opponent,
            ) != 0 && alpha < beta && !old(self).tt_model().has_entry(*board) ==> ({
                let e = final(self).tt_model().entry_for(*board);
                e.depth == depth && e.score == r && (r >= beta ==> e.entry_type
                    == EntryType::LowerBound) && (alpha < r < beta ==> e.entry_type
                    == EntryType::Exact) && (r <= alpha ==> e.entry_type == EntryType::UpperBound)
            }),
            ({
                let ev = eval_fn(old(self).eval_model());
                (old(self).tt_model().model().len() == 0 && !is_game_over_spec(*board) && depth
                    == 1 && alpha <= i32::MIN + 2 && beta >= i32::MAX - 1 && (forall|b: Board|
                    b.wf() ==> SCORE_MIN <= #[trigger] old(self).eval_model().spec_evaluate(b)
                        <= SCORE_MAX)) ==> r == negamax_spec(*board, 1, ev)
            }),
        decreases depth, (if legal_moves_spec(board.player, board.opponent) == 0 {
            1int
        } else {
            0int
        }),
    {
        if let Some(score) = self.tt_cutoff(board, depth, alpha, beta) {
            return score;
        }
        if board.is_game_over() {
            return match board.is_win() {
                Ok(true) => SCORE_MAX,
                Ok(false) => match board.is_lose() {
                    Ok(true) => SCORE_MIN,
                    _ => 0,
                },
                Err(_) => 0,
            };
        }
        if depth == 0 {
            return self.evaluator.evaluate(board);
        }
        let ghost ev = eval_fn(old(self).eval_model());
        let ghost lm = legal_moves_spec(board.player, board.opponent);
        let ghost ps = legal_positions(lm, 64);
        let ghost exact_case = old(self).tt_model().model().len() == 0 && depth == 1 && alpha
            <= i32::MIN + 2 && beta >= i32::MAX - 1 && (forall|b: Board|
            b.wf() ==> SCORE_MIN <= #[trigger] old(self).eval_model().spec_evaluate(b)
                <= SCORE_MAX);
        match board.get_child_boards() {
            Some(children) => {
                proof {
                    if exact_case {
                        assert forall|k: int|
                            0 <= k < ps.len() implies SCORE_MIN <= negamax_spec(
                            do_move_spec(*board, #[trigger] ps[k] as int),
                            0,
                            ev,
                        ) <= SCORE_MAX by {
                            let child = children@[k];
                            assert(child == do_move_spec(*board, ps[k] as int) && child.wf());
                            assert(ev(child) == old(self).eval_model().spec_evaluate(child));
                        }
                    }
                }
                let mut current_alpha = alpha;
                let mut idx: usize = 0;
                while idx < children.len()
                    invariant
                        self.wf(),
                        self.depth_limit() == old(self).depth_limit(),
                        self.eval_model() == old(self).eval_model(),
                        board.wf(),
                        depth >= 1,
                        i32::MIN + 1 <= alpha <= i32::MAX - 1,
                        i32::MIN + 2 <= beta <= i32::MAX,
                        idx <= children@.len(),
                        forall|k: int| 0 <= k < children@.len() ==> (#[trigger] children@[k]).wf(),
                        alpha <= current_alpha <= i32::MAX - 1,
                        idx > 0 ==> current_alpha >= i32::MIN + 2,
                        alpha < beta ==> current_alpha < beta,
                        forall|b: Board|
                            #[trigger] self.tt_model().has_entry(b) && !old(
                                self,
                            ).tt_model().has_entry(b) ==> b.wf(),
                        forall|b: Board|
                            #[trigger] self.tt_model().has_entry(b) && !old(
                                self,
                            ).tt_model().has_entry(b) ==> total_pieces(b) > total_pieces(*board),
                        exact_case ==> self.tt_model().model().len() == 0,
                        exact_case ==> current_alpha == (
                        if negamax_children(*board, ps.take(idx as int), 0, ev) >= alpha {
                            negamax_children(*board, ps.take(idx as int), 0, ev)
                        } else {
                            alpha as int
                        }),
                    decreases children@.len() - idx,
                {
                    let ghost pre = *self;
                    let child = children[idx];
                    let s = self.get_search_score(&child, depth - 1, -beta, -current_alpha);
                    proof {
                        assert forall|b: Board|
                            #[trigger] self.tt_model().has_entry(b) && !old(
                                self,
                            ).tt_model().has_entry(b) implies b.wf() by {
                            if !pre.tt_model().has_entry(b) {
                            }
                        }
                        assert forall|b: Board|
                            #[trigger] self.tt_model().has_entry(b) && !old(
                                self,
                            ).tt_model().has_entry(b) implies total_pieces(b) > total_pieces(
                            *board,
                        ) by {
                            if !pre.tt_model().has_entry(b) {
                                // a key new to the child call lies in the child's
                                // subtree, one stone heavier at least
                                assert(total_pieces(child) == total_pieces(*board) + 1);
                                assert(total_pieces(do_pass_spec(child)) == total_pieces(child));
                            }
                        }
                        if exact_case {
                            assert(!pre.tt_model().has_entry(child));
                            assert(s == negamax_spec(child, 0, ev));
                            assert(ps.take(idx + 1).drop_last() =~= ps.take(idx as int));
                            assert(ps.take(idx + 1).last() == ps[idx as int]);
                        }
                    }
                    let score = -s;
                    if score > current_alpha {
                        current_alpha = score;
                    }
                    proof {
                        if exact_case {
                            assert(current_alpha == (if negamax_children(
                                *board,
                                ps.take(idx + 1),
                                0,
                                ev,
                            ) >= alpha {
                                negamax_children(*board, ps.take(idx + 1), 0, ev)
                            } else {
                                alpha as int
                            }));
                        }
                    }
                    if current_alpha >= beta {
                        let ghost mid = *self;
                        proof {
                            if !old(self).tt_model().has_entry(*board) {
                                assert(!mid.tt_model().has_entry(*board));
                            }
                        }
                        self.tt.store(board, depth, current_alpha, EntryType::LowerBound);
                        proof {
                            assert forall|b: Board|
                                #[trigger] self.tt_model().has_entry(b) && !old(
                                    self,
                                ).tt_model().has_entry(b) implies b.wf() by {
                                if !mid.tt_model().has_entry(b) {
                                    assert(b == *board);
                                }
                            }
                            assert forall|b: Board|
                                #[trigger] self.tt_model().has_entry(b) && !old(
                                    self,
                                ).tt_model().has_entry(b) implies total_pieces(b) > total_pieces(
                                *board,
                            ) || b == *board || (legal_moves_spec(board.player, board.opponent)
                                == 0 && b == do_pass_spec(*board)) by {
                                if !mid.tt_model().has_entry(b) {
                                    assert(b == *board);
                                }
                            }
                            if exact_case {
                                // the prefix already attains the highest value a
                                // child can take, so the full list attains no more
                                lemma_negamax_children_take(*board, ps, 0, ev, idx + 1);
                                lemma_negamax_children_upper(*board, ps, ev);
                                assert(ps.take(ps.len() as int) =~= ps);
                                assert(current_alpha == negamax_spec(*board, 1, ev));
                            }
                        }
                        return current_alpha;
                    }
                    idx = idx + 1;
                }
                let entry_type = if current_alpha == alpha {
                    EntryType::UpperBound
                } else {
                    EntryType::Exact
                };
                let ghost mid = *self;
                proof {
                    if !old(self).tt_model().has_entry(*board) {
                        assert(!mid.tt_model().has_entry(*board));
                    }
                }
                self.tt.store(board, depth, current_alpha, entry_type);
                proof {
                    assert forall|b: Board|
                        #[trigger] self.tt_model().has_entry(b) && !old(self).tt_model().has_entry(
                            b,
                        ) implies b.wf() by {
                        if !mid.tt_model().has_entry(b) {
                            assert(b == *board);
                        }
                    }
                    assert forall|b: Board|
                        #[trigger] self.tt_model().has_entry(b) && !old(self).tt_model().has_entry(
                            b,
                        ) implies total_pieces(b) > total_pieces(*board) || b == *board || (
                    legal_moves_spec(board.player, board.opponent) == 0 && b == do_pass_spec(
                        *board,
                    )) by {
                        if !mid.tt_model().has_entry(b) {
                            assert(b == *board);
                        }
                    }
                    if exact_case {
                        assert(ps.take(ps.len() as int) =~= ps);
                        assert(negamax_children(*board, ps, 0, ev) >= -negamax_spec(
                            do_move_spec(*board, ps.last() as int),
                            0,
                            ev,
                        ));
                    }
                }
                current_alpha
            },
            None => {
                let mut new_board = *board;
                match new_board.do_pass() {
                    Ok(_) => (),
                    Err(_) => (),
                }
                let ghost pre = *self;
                let s = self.get_search_score(&new_board, depth, -beta, -alpha);
                proof {
                    if exact_case {
                        // the side-swapped position has moves and the same
                        // evaluation bound, so the recursive call is exact
                        assert(!is_game_over_spec(new_board));
                        assert(s == negamax_spec(new_board, 1, ev));
                    }
                }
                let score = -s;
                let entry_type = if score <= alpha {
                    EntryType::UpperBound
                } else if score >= beta {
                    EntryType::LowerBound
                } else {
                    EntryType::Exact
                };
                let ghost mid = *self;
                self.tt.store(board, depth, score, entry_type);
                proof {
                    assert forall|b: Board|
                        #[trigger] self.tt_model().has_entry(b) && !old(self).tt_model().has_entry(
                            b,
                        ) implies b.wf() by {
                        if !mid.tt_model().has_entry(b) {
                            assert(b == *board);
                        } else if !pre.tt_model().has_entry(b) {
                        }
                    }
                    assert forall|b: Board|
                        #[trigger] self.tt_model().has_entry(b) && !old(self).tt_model().has_entry(
                            b,
                        ) implies total_pieces(b) > total_pieces(*board) || b == *board || (
                    legal_moves_spec(board.player, board.opponent) == 0 && b == do_pass_spec(
                        *board,
                    )) by {
                        if !mid.tt_model().has_entry(b) {
                            assert(b == *board);
                        } else if !pre.tt_model().has_entry(b) {
                            // the side-swapped call never passes in turn, so its
                            // new keys are the swapped position or heavier ones
                            assert(legal_moves_spec(new_board.player, new_board.opponent) != 0);
                            assert(total_pieces(new_board) == total_pieces(*board));
                        }
                    }
                }
                score
            },
        }
    }

    /// The best move at the fixed depth limit: every legal successor is
    /// searched with a full window and the best score wins. Returns a
    /// move exactly when one is legal, and an entry for the root is then
    /// in the table; a root the table did not already know receives an
    /// exact entry at the depth limit, since the child searches only
    /// ever store heavier positions. Deep root searches may be answered
    /// from retained table entries, so the stored root value and the
    /// chosen move are pinned against the negamax reference where the
    /// table cannot interfere: from an empty table at depth limit 0, the
    /// root entry holds the best negated child value, which the returned
    /// move attains.
    #[verifier::loop_isolation(false)]
    #[verifier::rlimit(100)]
    pub fn get_move(&mut self, board: Board) -> (r: Option<usize>)
        requires
            old(self).wf(),
            board.wf(),
        ensures
            final(self).wf(),
            final(self).depth_limit() == old(self).depth_limit(),
            final(self).eval_model() == old(self).eval_model(),
            (r is Some) <==> legal_moves_spec(board.player, board.opponent) != 0,
            r matches Some(m) ==> board.is_legal_move_spec(m as int),
            legal_moves_spec(board.player, board.opponent) != 0
                ==> final(self).tt_model().has_entry(board),
            legal_moves_spec(board.player, board.opponent) != 0 && !old(
                self,
            ).tt_model().has_entry(board) ==> final(self).tt_model().entry_for(board).depth == old(
                self,
            ).depth_limit() && final(self).tt_model().entry_for(board).entry_type
                == EntryType::Exact,
            forall|b: Board|
                #[trigger] final(self).tt_model().has_entry(b)
                    && !old(self).tt_model().has_entry(b) ==> b.wf(),
            ({
                let lm = legal_moves_spec(board.player, board.opponent);
                let ev = eval_fn(old(self).eval_model());
                let best = negamax_children(board, legal_positions(lm, 64), 0, ev);
                (old(self).tt_model().model().len() == 0 && old(self).depth_limit() == 0 && lm
                    != 0) ==> final(self).tt_model().entry_for(board).depth == 0
                    && final(self).tt_model().entry_for(board).score == best
                    && final(self).tt_model().entry_for(board).entry_type == EntryType::Exact && (
                r matches Some(m) ==> -negamax_spec(do_move_spec(board, m as int), 0, ev) == best)
            }),
    {
        let ghost lm = legal_moves_spec(board.player, board.opponent);
        let ghost ev = eval_fn(old(self).eval_model());
        let ghost exact_case = old(self).tt_model().model().len() == 0 && old(self).depth_limit()
            == 0 && lm != 0;
        let mut best_move: Option<usize> = None;
        let mut alpha: i32 = i32::MIN + 1;
        let beta: i32 = i32::MAX - 1;
        let moves = board.get_legal_moves_vec();
        proof {
            lemma_legal_positions_props(lm, 64);
            lemma_legal_positions_empty(lm);
        }
        let md = self.max_depth;
        let mut i: usize = 0;
        while i < moves.len()
            invariant
                self.wf(),
                self.depth_limit() == old(self).depth_limit(),
                self.eval_model() == old(self).eval_model(),
                board.wf(),
                md == old(self).depth_limit(),
                moves@ == legal_positions(lm, 64),
                lm == legal_moves_spec(board.player, board.opponent),
                forall|k: int|
                    0 <= k < moves@.len() ==> (#[trigger] moves@[k] < 64 && bit_at(
                        lm,
                        moves@[k] as int,
                    )),
                i <= moves@.len(),
                i32::MIN + 1 <= alpha <= i32::MAX - 1,
                i == 0 ==> alpha == i32::MIN + 1,
                i > 0 ==> alpha >= i32::MIN + 2,
                (best_move is Some) <==> i > 0,
                best_move matches Some(m) ==> board.is_legal_move_spec(m as int),
                forall|b: Board|
                    #[trigger] self.tt_model().has_entry(b) && !old(self).tt_model().has_entry(b)
                        ==> b.wf(),
                forall|b: Board|
                    #[trigger] self.tt_model().has_entry(b) && !old(self).tt_model().has_entry(b)
                        ==> total_pieces(b) > total_pieces(board),
                exact_case ==> self.tt_model().model().len() == 0,
                exact_case ==> alpha == negamax_children(board, moves@.take(i as int), 0, ev),
                exact_case && i > 0 ==> (best_move matches Some(m) && -negamax_spec(
                    do_move_spec(board, m as int),
                    0,
                    ev,
                ) == alpha),
            decreases moves@.len() - i,
        {
            let ghost pre = *self;
            let move_i = moves[i];
            let mut new_board = board;
            new_board.do_move_unchecked(move_i);
            let s = self.get_search_score(&new_board, md, -beta, -alpha);
            proof {
                assert forall|b: Board|
                    #[trigger] self.tt_model().has_entry(b) && !old(self).tt_model().has_entry(b)
                        implies b.wf() by {
                    if !pre.tt_model().has_entry(b) {
                    }
                }
                assert forall|b: Board|
                    #[trigger] self.tt_model().has_entry(b) && !old(self).tt_model().has_entry(b)
                        implies total_pieces(b) > total_pieces(board) by {
                    if !pre.tt_model().has_entry(b) {
                        // a key new to the child search lies at or below the
                        // child position, which carries one more stone
                        assert(total_pieces(new_board) == total_pieces(board) + 1);
                        assert(total_pieces(do_pass_spec(new_board)) == total_pieces(new_board));
                    }
                }
                if exact_case {
                    assert(!pre.tt_model().has_entry(new_board));
                    assert(s == negamax_spec(new_board, 0, ev));
                    assert(moves@.take(i + 1).drop_last() =~= moves@.take(i as int));
                    assert(moves@.take(i + 1).last() == moves@[i as int]);
                }
            }
            let score = -s;
            if score > alpha {
                alpha = score;
                best_move = Some(move_i);
            }
            proof {
                if exact_case {
                    assert(alpha == negamax_children(board, moves@.take(i + 1), 0, ev));
                }
            }
            i = i + 1;
        }
        if best_move.is_some() {
            let ghost mid = *self;
            proof {
                if !old(self).tt_model().has_entry(board) {
                    assert(!mid.tt_model().has_entry(board));
                }
            }
            self.tt.store(&board, md, alpha, EntryType::Exact);
            proof {
                assert forall|b: Board|
                    #[trigger] self.tt_model().has_entry(b) && !old(self).tt_model().has_entry(b)
                        implies b.wf() by {
                    if !mid.tt_model().has_entry(b) {
                        assert(b == board);
                    }
                }
                if exact_case {
                    assert(moves@.take(moves@.len() as int) =~= moves@);
                }
            }
        }
        proof {
            if lm != 0 {
                assert(moves@.len() > 0);
            }
        }
        best_move
    }

    /// As `get_search_score`, but polling the time keeper after each
    /// child: on timeout the best score so far is returned at once and
    /// nothing more is stored. The probe, terminal and horizon branches
    /// run before any clock poll, so their answers hold whatever the
    /// clock says.
    #[verifier::loop_isolation(false)]
    #[verifier::rlimit(100)]
    pub fn get_search_score_with_timeout(
        &mut self,
        board: &Board,
        depth: usize,
        alpha: i32,
        beta: i32,
        time_keeper: &TimeKeeper,
    ) -> (r: i32)
        requires
            old(self).wf(),
            board.wf(),
            i32::MIN + 1 <= alpha <= i32::MAX - 1,
            i32::MIN + 2 <= beta <= i32::MAX,
        ensures
            final(self).wf(),
            final(self).depth_limit() == old(self).depth_limit(),
            final(self).eval_model() == old(self).eval_model(),
            SCORE_MIN <= r <= SCORE_MAX + 1,
            tt_cutoff_spec(old(self).tt_model(), *board, depth, alpha, beta) matches Some(s) ==> r
                == s && final(self).tt_model() == old(self).tt_model(),
            tt_cutoff_spec(old(self).tt_model(), *board, depth, alpha, beta) is None
                && is_game_over_spec(*board) ==> r == terminal_score(*board)
                && final(self).tt_model() == old(self).tt_model(),
            tt_cutoff_spec(old(self).tt_model(), *board, depth, alpha, beta) is None
                && !is_game_over_spec(*board) && depth == 0 ==> r
                == old(self).eval_model().spec_evaluate(*board) && final(self).tt_model()
                == old(self).tt_model(),
            tt_cutoff_spec(old(self).tt_model(), *board, depth, alpha, beta) is None
                && !is_game_over_spec(*board) && depth > 0 && legal_moves_spec(
                board.player,
                board.opponent,
            ) != 0 ==> r >= alpha,
            forall|b: Board|
                #[trigger] final(self).tt_model().has_entry(b)
                    && !old(self).tt_model().has_entry(b) ==> b.wf(),
        decreases depth, (if legal_moves_spec(board.player, board.opponent) == 0 {
            1int
        } else {
            0int
        }),
    {
        if let Some(score) = self.tt_cutoff(board, depth, alpha, beta) {
            return score;
        }
        if board.is_game_over() {
            return match board.is_win() {
                Ok(true) => SCORE_MAX,
                Ok(false) => match board.is_lose() {
                    Ok(true) => SCORE_MIN,
                    _ => 0,
                },
                Err(_) => 0,
            };
        }
        if depth == 0 {
            return self.evaluator.evaluate(board);
        }
        match board.get_child_boards() {
            Some(children) => {
                let mut current_alpha = alpha;
                let mut idx: usize = 0;
                while idx < children.len()
                    invariant
                        self.wf(),
                        self.depth_limit() == old(self).depth_limit(),
                        self.eval_model() == old(self).eval_model(),
                        board.wf(),
                        depth >= 1,
                        i32::MIN + 1 <= alpha <= i32::MAX - 1,
                        i32::MIN + 2 <= beta <= i32::MAX,
                        idx <= children@.len(),
                        forall|k: int| 0 <= k < children@.len() ==> (#[trigger] children@[k]).wf(),
                        alpha <= current_alpha <= i32::MAX - 1,
                        idx > 0 ==> current_alpha >= i32::MIN + 2,
                        forall|b: Board|
                            #[trigger] self.tt_model().has_entry(b) && !old(
                                self,
                            ).tt_model().has_entry(b) ==> b.wf(),
                    decreases children@.len() - idx,
                {
                    let ghost pre = *self;
                    let child = children[idx];
                    let s = self.get_search_score_with_timeout(
                        &child,
                        depth - 1,
                        -beta,
                        -current_alpha,
                        time_keeper,
                    );
                    proof {
                        assert forall|b: Board|
                            #[trigger] self.tt_model().has_entry(b) && !old(
                                self,
                            ).tt_model().has_entry(b) implies b.wf() by {
                            if !pre.tt_model().has_entry(b) {
                            }
                        }
                    }
                    let score = -s;
                    if score > current_alpha {
                        current_alpha = score;
                    }
                    if current_alpha >= beta {
                        let ghost mid = *self;
                        self.tt.store(board, depth, current_alpha, EntryType::LowerBound);
                        proof {
                            assert forall|b: Board|
                                #[trigger] self.tt_model().has_entry(b) && !old(
                                    self,
                                ).tt_model().has_entry(b) implies b.wf() by {
                                if !mid.tt_model().has_entry(b) {
                                    assert(b == *board);
                                }
                            }
                        }
                        return current_alpha;
                    }
                    if time_keeper.is_timeout() {
                        return current_alpha;
                    }
                    idx = idx + 1;
                }
                let entry_type = if current_alpha == alpha {
                    EntryType::UpperBound
                } else {
                    EntryType::Exact
                };
                let ghost mid = *self;
                self.tt.store(board, depth, current_alpha, entry_type);
                proof {
                    assert forall|b: Board|
                        #[trigger] self.tt_model().has_entry(b) && !old(self).tt_model().has_entry(
                            b,
                        ) implies b.wf() by {
                        if !mid.tt_model().has_entry(b) {
                            assert(b == *board);
                        }
                    }
                }
                current_alpha
            },
            None => {
                let mut new_board = *board;
                match new_board.do_pass() {
                    Ok(_) => (),
                    Err(_) => (),
                }
                let ghost pre = *self;
                let s = self.get_search_score_with_timeout(
                    &new_board,
                    depth,
                    -beta,
                    -alpha,
                    time_keeper,
                );
                let score = -s;
                let entry_type = if score <= alpha {
                    EntryType::UpperBound
                } else if score >= beta {
                    EntryType::LowerBound
                } else {
                    EntryType::Exact
                };
                let ghost mid = *self;
                self.tt.store(board, depth, score, entry_type);
                proof {
                    assert forall|b: Board|
                        #[trigger] self.tt_model().has_entry(b) && !old(self).tt_model().has_entry(
                            b,
                        ) implies b.wf() by {
                        if !mid.tt_model().has_entry(b) {
                            assert(b == *board);
                        } else if !pre.tt_model().has_entry(b) {
                        }
                    }
                }
                score
            },
        }
    }

    /// One timed root search at the given depth. Returns a legal move, or
    /// nothing when there is no legal move or the deadline struck before
    /// the first child was finished; with a zero time limit it never
    /// returns a move.
    #[verifier::loop_isolation(false)]
    pub fn get_move_with_timeout(
        &mut self,
        board: &Board,
        depth: usize,
        time_keeper: &TimeKeeper,
    ) -> (r: Option<usize>)
        requires
            old(self).wf(),
            board.wf(),
        ensures
            final(self).wf(),
            final(self).depth_limit() == old(self).depth_limit(),
            final(self).eval_model() == old(self).eval_model(),
            r matches Some(m) ==> board.is_legal_move_spec(m as int) && legal_moves_spec(
                board.player,
                board.opponent,
            ) != 0,
            time_keeper.limit() == 0 ==> r is None,
    {
        let ghost lm = legal_moves_spec(board.player, board.opponent);
        let mut best_move: Option<usize> = None;
        let mut alpha: i32 = i32::MIN + 1;
        let beta: i32 = i32::MAX - 1;
        let moves = board.get_legal_moves_vec();
        proof {
            lemma_legal_positions_props(lm, 64);
        }
        let mut i: usize = 0;
        while i < moves.len()
            invariant
                self.wf(),
                self.depth_limit() == old(self).depth_limit(),
                self.eval_model() == old(self).eval_model(),
                board.wf(),
                moves@ == legal_positions(lm, 64),
                lm == legal_moves_spec(board.player, board.opponent),
                forall|k: int|
                    0 <= k < moves@.len() ==> (#[trigger] moves@[k] < 64 && bit_at(
                        lm,
                        moves@[k] as int,
                    )),
                i <= moves@.len(),
                i32::MIN + 1 <= alpha <= i32::MAX - 1,
                best_move is Some ==> alpha >= i32::MIN + 2,
                time_keeper.limit() == 0 ==> best_move is None,
                best_move matches Some(m) ==> board.is_legal_move_spec(m as int) && lm != 0,
            decreases moves@.len() - i,
        {
            let move_i = moves[i];
            let mut new_board = board.clone();
            new_board.do_move_unchecked(move_i);
            let s = self.get_search_score_with_timeout(&new_board, depth, -beta, -alpha,
                time_keeper);
            let score = -s;
            if time_keeper.is_timeout() {
                return best_move;
            }
            if score > alpha {
                proof {
                    crate::bits::lemma_bit_empty(move_i as int);
                }
                alpha = score;
                best_move = Some(move_i);
            }
            i = i + 1;
        }
        if best_move.is_some() {
            self.tt.store(board, depth, alpha, EntryType::Exact);
        }
        best_move
    }

    /// Iterative deepening under a wall-clock deadline: search depth 0,
    /// 1, 2, ... and keep the move of the last completed iteration; stop
    /// when the deadline strikes. Under a zero-duration deadline no move
    /// is returned. A search 64 plies deep already reaches every terminal
    /// position of an 8x8 game, so iteration stops there.
    #[verifier::loop_isolation(false)]
    pub fn get_move_with_iter_deepening(&mut self, board: Board, timeout_nanos: u64) -> (r: Option<
        usize,
    >)
        requires
            old(self).wf(),
            board.wf(),
        ensures
            final(self).wf(),
            final(self).depth_limit() == old(self).depth_limit(),
            final(self).eval_model() == old(self).eval_model(),
            r matches Some(m) ==> board.is_legal_move_spec(m as int),
            timeout_nanos == 0 ==> r is None,
            legal_moves_spec(board.player, board.opponent) == 0 ==> r is None,
    {
        let mut best_move: Option<usize> = None;
        let time_keeper = TimeKeeper::new(timeout_nanos);
        let mut depth: usize = 0;
        while depth <= 64
            invariant
                self.wf(),
                self.depth_limit() == old(self).depth_limit(),
                self.eval_model() == old(self).eval_model(),
                board.wf(),
                time_keeper.limit() == timeout_nanos,
                best_move matches Some(m) ==> board.is_legal_move_spec(m as int),
                timeout_nanos == 0 ==> best_move is None,
                legal_moves_spec(board.player, board.opponent) == 0 ==> best_move is None,
            decreases 65 - depth,
        {
            let move_i = self.get_move_with_timeout(&board, depth, &time_keeper);
            if time_keeper.is_timeout() {
                break;
            }
            if let Some(m) = move_i {
                best_move = Some(m);
            }
            depth = depth + 1;
        }
        best_move
    }
}

} // verus!
