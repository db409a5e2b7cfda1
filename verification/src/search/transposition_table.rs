//! A transposition table: a bounded map from positions to search results,
//! whose store policy always retains the more informative entry and which
//! opportunistically evicts positions from earlier game phases.

use vstd::prelude::*;
use crate::board::{Board, total_pieces};

verus! {

/// Classification of a stored score: the search exhausted its window, was
/// cut by beta, or failed low against alpha.
#[derive(Clone, Copy, PartialEq, Eq, Structural, Debug)]
pub enum EntryType {
    Exact,
    LowerBound,
    UpperBound,
}

/// Lowest score the search ever produces: the loss sentinel. Chosen so
/// that unary negation is always representable.
pub const SCORE_MIN: i32 = -2147483646;

/// Highest score the search ever produces: the win sentinel.
pub const SCORE_MAX: i32 = 2147483645;

/// Soft capacity bound of the table.
pub const TT_MAX_SIZE: usize = 60000;

/// One stored search result.
#[derive(Clone, Copy, PartialEq, Eq, Structural, Debug)]
pub struct TTEntry {
    pub depth: usize,
    pub score: i32,
    pub entry_type: EntryType,
}

impl TTEntry {
    /// The stored score.
    pub fn get_score(&self) -> (r: i32)
        ensures
            r == self.score,
    {
        self.score
    }

    /// The depth the score was computed at.
    pub fn get_depth(&self) -> (r: usize)
        ensures
            r == self.depth,
    {
        self.depth
    }

    /// The bound classification of the score.
    pub fn get_type(&self) -> (r: EntryType)
        ensures
            r == self.entry_type,
    {
        self.entry_type
    }
}

/// True when the store policy keeps the already-stored entry against the
/// incoming one: a strictly deeper entry always stays; at equal depth an
/// exact entry stays, a larger lower bound stays, and a smaller upper
/// bound stays.
pub open spec fn keeps_old(old_e: TTEntry, new_e: TTEntry) -> bool {
    ||| old_e.depth > new_e.depth
    ||| (old_e.depth == new_e.depth && match (old_e.entry_type, new_e.entry_type) {
        (EntryType::Exact, _) => true,
        (_, EntryType::Exact) => false,
        (EntryType::LowerBound, EntryType::LowerBound) => old_e.score >= new_e.score,
        (EntryType::UpperBound, EntryType::UpperBound) => old_e.score <= new_e.score,
        _ => false,
    })
}

/// The entry retained by a store, given the previous entry if any.
pub open spec fn stored_entry(prev: Option<TTEntry>, cand: TTEntry) -> TTEntry {
    match prev {
        Some(e) => if keeps_old(e, cand) {
            e
        } else {
            cand
        },
        None => cand,
    }
}

/// The store-policy preorder: `a` is at least as informative as `b` when
/// it is strictly deeper, or equally deep and exact, or equally deep with
/// the same bound type and a bound at least as tight. Entries of equal
/// depth with mixed non-exact bound types carry incomparable information
/// and either may stand for the other.
pub open spec fn entry_geq(a: TTEntry, b: TTEntry) -> bool {
    ||| a.depth > b.depth
    ||| (a.depth == b.depth && match (a.entry_type, b.entry_type) {
        (EntryType::Exact, _) => true,
        (_, EntryType::Exact) => false,
        (EntryType::LowerBound, EntryType::LowerBound) => a.score >= b.score,
        (EntryType::UpperBound, EntryType::UpperBound) => a.score <= b.score,
        _ => true,
    })
}

/// After any store, the retained entry is maximal under the store-policy
/// preorder: it dominates both the incoming entry and whatever the table
/// held before for the same key. Together with the ensures of `store`,
/// which pins the retained entry of every key, this extends inductively
/// over any sequence of stores.
pub proof fn lemma_store_policy_maximal(prev: Option<TTEntry>, cand: TTEntry)
    ensures
        entry_geq(stored_entry(prev, cand), cand),
        match prev {
            Some(e) => entry_geq(stored_entry(prev, cand), e),
            None => true,
        },
{
}

/// True when the key position `key` belongs to a game phase that the
/// search rooted at `cur` with the given remaining depth can no longer
/// reach.
pub open spec fn phase_evicted(key: Board, cur: Board, depth: nat) -> bool {
    total_pieces(key) + depth < total_pieces(cur)
}

/// The entries of `m` that survive an eviction pass rooted at `cur`.
pub open spec fn filter_kept(m: Seq<(Board, TTEntry)>, cur: Board, depth: nat) -> Seq<
    (Board, TTEntry),
>
    decreases m.len(),
{
    if m.len() == 0 {
        Seq::empty()
    } else {
        let r = filter_kept(m.drop_last(), cur, depth);
        if !phase_evicted(m.last().0, cur, depth) {
            r.push(m.last())
        } else {
            r
        }
    }
}

/// The surviving entries are exactly the non-evicted entries of the
/// input, with unique keys kept unique.
proof fn lemma_filter_kept_props(m: Seq<(Board, TTEntry)>, cur: Board, depth: nat)
    requires
        forall|i: int, j: int| 0 <= i < j < m.len() ==> (#[trigger] m[i]).0 != (#[trigger] m[j]).0,
    ensures
        filter_kept(m, cur, depth).len() <= m.len(),
        forall|k: int|
            0 <= k < filter_kept(m, cur, depth).len() ==> exists|j: int|
                0 <= j < m.len() && #[trigger] filter_kept(m, cur, depth)[k] == m[j],
        forall|j: int|
            0 <= j < m.len() && !phase_evicted((#[trigger] m[j]).0, cur, depth) ==> exists|k: int|
                0 <= k < filter_kept(m, cur, depth).len() && #[trigger] filter_kept(
                    m,
                    cur,
                    depth,
                )[k] == m[j],
        forall|k: int|
            0 <= k < filter_kept(m, cur, depth).len() ==> !phase_evicted(
                (#[trigger] filter_kept(m, cur, depth)[k]).0,
                cur,
                depth,
            ),
        forall|k1: int, k2: int|
            0 <= k1 < k2 < filter_kept(m, cur, depth).len() ==> (#[trigger] filter_kept(
                m,
                cur,
                depth,
            )[k1]).0 != (#[trigger] filter_kept(m, cur, depth)[k2]).0,
    decreases m.len(),
{
    if m.len() > 0 {
        let m0 = m.drop_last();
        lemma_filter_kept_props(m0, cur, depth);
        let f0 = filter_kept(m0, cur, depth);
        let f = filter_kept(m, cur, depth);
        assert forall|j: int|
            0 <= j < m.len() && !phase_evicted((#[trigger] m[j]).0, cur, depth) implies exists|
        k: int| 0 <= k < f.len() && #[trigger] f[k] == m[j] by {
            if j < m.len() - 1 {
                assert(m0[j] == m[j]);
                let k = choose|k: int| 0 <= k < f0.len() && #[trigger] f0[k] == m0[j];
                assert(f[k] == m[j]);
            } else {
                assert(f[f.len() - 1] == m[j]);
            }
        }
        if !phase_evicted(m.last().0, cur, depth) {
            assert forall|k1: int, k2: int|
                0 <= k1 < k2 < f.len() implies (#[trigger] f[k1]).0 != (#[trigger] f[k2]).0 by {
                if k2 == f.len() - 1 {
                    let j1 = choose|j: int| 0 <= j < m0.len() && #[trigger] f0[k1] == m0[j];
                    assert(m[j1].0 != m[m.len() - 1].0);
                }
            }
        }
    }
}

/// A bounded map from `Board` to `TTEntry`, keyed structurally.
pub struct TranspositionTable {
    entries: Vec<(Board, TTEntry)>,
    max_size: usize,
}

impl TranspositionTable {
    /// The stored associations, in insertion order.
    pub closed spec fn model(self) -> Seq<(Board, TTEntry)> {
        self.entries@
    }

    /// The capacity bound the table was built with.
    pub closed spec fn capacity(self) -> usize {
        self.max_size
    }

    /// Keys are unique, every stored score is a valid search score, and
    /// the capacity bound is the standard one.
    pub open spec fn wf(self) -> bool {
        &&& self.capacity() == TT_MAX_SIZE
        &&& forall|i: int, j: int|
            0 <= i < j < self.model().len() ==> (#[trigger] self.model()[i]).0 != (
            #[trigger] self.model()[j]).0
        &&& forall|i: int|
            0 <= i < self.model().len() ==> SCORE_MIN <= (#[trigger] self.model()[i]).1.score
                <= SCORE_MAX + 1
    }

    /// True when the table holds an entry for `b`.
    pub open spec fn has_entry(self, b: Board) -> bool {
        exists|i: int| 0 <= i < self.model().len() && (#[trigger] self.model()[i]).0 == b
    }

    /// The entry stored for `b`.
    pub open spec fn entry_for(self, b: Board) -> TTEntry {
        let i = choose|i: int| 0 <= i < self.model().len() && (#[trigger] self.model()[i]).0 == b;
        self.model()[i].1
    }

    /// The entry stored for `b`, if any.
    pub open spec fn entry_opt(self, b: Board) -> Option<TTEntry> {
        if self.has_entry(b) {
            Some(self.entry_for(b))
        } else {
            None
        }
    }

    /// With unique keys, the entry at index `i` is the entry of its key.
    proof fn lemma_entry_at(self, i: int)
        requires
            self.wf(),
            0 <= i < self.model().len(),
        ensures
            self.has_entry(self.model()[i].0),
            self.entry_for(self.model()[i].0) == self.model()[i].1,
    {
        let b = self.model()[i].0;
        assert(self.has_entry(b));
        let k = choose|k: int| 0 <= k < self.model().len() && (#[trigger] self.model()[k]).0 == b;
        if k < i {
            assert(self.model()[k].0 != self.model()[i].0);
        } else if i < k {
            assert(self.model()[i].0 != self.model()[k].0);
        }
    }

    /// An empty table with the standard capacity bound.
    pub fn new() -> (r: TranspositionTable)
        ensures
            r.wf(),
            r.model().len() == 0,
            forall|b: Board| !r.has_entry(b),
    {
        TranspositionTable { entries: Vec::new(), max_size: TT_MAX_SIZE }
    }

    /// Drop every entry.
    pub fn clear(&mut self)
        requires
            old(self).wf(),
        ensures
            final(self).wf(),
            final(self).model().len() == 0,
            forall|b: Board| !final(self).has_entry(b),
    {
        self.entries.clear();
    }

    /// Number of stored entries.
    pub fn len(&self) -> (r: usize)
        ensures
            r == self.model().len(),
    {
        self.entries.len()
    }

    /// True when no entry is stored.
    pub fn is_empty(&self) -> (r: bool)
        ensures
            r == (self.model().len() == 0),
    {
        self.entries.len() == 0
    }

    /// The index holding `board`, if any.
    fn find_index(&self, board: &Board) -> (r: Option<usize>)
        ensures
            match r {
                Some(i) => i < self.model().len() && self.model()[i as int].0 == *board,
                None => !self.has_entry(*board),
            },
    {
        let mut i: usize = 0;
        while i < self.entries.len()
            invariant
                i <= self.model().len(),
                forall|k: int| 0 <= k < i ==> (#[trigger] self.model()[k]).0 != *board,
            decreases self.model().len() - i,
        {
            if self.entries[i].0 == *board {
                return Some(i);
            }
            i = i + 1;
        }
        None
    }

    /// The stored entry for `board`, or nothing.
    pub fn lookup(&self, board: &Board) -> (r: Option<TTEntry>)
        requires
            self.wf(),
        ensures
            r == self.entry_opt(*board),
            match r {
                Some(e) => self.has_entry(*board) && e == self.entry_for(*board) && SCORE_MIN
                    <= e.score <= SCORE_MAX + 1,
                None => !self.has_entry(*board),
            },
    {
        match self.find_index(board) {
            Some(i) => {
                proof {
                    self.lemma_entry_at(i as int);
                }
                Some(self.entries[i].1)
            },
            None => None,
        }
    }

    /// Drop every entry whose position belongs to a game phase that the
    /// search rooted at `board` with `depth` plies to go can no longer
    /// reach.
    #[verifier::rlimit(100)]
    fn cleanup_early_entries(&mut self, board: &Board, depth: usize)
        requires
            old(self).wf(),
        ensures
            final(self).wf(),
            final(self).model().len() <= old(self).model().len(),
            forall|b: Board|
                #[trigger] final(self).has_entry(b) <==> (old(self).has_entry(b)
                    && !phase_evicted(b, *board, depth as nat)),
            forall|b: Board|
                #[trigger] final(self).has_entry(b) ==> final(self).entry_for(b) == old(
                    self,
                ).entry_for(b),
    {
        let ghost oldm = self.model();
        let my_sum = board.piece_sum();
        let mut kept: Vec<(Board, TTEntry)> = Vec::new();
        let mut i: usize = 0;
        while i < self.entries.len()
            invariant
                self.wf(),
                self == old(self),
                i <= self.model().len(),
                oldm == self.model(),
                my_sum == total_pieces(*board),
                0 <= my_sum <= 128,
                kept@ == filter_kept(oldm.take(i as int), *board, depth as nat),
            decreases self.model().len() - i,
        {
            let key_sum = self.entries[i].0.piece_sum();
            let keep = if depth >= 128 {
                true
            } else {
                key_sum + (depth as i32) >= my_sum
            };
            proof {
                assert(keep == !phase_evicted(oldm[i as int].0, *board, depth as nat));
                assert(oldm.take(i + 1).drop_last() =~= oldm.take(i as int));
                assert(oldm.take(i + 1).last() == oldm[i as int]);
            }
            if keep {
                let e = self.entries[i];
                kept.push(e);
            }
            i = i + 1;
        }
        proof {
            assert(oldm.take(oldm.len() as int) =~= oldm);
            lemma_filter_kept_props(oldm, *board, depth as nat);
        }
        self.entries = kept;
        proof {
            let f = self.model();
            assert forall|k: int|
                0 <= k < f.len() implies SCORE_MIN <= (#[trigger] f[k]).1.score <= SCORE_MAX
                + 1 by {
                let j = choose|j: int| 0 <= j < oldm.len() && #[trigger] f[k] == oldm[j];
            }
            assert forall|b: Board| #[trigger] self.has_entry(b) implies (old(self).has_entry(b)
                && !phase_evicted(b, *board, depth as nat)) by {
                let k = choose|k: int| 0 <= k < f.len() && (#[trigger] f[k]).0 == b;
                let j = choose|j: int| 0 <= j < oldm.len() && #[trigger] f[k] == oldm[j];
                assert(oldm[j].0 == b);
            }
            assert forall|b: Board|
                old(self).has_entry(b) && !phase_evicted(b, *board, depth as nat)
                implies #[trigger] self.has_entry(b) by {
                let j = choose|j: int| 0 <= j < oldm.len() && (#[trigger] oldm[j]).0 == b;
                let k = choose|k: int| 0 <= k < f.len() && #[trigger] f[k] == oldm[j];
                assert(f[k].0 == b);
            }
            assert forall|b: Board| #[trigger] self.has_entry(b) implies self.entry_for(b)
                == old(self).entry_for(b) by {
                let k = choose|k: int| 0 <= k < f.len() && (#[trigger] f[k]).0 == b;
                let j = choose|j: int| 0 <= j < oldm.len() && #[trigger] f[k] == oldm[j];
                old(self).lemma_entry_at(j);
                self.lemma_entry_at(k);
            }
        }
    }

    /// Insert or overwrite according to the store policy, with no
    /// eviction.
    fn store_entry(&mut self, board: &Board, cand: TTEntry)
        requires
            old(self).wf(),
            SCORE_MIN <= cand.score <= SCORE_MAX + 1,
        ensures
            final(self).wf(),
            final(self).has_entry(*board),
            final(self).entry_for(*board) == stored_entry(old(self).entry_opt(*board), cand),
            forall|b: Board|
                b != *board ==> (#[trigger] final(self).has_entry(b) <==> old(self).has_entry(b)),
            forall|b: Board|
                b != *board && #[trigger] final(self).has_entry(b) ==> final(self).entry_for(b)
                    == old(self).entry_for(b),
            final(self).model().len() <= old(self).model().len() + 1,
    {
        match self.find_index(board) {
            Some(i) => {
                proof {
                    self.lemma_entry_at(i as int);
                }
                let old_e = self.entries[i].1;
                let keep = match (old_e.entry_type, cand.entry_type) {
                    (EntryType::Exact, _) => old_e.depth >= cand.depth,
                    (_, EntryType::Exact) => old_e.depth > cand.depth,
                    (EntryType::LowerBound, EntryType::LowerBound) => old_e.depth > cand.depth
                        || (old_e.depth == cand.depth && old_e.score >= cand.score),
                    (EntryType::UpperBound, EntryType::UpperBound) => old_e.depth > cand.depth
                        || (old_e.depth == cand.depth && old_e.score <= cand.score),
                    _ => old_e.depth > cand.depth,
                };
                proof {
                    assert(keep == keeps_old(old_e, cand));
                }
                if !keep {
                    let key = self.entries[i].0;
                    self.entries.set(i, (key, cand));
                    proof {
                        let m0 = old(self).model();
                        assert forall|k1: int, k2: int|
                            0 <= k1 < k2 < self.model().len() implies (
                        #[trigger] self.model()[k1]).0 != (#[trigger] self.model()[k2]).0 by {
                            assert(m0[k1].0 != m0[k2].0);
                        }
                        self.lemma_entry_at(i as int);
                        assert forall|b: Board| b != *board && #[trigger] self.has_entry(b)
                            implies self.entry_for(b) == old(self).entry_for(b) by {
                            let k = choose|k: int|
                                0 <= k < self.model().len() && (#[trigger] self.model()[k]).0
                                    == b;
                            old(self).lemma_entry_at(k);
                            self.lemma_entry_at(k);
                        }
                        assert forall|b: Board| b != *board && old(self).has_entry(b)
                            implies #[trigger] self.has_entry(b) by {
                            let k = choose|k: int|
                                0 <= k < m0.len() && (#[trigger] m0[k]).0 == b;
                            assert(self.model()[k].0 == b);
                        }
                    }
                }
            },
            None => {
                let key = *board;
                self.entries.push((key, cand));
                proof {
                    let m0 = old(self).model();
                    let n = self.model().len() - 1;
                    assert forall|k1: int, k2: int|
                        0 <= k1 < k2 < self.model().len() implies (#[trigger] self.model()[k1]).0
                        != (#[trigger] self.model()[k2]).0 by {
                        if k2 == n {
                            assert(self.model()[k1] == m0[k1]);
                            assert(m0[k1].0 != *board);
                        } else {
                            assert(m0[k1].0 != m0[k2].0);
                        }
                    }
                    self.lemma_entry_at(n);
                    assert forall|b: Board| b != *board && #[trigger] self.has_entry(b)
                        implies old(self).has_entry(b) && self.entry_for(b) == old(
                        self,
                    ).entry_for(b) by {
                        let k = choose|k: int|
                            0 <= k < self.model().len() && (#[trigger] self.model()[k]).0 == b;
                        assert(k < n);
                        assert(m0[k].0 == b);
                        old(self).lemma_entry_at(k);
                        self.lemma_entry_at(k);
                    }
                    assert forall|b: Board| b != *board && old(self).has_entry(b)
                        implies #[trigger] self.has_entry(b) by {
                        let k = choose|k: int| 0 <= k < m0.len() && (#[trigger] m0[k]).0 == b;
                        assert(self.model()[k].0 == b);
                    }
                }
            },
        }
    }

    /// Store a search result for `board`. When the table is at capacity an
    /// eviction pass first drops positions from unreachable earlier game
    /// phases; then the incoming entry replaces the previous one exactly
    /// when the store policy does not keep the old entry.
    pub fn store(&mut self, board: &Board, depth: usize, score: i32, entry_type: EntryType)
        requires
            old(self).wf(),
            SCORE_MIN <= score <= SCORE_MAX + 1,
        ensures
            final(self).wf(),
            final(self).has_entry(*board),
            final(self).entry_for(*board) == stored_entry(
                old(self).entry_opt(*board),
                TTEntry { depth, score, entry_type },
            ),
            forall|b: Board|
                b != *board ==> (#[trigger] final(self).has_entry(b) <==> (old(self).has_entry(b)
                    && !(old(self).model().len() >= TT_MAX_SIZE && phase_evicted(
                    b,
                    *board,
                    depth as nat,
                )))),
            forall|b: Board|
                b != *board && #[trigger] final(self).has_entry(b) ==> final(self).entry_for(b)
                    == old(self).entry_for(b),
    {
        let cand = TTEntry { depth, score, entry_type };
        proof {
            assert(self.capacity() == TT_MAX_SIZE);
        }
        if self.entries.len() >= self.max_size {
            self.cleanup_early_entries(board, depth);
            proof {
                assert(!phase_evicted(*board, *board, depth as nat));
            }
        }
        self.store_entry(board, cand);
    }
}

} // verus!
