//! The bitboard kernel: an 8x8 Reversi position with branch-free,
//! direction-parallel move generation and move application.
//!
//! A `Board` holds two bitboards, `player` for the side named by `turn`
//! and `opponent` for the other side, plus the `turn` tag itself. Square
//! `i` (0 = top-left, 63 = bottom-right) is carried by bit `63 - i`.

use vstd::prelude::*;
use vstd::string::StrSliceExecFns;
use crate::strutil::push_char;
use crate::bits::{
    bit_at, get_bit, lemma_poprec_or, lemma_poprec_single, lemma_poprec_xor_subset, pop64,
    popcount, pos2bit, pos2bit_spec,
};

verus! {

/// The side to move.
#[derive(Clone, Copy, PartialEq, Eq, Structural, Debug, Hash)]
pub enum Turn {
    Black,
    White,
}

/// The contents of one square, for external projections of the position.
#[derive(Clone, Copy, PartialEq, Eq, Structural, Debug, Hash)]
pub enum Color {
    Empty,
    Black,
    White,
}

/// How a board operation can be refused.
#[derive(Clone, Copy, PartialEq, Eq, Structural, Debug)]
pub enum BoardError {
    /// A board string holds a character other than `X`, `O` or `-`.
    InvalidCharacter,
    /// A board string does not hold exactly 64 characters.
    InvalidLength,
    /// The named square is not a legal move for the side to move.
    InvalidMove,
    /// A pass was requested although a legal move exists.
    InvalidPass,
    /// A verdict was requested before the game was over.
    GameNotOver,
}

/// Guard against wrap-around for horizontal steps: both edge files excluded.
pub const MASK_H: u64 = 0x7E7E7E7E7E7E7E7E;

/// Guard for vertical steps: both edge ranks excluded.
pub const MASK_V: u64 = 0x00FFFFFFFFFFFF00;

/// Guard for diagonal steps: edge files and edge ranks excluded.
pub const MASK_D: u64 = 0x007E7E7E7E7E7E00;

/// `player` bitboard of the initial position (the side to move, Black).
pub const INITIAL_PLAYER: u64 = 0x0000000810000000;

/// `opponent` bitboard of the initial position (White).
pub const INITIAL_OPPONENT: u64 = 0x0000001008000000;

/// One step of a bitboard toward a direction: left shifts move stones
/// toward lower square indices, right shifts toward higher ones.
pub open spec fn shift_dir(x: u64, s: u64, left: bool) -> u64 {
    if left {
        x << s
    } else {
        x >> s
    }
}

/// Starting from `x` shifted one step, accumulate runs of `mo` stones in
/// the given direction for five further steps: the longest capturable run
/// on an 8x8 board is six stones.
pub open spec fn flood6(x: u64, mo: u64, s: u64, left: bool) -> u64 {
    let t1 = mo & shift_dir(x, s, left);
    let t2 = t1 | (mo & shift_dir(t1, s, left));
    let t3 = t2 | (mo & shift_dir(t2, s, left));
    let t4 = t3 | (mo & shift_dir(t3, s, left));
    let t5 = t4 | (mo & shift_dir(t4, s, left));
    let t6 = t5 | (mo & shift_dir(t5, s, left));
    t6
}

/// Squares reached one step beyond a run of opponent stones that starts
/// next to a player stone, for one direction.
pub open spec fn legal_dir(p: u64, o: u64, mask: u64, s: u64, left: bool) -> u64 {
    shift_dir(flood6(p, o & mask, s, left), s, left)
}

/// The union of the eight directional scans, before intersecting with the
/// empty squares.
pub open spec fn legal_union(p: u64, o: u64) -> u64 {
    legal_dir(p, o, MASK_H, 1, true) | legal_dir(p, o, MASK_H, 1, false) | legal_dir(
        p,
        o,
        MASK_V,
        8,
        true,
    ) | legal_dir(p, o, MASK_V, 8, false) | legal_dir(p, o, MASK_D, 9, true) | legal_dir(
        p,
        o,
        MASK_D,
        9,
        false,
    ) | legal_dir(p, o, MASK_D, 7, true) | legal_dir(p, o, MASK_D, 7, false)
}

/// Bitmask of the legal destination squares for the side holding `p`.
pub open spec fn legal_moves_spec(p: u64, o: u64) -> u64 {
    legal_union(p, o) & !(p | o)
}

/// The opponent stones flipped by playing on `mv` (a single-bit mask),
/// for one direction: the run of opponent stones adjacent to `mv` counts
/// exactly when the square beyond it holds a player stone.
pub open spec fn flip_dir(p: u64, o: u64, mv: u64, mask: u64, s: u64, left: bool) -> u64 {
    let t = flood6(mv, o & mask, s, left);
    if shift_dir(t, s, left) & p != 0 {
        t
    } else {
        0
    }
}

/// All opponent stones flipped by playing on `mv`.
pub open spec fn flip_spec(p: u64, o: u64, mv: u64) -> u64 {
    flip_dir(p, o, mv, MASK_H, 1, true) | flip_dir(p, o, mv, MASK_H, 1, false) | flip_dir(
        p,
        o,
        mv,
        MASK_V,
        8,
        true,
    ) | flip_dir(p, o, mv, MASK_V, 8, false) | flip_dir(p, o, mv, MASK_D, 9, true) | flip_dir(
        p,
        o,
        mv,
        MASK_D,
        9,
        false,
    ) | flip_dir(p, o, mv, MASK_D, 7, true) | flip_dir(p, o, mv, MASK_D, 7, false)
}

/// The other side.
pub open spec fn opposite_spec(t: Turn) -> Turn {
    match t {
        Turn::Black => Turn::White,
        Turn::White => Turn::Black,
    }
}

/// An 8x8 Reversi position. `player` holds the stones of the side named
/// by `turn`, `opponent` the stones of the other side.
#[derive(Clone, Copy, PartialEq, Eq, Structural, Debug, Hash)]
pub struct Board {
    pub player: u64,
    pub opponent: u64,
    pub turn: Turn,
}

/// The initial position: Black to move on the standard four-stone centre.
pub open spec fn initial_board() -> Board {
    Board { player: INITIAL_PLAYER, opponent: INITIAL_OPPONENT, turn: Turn::Black }
}

/// The position reached by playing square `pos`: the flipped run and the
/// new stone join the mover's stones, then the sides swap and the turn
/// toggles.
pub open spec fn do_move_spec(b: Board, pos: int) -> Board {
    let mv = pos2bit_spec(pos);
    let f = flip_spec(b.player, b.opponent, mv);
    Board {
        player: b.opponent ^ f,
        opponent: b.player ^ (f | mv),
        turn: opposite_spec(b.turn),
    }
}

/// The position reached by passing: sides swap, turn toggles, no stone moves.
pub open spec fn do_pass_spec(b: Board) -> Board {
    Board { player: b.opponent, opponent: b.player, turn: opposite_spec(b.turn) }
}

/// The game is over when neither side has a legal move.
pub open spec fn is_game_over_spec(b: Board) -> bool {
    legal_moves_spec(b.player, b.opponent) == 0 && legal_moves_spec(b.opponent, b.player) == 0
}

/// Total number of stones on the board.
pub open spec fn total_pieces(b: Board) -> nat {
    pop64(b.player) + pop64(b.opponent)
}

impl Board {
    /// No square holds two stones.
    pub open spec fn wf(self) -> bool {
        self.player & self.opponent == 0
    }

    /// The bitboard of Black's stones.
    pub open spec fn blacks(self) -> u64 {
        if self.turn == Turn::Black {
            self.player
        } else {
            self.opponent
        }
    }

    /// The bitboard of White's stones.
    pub open spec fn whites(self) -> u64 {
        if self.turn == Turn::White {
            self.player
        } else {
            self.opponent
        }
    }
}

/// Anything masked by the complement of `y` is disjoint from `y`.
proof fn lemma_and_not(x: u64, y: u64)
    by (bit_vector)
    ensures
        (x & !y) & y == 0,
{
}

/// A single bit contained in a set disjoint from `y` is itself disjoint
/// from `y`.
proof fn lemma_single_bit_in(l: u64, y: u64, j: u64)
    by (bit_vector)
    requires
        l & y == 0,
        j < 64,
        l & (1u64 << j) != 0,
    ensures
        (1u64 << j) & y == 0,
{
}

/// Each directional flip is a set of opponent stones.
#[verifier::rlimit(100)]
proof fn lemma_flip_dir_subset(p: u64, o: u64, mv: u64, mask: u64, s: u64, left: bool)
    by (bit_vector)
    requires
        s < 64,
    ensures
        flip_dir(p, o, mv, mask, s, left) & !o == 0,
{
}

/// The union of two sets without stones outside `o` has none either, and
/// a set without stones outside `o` is a set of opponent stones.
proof fn lemma_or_subset(a: u64, b: u64, o: u64)
    by (bit_vector)
    requires
        a & !o == 0,
        b & !o == 0,
    ensures
        (a | b) & !o == 0,
        (a | b) & o == (a | b),
{
}

/// The whole flipped set is a set of opponent stones.
proof fn lemma_flip_subset(p: u64, o: u64, mv: u64)
    ensures
        flip_spec(p, o, mv) & o == flip_spec(p, o, mv),
{
    let f1 = flip_dir(p, o, mv, MASK_H, 1, true);
    let f2 = flip_dir(p, o, mv, MASK_H, 1, false);
    let f3 = flip_dir(p, o, mv, MASK_V, 8, true);
    let f4 = flip_dir(p, o, mv, MASK_V, 8, false);
    let f5 = flip_dir(p, o, mv, MASK_D, 9, true);
    let f6 = flip_dir(p, o, mv, MASK_D, 9, false);
    let f7 = flip_dir(p, o, mv, MASK_D, 7, true);
    let f8 = flip_dir(p, o, mv, MASK_D, 7, false);
    lemma_flip_dir_subset(p, o, mv, MASK_H, 1, true);
    lemma_flip_dir_subset(p, o, mv, MASK_H, 1, false);
    lemma_flip_dir_subset(p, o, mv, MASK_V, 8, true);
    lemma_flip_dir_subset(p, o, mv, MASK_V, 8, false);
    lemma_flip_dir_subset(p, o, mv, MASK_D, 9, true);
    lemma_flip_dir_subset(p, o, mv, MASK_D, 9, false);
    lemma_flip_dir_subset(p, o, mv, MASK_D, 7, true);
    lemma_flip_dir_subset(p, o, mv, MASK_D, 7, false);
    lemma_or_subset(f1, f2, o);
    lemma_or_subset(f1 | f2, f3, o);
    lemma_or_subset(f1 | f2 | f3, f4, o);
    lemma_or_subset(f1 | f2 | f3 | f4, f5, o);
    lemma_or_subset(f1 | f2 | f3 | f4 | f5, f6, o);
    lemma_or_subset(f1 | f2 | f3 | f4 | f5 | f6, f7, o);
    lemma_or_subset(f1 | f2 | f3 | f4 | f5 | f6 | f7, f8, o);
}

/// Legal destinations are empty squares.
pub proof fn lemma_legal_empty(p: u64, o: u64)
    ensures
        legal_moves_spec(p, o) & (p | o) == 0,
{
    lemma_and_not(legal_union(p, o), p | o);
}

/// Combined bitwise facts about one applied move: the sides stay disjoint
/// and every xor below acts as a disjoint union or a subset removal.
proof fn lemma_move_bit_facts(p: u64, o: u64, f: u64, mv: u64)
    by (bit_vector)
    requires
        p & o == 0,
        f & o == f,
        mv & (p | o) == 0,
    ensures
        (o ^ f) & (p ^ (f | mv)) == 0,
        p & (f | mv) == 0,
        f & mv == 0,
        p ^ (f | mv) == p | (f | mv),
        f & (o ^ f) == 0,
{
}

/// Playing a legal move keeps the two sides disjoint and puts exactly one
/// more stone on the board: the flipped stones only change hands.
pub proof fn lemma_do_move_preserves(b: Board, pos: int)
    requires
        b.wf(),
        0 <= pos < 64,
        bit_at(legal_moves_spec(b.player, b.opponent), pos),
    ensures
        do_move_spec(b, pos).wf(),
        total_pieces(do_move_spec(b, pos)) == total_pieces(b) + 1,
{
    let p = b.player;
    let o = b.opponent;
    let mv = pos2bit_spec(pos);
    let f = flip_spec(p, o, mv);
    let l = legal_moves_spec(p, o);
    lemma_legal_empty(p, o);
    lemma_single_bit_in(l, p | o, (63 - pos) as u64);
    lemma_flip_subset(p, o, mv);
    lemma_move_bit_facts(p, o, f, mv);
    // the mover gains the flipped run and the new stone
    lemma_poprec_or(p, f | mv, 64);
    lemma_poprec_or(f, mv, 64);
    lemma_poprec_single((63 - pos) as u64, 64);
    // the opponent loses exactly the flipped run
    assert(f & o == f);
    lemma_poprec_xor_subset(o, f, 64);
}

/// Passing keeps the position well formed and the stone count unchanged.
pub proof fn lemma_do_pass_preserves(b: Board)
    requires
        b.wf(),
    ensures
        do_pass_spec(b).wf(),
        total_pieces(do_pass_spec(b)) == total_pieces(b),
{
    let p = b.player;
    let o = b.opponent;
    assert(o & p == 0) by (bit_vector)
        requires
            p & o == 0,
    ;
}

/// One step of a bitboard toward a direction.
fn shift_dir_exec(x: u64, s: u64, left: bool) -> (r: u64)
    requires
        s < 64,
    ensures
        r == shift_dir(x, s, left),
{
    if left {
        x << s
    } else {
        x >> s
    }
}

/// Accumulate runs of `mo` stones reachable from `x` in one direction.
fn flood6_exec(x: u64, mo: u64, s: u64, left: bool) -> (r: u64)
    requires
        s < 64,
    ensures
        r == flood6(x, mo, s, left),
{
    let t1 = mo & shift_dir_exec(x, s, left);
    let t2 = t1 | (mo & shift_dir_exec(t1, s, left));
    let t3 = t2 | (mo & shift_dir_exec(t2, s, left));
    let t4 = t3 | (mo & shift_dir_exec(t3, s, left));
    let t5 = t4 | (mo & shift_dir_exec(t4, s, left));
    let t6 = t5 | (mo & shift_dir_exec(t5, s, left));
    t6
}

/// Directional scan for legal destinations.
fn legal_dir_exec(p: u64, o: u64, mask: u64, s: u64, left: bool) -> (r: u64)
    requires
        s < 64,
    ensures
        r == legal_dir(p, o, mask, s, left),
{
    shift_dir_exec(flood6_exec(p, o & mask, s, left), s, left)
}

/// Directional flipped run for a move on `mv`.
fn flip_dir_exec(p: u64, o: u64, mv: u64, mask: u64, s: u64, left: bool) -> (r: u64)
    requires
        s < 64,
    ensures
        r == flip_dir(p, o, mv, mask, s, left),
{
    let t = flood6_exec(mv, o & mask, s, left);
    if shift_dir_exec(t, s, left) & p != 0 {
        t
    } else {
        0
    }
}

impl Board {
    /// The initial position.
    pub fn new() -> (b: Board)
        ensures
            b == initial_board(),
            b.wf(),
    {
        proof {
            assert(INITIAL_PLAYER & INITIAL_OPPONENT == 0) by (bit_vector);
        }
        Board { player: INITIAL_PLAYER, opponent: INITIAL_OPPONENT, turn: Turn::Black }
    }

    /// Load a raw position. The caller answers for the no-overlap invariant.
    pub fn set_board(&mut self, player: u64, opponent: u64, turn: Turn)
        requires
            player & opponent == 0,
        ensures
            *final(self) == (Board { player, opponent, turn }),
            final(self).wf(),
    {
        self.player = player;
        self.opponent = opponent;
        self.turn = turn;
    }

    /// The raw position: the mover's stones, the other side's stones, and
    /// whose turn it is.
    pub fn get_board(&self) -> (r: (u64, u64, Turn))
        ensures
            r == (self.player, self.opponent, self.turn),
    {
        (self.player, self.opponent, self.turn)
    }

    /// Bitmask of the legal destination squares for the side to move.
    pub fn get_legal_moves(&self) -> (r: u64)
        ensures
            r == legal_moves_spec(self.player, self.opponent),
    {
        let p = self.player;
        let o = self.opponent;
        let u = legal_dir_exec(p, o, MASK_H, 1, true) | legal_dir_exec(p, o, MASK_H, 1, false)
            | legal_dir_exec(p, o, MASK_V, 8, true) | legal_dir_exec(p, o, MASK_V, 8, false)
            | legal_dir_exec(p, o, MASK_D, 9, true) | legal_dir_exec(p, o, MASK_D, 9, false)
            | legal_dir_exec(p, o, MASK_D, 7, true) | legal_dir_exec(p, o, MASK_D, 7, false);
        u & !(p | o)
    }

    /// True when playing `pos` is legal for the side to move.
    pub fn is_legal_move(&self, pos: usize) -> (r: bool)
        ensures
            r == (pos < 64 && bit_at(legal_moves_spec(self.player, self.opponent), pos as int)),
    {
        if pos >= 64 {
            return false;
        }
        get_bit(self.get_legal_moves(), pos)
    }

    /// Apply a move already known to be legal.
    pub fn do_move_unchecked(&mut self, pos: usize)
        requires
            old(self).wf(),
            pos < 64,
            bit_at(legal_moves_spec(old(self).player, old(self).opponent), pos as int),
        ensures
            *final(self) == do_move_spec(*old(self), pos as int),
            final(self).wf(),
            total_pieces(*final(self)) == total_pieces(*old(self)) + 1,
    {
        proof {
            lemma_do_move_preserves(*self, pos as int);
        }
        let p = self.player;
        let o = self.opponent;
        let mv = pos2bit(pos);
        let f = flip_dir_exec(p, o, mv, MASK_H, 1, true) | flip_dir_exec(p, o, mv, MASK_H, 1, false)
            | flip_dir_exec(p, o, mv, MASK_V, 8, true) | flip_dir_exec(p, o, mv, MASK_V, 8, false)
            | flip_dir_exec(p, o, mv, MASK_D, 9, true) | flip_dir_exec(p, o, mv, MASK_D, 9, false)
            | flip_dir_exec(p, o, mv, MASK_D, 7, true) | flip_dir_exec(p, o, mv, MASK_D, 7, false);
        self.player = o ^ f;
        self.opponent = p ^ (f | mv);
        self.turn = self.opposite();
    }

    /// Flip captured stones for a legal `pos`, swap sides and toggle the
    /// turn; refuse an illegal square and leave the position unchanged.
    pub fn do_move(&mut self, pos: usize) -> (r: Result<(), BoardError>)
        requires
            old(self).wf(),
        ensures
            old(self).is_legal_move_spec(pos as int) ==> r == Ok::<(), BoardError>(()) && *final(self)
                == do_move_spec(*old(self), pos as int),
            !old(self).is_legal_move_spec(pos as int) ==> r == Err::<(), BoardError>(
                BoardError::InvalidMove,
            ) && *final(self) == *old(self),
            final(self).wf(),
    {
        if self.is_legal_move(pos) {
            self.do_move_unchecked(pos);
            Ok(())
        } else {
            Err(BoardError::InvalidMove)
        }
    }

    /// Swap sides without placing a stone. Permitted only when the side to
    /// move has no legal move; otherwise the position is left unchanged.
    pub fn do_pass(&mut self) -> (r: Result<(), BoardError>)
        requires
            old(self).wf(),
        ensures
            legal_moves_spec(old(self).player, old(self).opponent) == 0 ==> r == Ok::<(),
            BoardError>(()) && *final(self) == do_pass_spec(*old(self)),
            legal_moves_spec(old(self).player, old(self).opponent) != 0 ==> r == Err::<(),
            BoardError>(BoardError::InvalidPass) && *final(self) == *old(self),
            final(self).wf(),
    {
        if self.get_legal_moves() == 0 {
            proof {
                lemma_do_pass_preserves(*self);
            }
            let p = self.player;
            self.player = self.opponent;
            self.opponent = p;
            self.turn = self.opposite();
            Ok(())
        } else {
            Err(BoardError::InvalidPass)
        }
    }

    /// The side that is not to move.
    pub fn opposite(&self) -> (r: Turn)
        ensures
            r == opposite_spec(self.turn),
    {
        match self.turn {
            Turn::Black => Turn::White,
            Turn::White => Turn::Black,
        }
    }

    /// True when playing `pos` is legal for the side to move.
    pub open spec fn is_legal_move_spec(self, pos: int) -> bool {
        0 <= pos < 64 && bit_at(legal_moves_spec(self.player, self.opponent), pos)
    }

    /// True when neither side has a legal move.
    pub fn is_game_over(&self) -> (r: bool)
        ensures
            r == is_game_over_spec(*self),
    {
        if self.get_legal_moves() != 0 {
            return false;
        }
        let u = legal_dir_exec(self.opponent, self.player, MASK_H, 1, true) | legal_dir_exec(
            self.opponent,
            self.player,
            MASK_H,
            1,
            false,
        ) | legal_dir_exec(self.opponent, self.player, MASK_V, 8, true) | legal_dir_exec(
            self.opponent,
            self.player,
            MASK_V,
            8,
            false,
        ) | legal_dir_exec(self.opponent, self.player, MASK_D, 9, true) | legal_dir_exec(
            self.opponent,
            self.player,
            MASK_D,
            9,
            false,
        ) | legal_dir_exec(self.opponent, self.player, MASK_D, 7, true) | legal_dir_exec(
            self.opponent,
            self.player,
            MASK_D,
            7,
            false,
        );
        u & !(self.opponent | self.player) == 0
    }

    /// Number of stones of the side to move.
    pub fn player_piece_num(&self) -> (r: i32)
        ensures
            r == pop64(self.player),
            0 <= r <= 64,
    {
        popcount(self.player) as i32
    }

    /// Number of stones of the side not to move.
    pub fn opponent_piece_num(&self) -> (r: i32)
        ensures
            r == pop64(self.opponent),
            0 <= r <= 64,
    {
        popcount(self.opponent) as i32
    }

    /// Number of Black stones.
    pub fn black_piece_num(&self) -> (r: i32)
        ensures
            r == pop64(self.blacks()),
            0 <= r <= 64,
    {
        match self.turn {
            Turn::Black => self.player_piece_num(),
            Turn::White => self.opponent_piece_num(),
        }
    }

    /// Number of White stones.
    pub fn white_piece_num(&self) -> (r: i32)
        ensures
            r == pop64(self.whites()),
            0 <= r <= 64,
    {
        match self.turn {
            Turn::White => self.player_piece_num(),
            Turn::Black => self.opponent_piece_num(),
        }
    }

    /// Total number of stones on the board.
    pub fn piece_sum(&self) -> (r: i32)
        ensures
            r == total_pieces(*self),
            0 <= r <= 128,
    {
        self.player_piece_num() + self.opponent_piece_num()
    }

    /// Stone advantage of the side to move.
    pub fn diff_piece_num(&self) -> (r: i32)
        ensures
            r == pop64(self.player) - pop64(self.opponent),
            -64 <= r <= 64,
    {
        self.player_piece_num() - self.opponent_piece_num()
    }

    /// Whether the side to move has won. Asking before the game is over is
    /// refused.
    pub fn is_win(&self) -> (r: Result<bool, BoardError>)
        ensures
            is_game_over_spec(*self) ==> r == Ok::<bool, BoardError>(
                pop64(self.player) > pop64(self.opponent),
            ),
            !is_game_over_spec(*self) ==> r == Err::<bool, BoardError>(BoardError::GameNotOver),
    {
        if self.is_game_over() {
            Ok(self.player_piece_num() > self.opponent_piece_num())
        } else {
            Err(BoardError::GameNotOver)
        }
    }

    /// Whether the side to move has lost. Asking before the game is over is
    /// refused.
    pub fn is_lose(&self) -> (r: Result<bool, BoardError>)
        ensures
            is_game_over_spec(*self) ==> r == Ok::<bool, BoardError>(
                pop64(self.player) < pop64(self.opponent),
            ),
            !is_game_over_spec(*self) ==> r == Err::<bool, BoardError>(BoardError::GameNotOver),
    {
        if self.is_game_over() {
            Ok(self.player_piece_num() < self.opponent_piece_num())
        } else {
            Err(BoardError::GameNotOver)
        }
    }
}


/// The character of square `i` in the 64-character projection.
pub open spec fn square_char(b: Board, i: int) -> char {
    if bit_at(b.blacks(), i) {
        'X'
    } else if bit_at(b.whites(), i) {
        'O'
    } else {
        '-'
    }
}

/// The 64-character projection of a position: `X` for Black, `O` for
/// White, `-` for empty, square 0 first.
pub open spec fn serialize_spec(b: Board) -> Seq<char> {
    Seq::new(64, |i: int| square_char(b, i))
}

/// The colour of square `i`.
pub open spec fn square_color(b: Board, i: int) -> Color {
    if bit_at(b.blacks(), i) {
        Color::Black
    } else if bit_at(b.whites(), i) {
        Color::White
    } else {
        Color::Empty
    }
}

/// The bitboard of the squares below `n` whose character in `s` is `c`.
pub open spec fn mask_prefix(s: Seq<char>, c: char, n: nat) -> u64
    decreases n,
{
    if n == 0 {
        0u64
    } else {
        let m = mask_prefix(s, c, (n - 1) as nat);
        if s[n - 1] == c {
            m | pos2bit_spec(n - 1)
        } else {
            m
        }
    }
}

/// A well-formed board string: 64 characters, each `X`, `O` or `-`.
pub open spec fn valid_board_str(s: Seq<char>) -> bool {
    s.len() == 64 && forall|k: int|
        0 <= k < 64 ==> (#[trigger] s[k] == 'X' || s[k] == 'O' || s[k] == '-')
}

/// The position denoted by a board string, normalized so that `player`
/// holds the stones of `turn`.
pub open spec fn parse_board_spec(s: Seq<char>, turn: Turn) -> Board {
    let blacks = mask_prefix(s, 'X', 64);
    let whites = mask_prefix(s, 'O', 64);
    if turn == Turn::Black {
        Board { player: blacks, opponent: whites, turn }
    } else {
        Board { player: whites, opponent: blacks, turn }
    }
}

/// Square `j` is in the prefix mask exactly when it lies below `n` and
/// carries the character `c`.
proof fn lemma_mask_prefix_bits(s: Seq<char>, c: char, n: nat)
    requires
        n <= 64,
    ensures
        forall|j: int|
            0 <= j < 64 ==> #[trigger] bit_at(mask_prefix(s, c, n), j) == (j < n && s[j] == c),
    decreases n,
{
    if n == 0 {
        assert forall|j: int| 0 <= j < 64 implies #[trigger] bit_at(mask_prefix(s, c, n), j) == (j
            < n && s[j] == c) by {
            crate::bits::lemma_bit_empty(j);
        }
    } else {
        lemma_mask_prefix_bits(s, c, (n - 1) as nat);
        let m = mask_prefix(s, c, (n - 1) as nat);
        assert forall|j: int| 0 <= j < 64 implies #[trigger] bit_at(mask_prefix(s, c, n), j) == (j
            < n && s[j] == c) by {
            if s[n - 1] == c {
                crate::bits::lemma_bit_or_single(m, n - 1, j);
            }
        }
    }
}

/// A non-zero bitboard holds at least one stone.
pub proof fn lemma_exists_bit(x: u64)
    requires
        x != 0,
    ensures
        exists|j: int| 0 <= j < 64 && #[trigger] bit_at(x, j),
{
    vstd::std_specs::bits::axiom_u64_trailing_zeros(x);
    let tz = vstd::std_specs::bits::u64_trailing_zeros(x) as u64;
    assert(x & (1u64 << tz) != 0) by (bit_vector)
        requires
            tz < 64 && (x >> tz) & 1u64 == 1u64,
    ;
    assert(bit_at(x, 63 - tz));
}

/// Two bitboards without a common stone have an empty intersection.
proof fn lemma_bitwise_disjoint(a: u64, b: u64)
    requires
        forall|j: int| 0 <= j < 64 ==> !(#[trigger] bit_at(a, j) && bit_at(b, j)),
    ensures
        a & b == 0,
{
    if a & b != 0 {
        lemma_exists_bit(a & b);
        let j = choose|j: int| 0 <= j < 64 && #[trigger] bit_at(a & b, j);
        let m = pos2bit_spec(j);
        assert(a & m != 0 && b & m != 0) by (bit_vector)
            requires
                (a & b) & m != 0,
        ;
        assert(bit_at(a, j) && bit_at(b, j));
        assert(false);
    }
}

/// A parsed board string yields a well-formed position.
proof fn lemma_parse_board_wf(s: Seq<char>, turn: Turn)
    ensures
        parse_board_spec(s, turn).wf(),
{
    lemma_mask_prefix_bits(s, 'X', 64);
    lemma_mask_prefix_bits(s, 'O', 64);
    lemma_bitwise_disjoint(mask_prefix(s, 'X', 64), mask_prefix(s, 'O', 64));
    lemma_bitwise_disjoint(mask_prefix(s, 'O', 64), mask_prefix(s, 'X', 64));
}

/// Loading a well-formed board string and serializing the loaded position
/// gives back exactly the original string, whichever side is to move.
pub proof fn lemma_board_str_round_trip(s: Seq<char>, turn: Turn)
    requires
        valid_board_str(s),
    ensures
        serialize_spec(parse_board_spec(s, turn)) == s,
{
    let b = parse_board_spec(s, turn);
    lemma_mask_prefix_bits(s, 'X', 64);
    lemma_mask_prefix_bits(s, 'O', 64);
    assert(b.blacks() == mask_prefix(s, 'X', 64));
    assert(b.whites() == mask_prefix(s, 'O', 64));
    assert(serialize_spec(b) =~= s);
}

/// The squares of a bitmask in ascending order, restricted to squares
/// below `n`.
pub open spec fn legal_positions(lm: u64, n: nat) -> Seq<usize>
    decreases n,
{
    if n == 0 {
        Seq::empty()
    } else {
        let s = legal_positions(lm, (n - 1) as nat);
        if bit_at(lm, n - 1) {
            s.push((n - 1) as usize)
        } else {
            s
        }
    }
}

/// The position list is sorted, sound and complete for the mask.
pub proof fn lemma_legal_positions_props(lm: u64, n: nat)
    requires
        n <= 64,
    ensures
        forall|k: int|
            0 <= k < legal_positions(lm, n).len() ==> (#[trigger] legal_positions(lm, n)[k] < n
                && bit_at(lm, legal_positions(lm, n)[k] as int)),
        forall|k1: int, k2: int|
            0 <= k1 < k2 < legal_positions(lm, n).len() ==> legal_positions(lm, n)[k1]
                < legal_positions(lm, n)[k2],
        forall|p: int|
            0 <= p < n && bit_at(lm, p) ==> legal_positions(lm, n).contains(p as usize),
    decreases n,
{
    if n > 0 {
        lemma_legal_positions_props(lm, (n - 1) as nat);
        let s0 = legal_positions(lm, (n - 1) as nat);
        let s = legal_positions(lm, n);
        assert forall|p: int| 0 <= p < n && bit_at(lm, p) implies s.contains(p as usize) by {
            if p < n - 1 {
                let k = choose|k: int| 0 <= k < s0.len() && s0[k] == p as usize;
                assert(s[k] == p as usize);
            } else {
                assert(s[s.len() - 1] == p as usize);
            }
        }
    }
}

/// The position list is never longer than the range it covers.
pub proof fn lemma_legal_positions_len(lm: u64, n: nat)
    ensures
        legal_positions(lm, n).len() <= n,
    decreases n,
{
    if n > 0 {
        lemma_legal_positions_len(lm, (n - 1) as nat);
    }
}

/// A mask is empty exactly when its position list is.
pub proof fn lemma_legal_positions_empty(lm: u64)
    ensures
        (lm == 0) <==> (legal_positions(lm, 64).len() == 0),
{
    lemma_legal_positions_props(lm, 64);
    if lm == 0 {
        if legal_positions(lm, 64).len() > 0 {
            let p = legal_positions(lm, 64)[0];
            crate::bits::lemma_bit_empty(p as int);
        }
    } else {
        lemma_exists_bit(lm);
        let j = choose|j: int| 0 <= j < 64 && #[trigger] bit_at(lm, j);
        assert(legal_positions(lm, 64).contains(j as usize));
    }
}

impl Board {
    /// The legal destination squares in ascending order.
    pub fn get_legal_moves_vec(&self) -> (r: Vec<usize>)
        ensures
            r@ == legal_positions(legal_moves_spec(self.player, self.opponent), 64),
    {
        let lm = self.get_legal_moves();
        let mut v: Vec<usize> = Vec::new();
        let mut i: usize = 0;
        while i < 64
            invariant
                i <= 64,
                v@ == legal_positions(lm, i as nat),
            decreases 64 - i,
        {
            if get_bit(lm, i) {
                v.push(i);
            }
            i = i + 1;
        }
        v
    }

    /// The successor positions reached by each legal move, in ascending
    /// square order; nothing when the side to move must pass. Every
    /// successor is well formed and carries exactly one more stone.
    pub fn get_child_boards(&self) -> (r: Option<Vec<Board>>)
        requires
            self.wf(),
        ensures
            match r {
                None => legal_moves_spec(self.player, self.opponent) == 0,
                Some(v) => {
                    let lm = legal_moves_spec(self.player, self.opponent);
                    &&& lm != 0
                    &&& v@.len() == legal_positions(lm, 64).len()
                    &&& v@.len() > 0
                    &&& forall|k: int|
                        0 <= k < v@.len() ==> #[trigger] v@[k] == do_move_spec(
                            *self,
                            legal_positions(lm, 64)[k] as int,
                        ) && v@[k].wf() && total_pieces(v@[k]) == total_pieces(*self) + 1
                },
            },
    {
        let lm = self.get_legal_moves();
        if lm == 0 {
            return None;
        }
        proof {
            lemma_legal_positions_props(lm, 64);
            lemma_legal_positions_empty(lm);
        }
        let ps = self.get_legal_moves_vec();
        let mut v: Vec<Board> = Vec::new();
        let mut j: usize = 0;
        while j < ps.len()
            invariant
                self.wf(),
                lm == legal_moves_spec(self.player, self.opponent),
                ps@ == legal_positions(lm, 64),
                forall|k: int|
                    0 <= k < ps@.len() ==> (#[trigger] ps@[k] < 64 && bit_at(lm, ps@[k] as int)),
                j <= ps@.len(),
                v@.len() == j,
                forall|k: int|
                    0 <= k < j ==> #[trigger] v@[k] == do_move_spec(*self, ps@[k] as int)
                        && v@[k].wf() && total_pieces(v@[k]) == total_pieces(*self) + 1,
            decreases ps@.len() - j,
        {
            let pos = ps[j];
            let mut nb = *self;
            nb.do_move_unchecked(pos);
            v.push(nb);
            j = j + 1;
        }
        Some(v)
    }

    /// The 64-character projection of the position: `X` for Black, `O`
    /// for White, `-` for empty, square 0 first.
    pub fn serialize(&self) -> (r: String)
        ensures
            r@ == serialize_spec(*self),
    {
        let blacks = match self.turn {
            Turn::Black => self.player,
            Turn::White => self.opponent,
        };
        let whites = match self.turn {
            Turn::White => self.player,
            Turn::Black => self.opponent,
        };
        let mut out = String::new();
        let mut i: usize = 0;
        while i < 64
            invariant
                i <= 64,
                blacks == self.blacks(),
                whites == self.whites(),
                out@ =~= serialize_spec(*self).subrange(0, i as int),
            decreases 64 - i,
        {
            let c = if get_bit(blacks, i) {
                'X'
            } else if get_bit(whites, i) {
                'O'
            } else {
                '-'
            };
            push_char(&mut out, c);
            proof {
                assert(out@ =~= serialize_spec(*self).subrange(0, i + 1));
            }
            i = i + 1;
        }
        proof {
            assert(serialize_spec(*self).subrange(0, 64) =~= serialize_spec(*self));
        }
        out
    }

    /// Load a 64-character board string: `X` Black, `O` White, `-` empty,
    /// character `i` is square `i`. The loaded position is normalized so
    /// that `player` corresponds to `turn`. Any other character, or any
    /// other length, is refused and the position is left unchanged.
    pub fn set_board_str(&mut self, line: &str, turn: Turn) -> (r: Result<(), BoardError>)
        ensures
            line@.len() != 64 ==> r == Err::<(), BoardError>(BoardError::InvalidLength)
                && *final(self) == *old(self),
            line@.len() == 64 && !valid_board_str(line@) ==> r
                == Err::<(), BoardError>(BoardError::InvalidCharacter) && *final(self)
                == *old(self),
            valid_board_str(line@) ==> r == Ok::<(), BoardError>(()) && *final(self)
                == parse_board_spec(line@, turn) && final(self).wf(),
    {
        let n = line.unicode_len();
        if n != 64 {
            return Err(BoardError::InvalidLength);
        }
        let mut blacks: u64 = 0;
        let mut whites: u64 = 0;
        let mut i: usize = 0;
        while i < 64
            invariant
                line@.len() == 64,
                i <= 64,
                blacks == mask_prefix(line@, 'X', i as nat),
                whites == mask_prefix(line@, 'O', i as nat),
                forall|k: int|
                    0 <= k < i ==> (#[trigger] line@[k] == 'X' || line@[k] == 'O' || line@[k]
                        == '-'),
            decreases 64 - i,
        {
            let c = line.get_char(i);
            if c == 'X' {
                blacks = blacks | pos2bit(i);
            } else if c == 'O' {
                whites = whites | pos2bit(i);
            } else if c != '-' {
                return Err(BoardError::InvalidCharacter);
            }
            i = i + 1;
        }
        proof {
            lemma_parse_board_wf(line@, turn);
        }
        match turn {
            Turn::Black => {
                self.player = blacks;
                self.opponent = whites;
            },
            Turn::White => {
                self.player = whites;
                self.opponent = blacks;
            },
        }
        self.turn = turn;
        Ok(())
    }

    /// The 64 squares as colours, square 0 first.
    pub fn get_board_vec(&self) -> (r: Vec<Color>)
        ensures
            r@.len() == 64,
            forall|i: int| 0 <= i < 64 ==> #[trigger] r@[i] == square_color(*self, i),
    {
        let blacks = match self.turn {
            Turn::Black => self.player,
            Turn::White => self.opponent,
        };
        let whites = match self.turn {
            Turn::White => self.player,
            Turn::Black => self.opponent,
        };
        let mut v: Vec<Color> = Vec::new();
        let mut i: usize = 0;
        while i < 64
            invariant
                i <= 64,
                blacks == self.blacks(),
                whites == self.whites(),
                v@.len() == i,
                forall|k: int| 0 <= k < i ==> #[trigger] v@[k] == square_color(*self, k),
            decreases 64 - i,
        {
            let c = if get_bit(blacks, i) {
                Color::Black
            } else if get_bit(whites, i) {
                Color::White
            } else {
                Color::Empty
            };
            v.push(c);
            i = i + 1;
        }
        v
    }

    /// The position as eight rows of eight colours.
    pub fn get_board_matrix(&self) -> (r: Vec<Vec<Color>>)
        ensures
            r@.len() == 8,
            forall|row: int| 0 <= row < 8 ==> #[trigger] r@[row]@.len() == 8,
            forall|row: int, col: int|
                0 <= row < 8 && 0 <= col < 8 ==> #[trigger] r@[row]@[col] == square_color(
                    *self,
                    row * 8 + col,
                ),
    {
        let cells = self.get_board_vec();
        let mut rows: Vec<Vec<Color>> = Vec::new();
        let mut row: usize = 0;
        while row < 8
            invariant
                cells@.len() == 64,
                forall|i: int| 0 <= i < 64 ==> #[trigger] cells@[i] == square_color(*self, i),
                row <= 8,
                rows@.len() == row,
                forall|r0: int| 0 <= r0 < row ==> #[trigger] rows@[r0]@.len() == 8,
                forall|r0: int, col: int|
                    0 <= r0 < row && 0 <= col < 8 ==> #[trigger] rows@[r0]@[col] == square_color(
                        *self,
                        r0 * 8 + col,
                    ),
            decreases 8 - row,
        {
            let mut one: Vec<Color> = Vec::new();
            let mut col: usize = 0;
            while col < 8
                invariant
                    cells@.len() == 64,
                    forall|i: int| 0 <= i < 64 ==> #[trigger] cells@[i] == square_color(*self, i),
                    row < 8,
                    col <= 8,
                    one@.len() == col,
                    forall|c0: int|
                        0 <= c0 < col ==> #[trigger] one@[c0] == square_color(
                            *self,
                            row * 8 + c0,
                        ),
                decreases 8 - col,
            {
                one.push(cells[row * 8 + col]);
                col = col + 1;
            }
            rows.push(one);
            row = row + 1;
        }
        rows
    }
}

} // verus!
