//! The decision logic of the local arena: the per-game session state
//! machine and the aggregate match statistics. The surrounding layer
//! spawns the engine processes and moves lines between them and this
//! module.

use vstd::prelude::*;
use crate::arena::error::{ArenaError, GameError};
use crate::bits::pop64;
use crate::board::{
    Board, Turn, do_move_spec, do_pass_spec, initial_board, is_game_over_spec, legal_moves_spec,
    serialize_spec,
};
use crate::strutil::{dec_value, is_numeral, parse_decimal, push_char, string_eq, trim, trim_spec};

verus! {

/// What the arena must do next for the running game: ask the named side
/// for a move, tell it to pass, or close the game.
#[derive(Clone, Copy, PartialEq, Eq, Structural, Debug)]
pub enum SessionRequest {
    Move(Turn),
    Pass(Turn),
    Finished,
}

/// A finished game from the first engine's perspective.
#[derive(Clone, Copy, PartialEq, Eq, Structural, Debug)]
pub enum GameOutcome {
    Engine1Win,
    Engine1Lose,
    Draw,
}

/// The tally of one finished game, from the first engine's perspective.
#[derive(Clone, Copy, PartialEq, Eq, Structural, Debug)]
pub struct GameResult {
    pub outcome: GameOutcome,
    pub own_pieces: usize,
    pub opp_pieces: usize,
}

/// The letter a side writes in the line protocol.
pub open spec fn turn_char(t: Turn) -> char {
    if t == Turn::Black {
        'X'
    } else {
        'O'
    }
}

/// The tally of a finished position for the first engine, which played
/// Black exactly when `engine1_black` holds.
pub open spec fn result_spec(b: Board, engine1_black: bool) -> GameResult {
    let bl = pop64(b.blacks());
    let wh = pop64(b.whites());
    let own = if engine1_black {
        bl
    } else {
        wh
    };
    let opp = if engine1_black {
        wh
    } else {
        bl
    };
    GameResult {
        outcome: if own > opp {
            GameOutcome::Engine1Win
        } else if own < opp {
            GameOutcome::Engine1Lose
        } else {
            GameOutcome::Draw
        },
        own_pieces: own as usize,
        opp_pieces: opp as usize,
    }
}

/// One running game: the position, and which colour the first engine
/// plays.
pub struct GameSession {
    pub board: Board,
    pub engine1_black: bool,
}

impl GameSession {
    /// The position stays well formed.
    pub open spec fn wf(self) -> bool {
        self.board.wf()
    }

    /// A fresh game from the initial position.
    pub fn new(engine1_black: bool) -> (r: GameSession)
        ensures
            r.board == initial_board(),
            r.engine1_black == engine1_black,
            r.wf(),
    {
        GameSession { board: Board::new(), engine1_black }
    }

    /// What the arena must do next: ask the side to move for a move when
    /// it has one, tell it to pass when it has none, or end the game.
    pub fn next_request(&self) -> (r: SessionRequest)
        ensures
            is_game_over_spec(self.board) ==> r == SessionRequest::Finished,
            !is_game_over_spec(self.board) && legal_moves_spec(self.board.player,
            self.board.opponent) != 0 ==> r == SessionRequest::Move(self.board.turn),
            !is_game_over_spec(self.board) && legal_moves_spec(self.board.player,
            self.board.opponent) == 0 ==> r == SessionRequest::Pass(self.board.turn),
    {
        if self.board.is_game_over() {
            SessionRequest::Finished
        } else if self.board.get_legal_moves() != 0 {
            SessionRequest::Move(self.board.turn)
        } else {
            SessionRequest::Pass(self.board.turn)
        }
    }

    /// The line sent to the side to move: the 64 squares, a space, and
    /// the mover's letter.
    pub fn board_line(&self) -> (r: String)
        ensures
            r@ == serialize_spec(self.board) + seq![' ', turn_char(self.board.turn)],
    {
        let mut s = self.board.serialize();
        push_char(&mut s, ' ');
        let c = match self.board.turn {
            Turn::Black => 'X',
            Turn::White => 'O',
        };
        push_char(&mut s, c);
        proof {
            assert(s@ =~= serialize_spec(self.board) + seq![' ', turn_char(self.board.turn)]);
        }
        s
    }

    /// Apply the engine's answer line: after trimming it must be a
    /// decimal square index in 0..64 that is legal for the side to move;
    /// anything else is that side's invalid move and leaves the game
    /// unchanged.
    pub fn apply_move_line(&mut self, line: &str) -> (r: Result<(), GameError>)
        requires
            old(self).wf(),
        ensures
            final(self).wf(),
            final(self).engine1_black == old(self).engine1_black,
            ({
                let t = trim_spec(line@);
                if is_numeral(t) && dec_value(t) < 64 && old(self).board.is_legal_move_spec(
                    dec_value(t) as int,
                ) {
                    r == Ok::<(), GameError>(()) && final(self).board == do_move_spec(
                        old(self).board,
                        dec_value(t) as int,
                    )
                } else {
                    r == Err::<(), GameError>(
                        if old(self).board.turn == Turn::Black {
                            GameError::BlackInvalidMove
                        } else {
                            GameError::WhiteInvalidMove
                        },
                    ) && final(self).board == old(self).board
                }
            }),
    {
        let invalid = match self.board.turn {
            Turn::Black => GameError::BlackInvalidMove,
            Turn::White => GameError::WhiteInvalidMove,
        };
        let tok = trim(line);
        match parse_decimal(tok) {
            Some(v) => {
                if v < 64 {
                    match self.board.do_move(v as usize) {
                        Ok(_) => Ok(()),
                        Err(_) => Err(invalid),
                    }
                } else {
                    Err(invalid)
                }
            },
            None => Err(invalid),
        }
    }

    /// Apply a pass: permitted exactly when the side to move has no
    /// legal move; anything else leaves the game unchanged.
    pub fn apply_pass(&mut self) -> (r: Result<(), GameError>)
        requires
            old(self).wf(),
        ensures
            final(self).wf(),
            final(self).engine1_black == old(self).engine1_black,
            legal_moves_spec(old(self).board.player, old(self).board.opponent) == 0 ==> r == Ok::<
                (),
                GameError,
            >(()) && final(self).board == do_pass_spec(old(self).board),
            legal_moves_spec(old(self).board.player, old(self).board.opponent) != 0 ==> r
                == Err::<(), GameError>(GameError::UnexpectedError) && final(self).board == old(
                self,
            ).board,
    {
        match self.board.do_pass() {
            Ok(_) => Ok(()),
            Err(_) => Err(GameError::UnexpectedError),
        }
    }

    /// The finished game's tally for the first engine. Asking before the
    /// game is over is refused.
    pub fn result_for_engine1(&self) -> (r: Result<GameResult, GameError>)
        requires
            self.wf(),
        ensures
            is_game_over_spec(self.board) ==> r == Ok::<GameResult, GameError>(
                result_spec(self.board, self.engine1_black),
            ),
            !is_game_over_spec(self.board) ==> r == Err::<GameResult, GameError>(
                GameError::UnexpectedError,
            ),
    {
        if !self.board.is_game_over() {
            return Err(GameError::UnexpectedError);
        }
        let bl = self.board.black_piece_num();
        let wh = self.board.white_piece_num();
        let own: i32 = if self.engine1_black {
            bl
        } else {
            wh
        };
        let opp: i32 = if self.engine1_black {
            wh
        } else {
            bl
        };
        let outcome = if own > opp {
            GameOutcome::Engine1Win
        } else if own < opp {
            GameOutcome::Engine1Lose
        } else {
            GameOutcome::Draw
        };
        Ok(GameResult { outcome, own_pieces: own as usize, opp_pieces: opp as usize })
    }
}

/// True when an engine's handshake answer is `pong`, up to surrounding
/// whitespace.
pub fn is_pong_response(line: &str) -> (r: bool)
    ensures
        r == (trim_spec(line@) =~= "pong"@),
{
    string_eq(trim(line), "pong")
}

/// Whether the first engine plays Black in the given game of a pair: the
/// colours swap between the two games so each engine plays each colour
/// once per pair.
pub fn engine1_plays_black(game_in_pair: usize) -> (r: bool)
    ensures
        r == (game_in_pair % 2 == 0),
{
    game_in_pair % 2 == 0
}

/// A match between two engine commands: the commands, the win/lose/draw
/// tally from the first engine's perspective, and the piece totals over
/// the finished games.
pub struct Arena {
    command1: Vec<String>,
    command2: Vec<String>,
    win_count: usize,
    lose_count: usize,
    draw_count: usize,
    own_pieces: usize,
    opponent_pieces: usize,
}

impl Arena {
    /// The first engine's command line.
    pub closed spec fn cmd1(self) -> Seq<String> {
        self.command1@
    }

    /// The second engine's command line.
    pub closed spec fn cmd2(self) -> Seq<String> {
        self.command2@
    }

    /// Wins of the first engine.
    pub closed spec fn wins(self) -> usize {
        self.win_count
    }

    /// Losses of the first engine.
    pub closed spec fn loses(self) -> usize {
        self.lose_count
    }

    /// Drawn games.
    pub closed spec fn draws(self) -> usize {
        self.draw_count
    }

    /// Piece total of the first engine over the finished games.
    pub closed spec fn pieces_own(self) -> usize {
        self.own_pieces
    }

    /// Piece total of the second engine over the finished games.
    pub closed spec fn pieces_opp(self) -> usize {
        self.opponent_pieces
    }

    /// A fresh match between the two engine commands.
    pub fn new(command1: Vec<String>, command2: Vec<String>) -> (r: Arena)
        ensures
            r.cmd1() == command1@,
            r.cmd2() == command2@,
            r.wins() == 0,
            r.loses() == 0,
            r.draws() == 0,
            r.pieces_own() == 0,
            r.pieces_opp() == 0,
    {
        Arena {
            command1,
            command2,
            win_count: 0,
            lose_count: 0,
            draw_count: 0,
            own_pieces: 0,
            opponent_pieces: 0,
        }
    }

    /// The two engine command lines, for the layer that spawns them.
    pub fn get_commands(&self) -> (r: (&Vec<String>, &Vec<String>))
        ensures
            r.0@ == self.cmd1(),
            r.1@ == self.cmd2(),
    {
        (&self.command1, &self.command2)
    }

    /// The aggregate (win, lose, draw) tally from the first engine's
    /// perspective.
    pub fn get_stats(&self) -> (r: (usize, usize, usize))
        ensures
            r == (self.wins(), self.loses(), self.draws()),
    {
        (self.win_count, self.lose_count, self.draw_count)
    }

    /// The aggregate piece totals (first engine, second engine).
    pub fn get_pieces(&self) -> (r: (usize, usize))
        ensures
            r == (self.pieces_own(), self.pieces_opp()),
    {
        (self.own_pieces, self.opponent_pieces)
    }

    /// How many colour-swapped game pairs a match of `n` games runs: `n`
    /// must be even so both engines play each colour equally often.
    pub fn play_n_plan(n: usize) -> (r: Result<usize, ArenaError>)
        ensures
            n % 2 == 1 <==> r == Err::<usize, ArenaError>(ArenaError::GameNumberInvalid),
            n % 2 == 0 ==> r == Ok::<usize, ArenaError>(n / 2),
    {
        if n % 2 == 1 {
            Err(ArenaError::GameNumberInvalid)
        } else {
            Ok(n / 2)
        }
    }

    /// Fold one finished game into the aggregate tallies.
    pub fn commit_game(&mut self, result: GameResult)
        requires
            old(self).wins() < usize::MAX,
            old(self).loses() < usize::MAX,
            old(self).draws() < usize::MAX,
            old(self).pieces_own() + result.own_pieces <= usize::MAX,
            old(self).pieces_opp() + result.opp_pieces <= usize::MAX,
        ensures
            final(self).cmd1() == old(self).cmd1(),
            final(self).cmd2() == old(self).cmd2(),
            final(self).wins() == old(self).wins() + (if result.outcome == GameOutcome::Engine1Win {
                1int
            } else {
                0int
            }),
            final(self).loses() == old(self).loses() + (
            if result.outcome == GameOutcome::Engine1Lose {
                1int
            } else {
                0int
            }),
            final(self).draws() == old(self).draws() + (if result.outcome == GameOutcome::Draw {
                1int
            } else {
                0int
            }),
            final(self).pieces_own() == old(self).pieces_own() + result.own_pieces,
            final(self).pieces_opp() == old(self).pieces_opp() + result.opp_pieces,
    {
        match result.outcome {
            GameOutcome::Engine1Win => {
                self.win_count = self.win_count + 1;
            },
            GameOutcome::Engine1Lose => {
                self.lose_count = self.lose_count + 1;
            },
            GameOutcome::Draw => {
                self.draw_count = self.draw_count + 1;
            },
        }
        self.own_pieces = self.own_pieces + result.own_pieces;
        self.opponent_pieces = self.opponent_pieces + result.opp_pieces;
    }
}

} // verus!
