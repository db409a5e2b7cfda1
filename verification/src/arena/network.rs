//! The network arena's decision logic: the super-command line protocol
//! between the coordinating server and the playing clients, parsed and
//! formatted exactly, and the bookkeeping of both sides. Sockets and
//! child processes belong to the surrounding layer.

use vstd::prelude::*;
use vstd::string::StrSliceExecFns;
use vstd::string::StringExecFns;
use crate::arena::error::{ClientManagerError, NetworkArenaClientError};
use crate::arena::local::{GameOutcome, GameResult};
use crate::board::Turn;
use crate::strutil::{
    append_decimal, dec_digits, dec_value, is_numeral, parse_decimal, split_ws, split_ws_spec,
    string_eq, trim_spec, words_of,
};

verus! {

/// One parsed super-command from the server: a readiness probe, a move
/// request for the named colour, aggregate statistics, piece totals, or
/// the end of the session.
#[derive(Clone, Copy, PartialEq, Eq, Structural, Debug)]
pub enum ServerCommand {
    IsReady,
    Move(Turn, usize),
    Stats(usize, usize, usize),
    Pieces(usize, usize),
    Quit,
}

/// The value a word denotes when it is a decimal numeral no larger than
/// `max`, and nothing otherwise.
pub open spec fn word_value(w: Seq<char>, max: nat) -> Option<usize> {
    if is_numeral(w) && dec_value(w) <= max {
        Some(dec_value(w) as usize)
    } else {
        None
    }
}

/// The command a server line denotes: it must carry the super-command
/// marker, and its first word names the command. A move square must be a
/// decimal index below 64; counters must fit the machine word. Words
/// beyond the expected ones are ignored.
pub open spec fn parse_command_spec(s: Seq<char>) -> Result<
    ServerCommand,
    NetworkArenaClientError,
> {
    if !(s.len() >= 9 && s.subrange(0, 9) == "##SUPER##"@) {
        Err(NetworkArenaClientError::UnexpectedServerResponse)
    } else {
        let words = split_ws_spec(s.subrange(9, s.len() as int));
        if words.len() == 0 {
            Err(NetworkArenaClientError::UnexpectedServerResponse)
        } else if words[0] == "isready"@ {
            Ok(ServerCommand::IsReady)
        } else if words[0] == "quit"@ {
            Ok(ServerCommand::Quit)
        } else if words[0] == "black"@ || words[0] == "white"@ {
            let t = if words[0] == "black"@ {
                Turn::Black
            } else {
                Turn::White
            };
            if words.len() >= 2 && word_value(words[1], 63) is Some {
                Ok(ServerCommand::Move(t, word_value(words[1], 63)->Some_0))
            } else {
                Err(NetworkArenaClientError::UnexpectedServerResponse)
            }
        } else if words[0] == "stats"@ {
            if words.len() >= 4 && word_value(words[1], usize::MAX as nat) is Some && word_value(
                words[2],
                usize::MAX as nat,
            ) is Some && word_value(words[3], usize::MAX as nat) is Some {
                Ok(
                    ServerCommand::Stats(
                        word_value(words[1], usize::MAX as nat)->Some_0,
                        word_value(words[2], usize::MAX as nat)->Some_0,
                        word_value(words[3], usize::MAX as nat)->Some_0,
                    ),
                )
            } else {
                Err(NetworkArenaClientError::UnexpectedServerResponse)
            }
        } else if words[0] == "pieces"@ {
            if words.len() >= 3 && word_value(words[1], usize::MAX as nat) is Some && word_value(
                words[2],
                usize::MAX as nat,
            ) is Some {
                Ok(
                    ServerCommand::Pieces(
                        word_value(words[1], usize::MAX as nat)->Some_0,
                        word_value(words[2], usize::MAX as nat)->Some_0,
                    ),
                )
            } else {
                Err(NetworkArenaClientError::UnexpectedServerResponse)
            }
        } else {
            Err(NetworkArenaClientError::UnexpectedServerResponse)
        }
    }
}

/// Parse one word as a decimal value no larger than `max`.
fn parse_word(w: &String, max: u64) -> (r: Option<usize>)
    requires
        max <= usize::MAX,
    ensures
        r == word_value(w@, max as nat),
{
    match parse_decimal(w.as_str()) {
        Some(v) => if v <= max {
            Some(v as usize)
        } else {
            None
        },
        None => None,
    }
}

/// Parse one line from the server into a super-command.
pub fn parse_server_command(line: &str) -> (r: Result<ServerCommand, NetworkArenaClientError>)
    ensures
        r == parse_command_spec(line@),
{
    let n = line.unicode_len();
    if n < 9 {
        return Err(NetworkArenaClientError::UnexpectedServerResponse);
    }
    if !string_eq(line.substring_char(0, 9), "##SUPER##") {
        return Err(NetworkArenaClientError::UnexpectedServerResponse);
    }
    let rest = line.substring_char(9, n);
    let words = split_ws(rest);
    proof {
        assert(words_of(words@) =~= split_ws_spec(line@.subrange(9, n as int)));
    }
    if words.len() == 0 {
        return Err(NetworkArenaClientError::UnexpectedServerResponse);
    }
    let head = &words[0];
    proof {
        assert(head@ == words_of(words@)[0]);
    }
    if string_eq(head.as_str(), "isready") {
        Ok(ServerCommand::IsReady)
    } else if string_eq(head.as_str(), "quit") {
        Ok(ServerCommand::Quit)
    } else if string_eq(head.as_str(), "black") || string_eq(head.as_str(), "white") {
        let t = if string_eq(head.as_str(), "black") {
            Turn::Black
        } else {
            Turn::White
        };
        if words.len() >= 2 {
            proof {
                assert(words@[1]@ == words_of(words@)[1]);
            }
            match parse_word(&words[1], 63) {
                Some(p) => Ok(ServerCommand::Move(t, p)),
                None => Err(NetworkArenaClientError::UnexpectedServerResponse),
            }
        } else {
            Err(NetworkArenaClientError::UnexpectedServerResponse)
        }
    } else if string_eq(head.as_str(), "stats") {
        if words.len() >= 4 {
            proof {
                assert(words@[1]@ == words_of(words@)[1]);
                assert(words@[2]@ == words_of(words@)[2]);
                assert(words@[3]@ == words_of(words@)[3]);
            }
            let w = parse_word(&words[1], usize::MAX as u64);
            let l = parse_word(&words[2], usize::MAX as u64);
            let d = parse_word(&words[3], usize::MAX as u64);
            match (w, l, d) {
                (Some(w0), Some(l0), Some(d0)) => Ok(ServerCommand::Stats(w0, l0, d0)),
                _ => Err(NetworkArenaClientError::UnexpectedServerResponse),
            }
        } else {
            Err(NetworkArenaClientError::UnexpectedServerResponse)
        }
    } else if string_eq(head.as_str(), "pieces") {
        if words.len() >= 3 {
            proof {
                assert(words@[1]@ == words_of(words@)[1]);
                assert(words@[2]@ == words_of(words@)[2]);
            }
            let own = parse_word(&words[1], usize::MAX as u64);
            let opp = parse_word(&words[2], usize::MAX as u64);
            match (own, opp) {
                (Some(o0), Some(p0)) => Ok(ServerCommand::Pieces(o0, p0)),
                _ => Err(NetworkArenaClientError::UnexpectedServerResponse),
            }
        } else {
            Err(NetworkArenaClientError::UnexpectedServerResponse)
        }
    } else {
        Err(NetworkArenaClientError::UnexpectedServerResponse)
    }
}

/// The readiness probe line.
pub fn format_super_isready() -> (r: String)
    ensures
        r@ == "##SUPER## isready\n"@,
{
    String::from_str("##SUPER## isready\n")
}

/// The session-ending line.
pub fn format_super_quit() -> (r: String)
    ensures
        r@ == "##SUPER## quit\n"@,
{
    String::from_str("##SUPER## quit\n")
}

/// The move-request line for the named colour and square.
pub fn format_super_move(turn: Turn, pos: usize) -> (r: String)
    ensures
        r@ == "##SUPER## "@ + (if turn == Turn::Black {
            "black "@
        } else {
            "white "@
        }) + dec_digits(pos as nat) + "\n"@,
{
    let mut s = String::from_str("##SUPER## ");
    match turn {
        Turn::Black => s.append("black "),
        Turn::White => s.append("white "),
    }
    append_decimal(&mut s, pos as u64);
    s.append("\n");
    s
}

/// The statistics line: wins, losses and draws.
pub fn format_super_stats(w: usize, l: usize, d: usize) -> (r: String)
    ensures
        r@ == "##SUPER## stats "@ + dec_digits(w as nat) + " "@ + dec_digits(l as nat) + " "@
            + dec_digits(d as nat) + "\n"@,
{
    let mut s = String::from_str("##SUPER## stats ");
    append_decimal(&mut s, w as u64);
    s.append(" ");
    append_decimal(&mut s, l as u64);
    s.append(" ");
    append_decimal(&mut s, d as u64);
    s.append("\n");
    s
}

/// The piece-totals line.
pub fn format_super_pieces(own: usize, opp: usize) -> (r: String)
    ensures
        r@ == "##SUPER## pieces "@ + dec_digits(own as nat) + " "@ + dec_digits(opp as nat)
            + "\n"@,
{
    let mut s = String::from_str("##SUPER## pieces ");
    append_decimal(&mut s, own as u64);
    s.append(" ");
    append_decimal(&mut s, opp as u64);
    s.append("\n");
    s
}

/// True when a client's answer to the readiness probe is `readyok`, up
/// to surrounding whitespace.
pub fn is_readyok_response(line: &str) -> (r: bool)
    ensures
        r == (trim_spec(line@) =~= "readyok"@),
{
    string_eq(crate::strutil::trim(line), "readyok")
}

/// The two client slots of the server: which of them are occupied.
pub struct ClientManager {
    pub slot0: bool,
    pub slot1: bool,
}

impl ClientManager {
    /// Both slots free.
    pub fn new() -> (r: ClientManager)
        ensures
            !r.slot0,
            !r.slot1,
    {
        ClientManager { slot0: false, slot1: false }
    }

    /// Seat a newly accepted client in the first free slot and say which
    /// it was; with both slots taken no more clients are admitted.
    pub fn add_client(&mut self) -> (r: Result<usize, ClientManagerError>)
        ensures
            !old(self).slot0 ==> r == Ok::<usize, ClientManagerError>(0usize) && final(self).slot0
                && final(self).slot1 == old(self).slot1,
            old(self).slot0 && !old(self).slot1 ==> r == Ok::<usize, ClientManagerError>(1usize)
                && final(self).slot0 && final(self).slot1,
            old(self).slot0 && old(self).slot1 ==> r == Err::<usize, ClientManagerError>(
                ClientManagerError::NoMoreClients,
            ) && *final(self) == *old(self),
    {
        if !self.slot0 {
            self.slot0 = true;
            Ok(0)
        } else if !self.slot1 {
            self.slot1 = true;
            Ok(1)
        } else {
            Err(ClientManagerError::NoMoreClients)
        }
    }

    /// True when both slots are taken.
    pub fn is_full(&self) -> (r: bool)
        ensures
            r == (self.slot0 && self.slot1),
    {
        self.slot0 && self.slot1
    }
}

/// The coordinating side of a networked match: the per-round game count,
/// the seated clients, and the running tallies.
pub struct NetworkArenaServer {
    game_per_iter: usize,
    client_manager: ClientManager,
    win_count: usize,
    lose_count: usize,
    draw_count: usize,
    own_pieces: usize,
    opponent_pieces: usize,
}

impl NetworkArenaServer {
    /// Games played per round.
    pub closed spec fn games_per_round(self) -> usize {
        self.game_per_iter
    }

    /// The client slots.
    pub closed spec fn manager(self) -> ClientManager {
        self.client_manager
    }

    /// The running (win, lose, draw) tally.
    pub closed spec fn stats(self) -> (usize, usize, usize) {
        (self.win_count, self.lose_count, self.draw_count)
    }

    /// The running piece totals.
    pub closed spec fn pieces(self) -> (usize, usize) {
        (self.own_pieces, self.opponent_pieces)
    }

    /// A fresh server playing `game_per_iter` games per round.
    pub fn new(game_per_iter: usize) -> (r: NetworkArenaServer)
        ensures
            r.games_per_round() == game_per_iter,
            !r.manager().slot0,
            !r.manager().slot1,
            r.stats() == (0usize, 0usize, 0usize),
            r.pieces() == (0usize, 0usize),
    {
        NetworkArenaServer {
            game_per_iter,
            client_manager: ClientManager::new(),
            win_count: 0,
            lose_count: 0,
            draw_count: 0,
            own_pieces: 0,
            opponent_pieces: 0,
        }
    }

    /// Seat a newly accepted client in the first free slot.
    pub fn add_client(&mut self) -> (r: Result<usize, ClientManagerError>)
        ensures
            final(self).games_per_round() == old(self).games_per_round(),
            final(self).stats() == old(self).stats(),
            final(self).pieces() == old(self).pieces(),
            !old(self).manager().slot0 ==> r == Ok::<usize, ClientManagerError>(0usize)
                && final(self).manager().slot0 && final(self).manager().slot1 == old(
                self,
            ).manager().slot1,
            old(self).manager().slot0 && !old(self).manager().slot1 ==> r == Ok::<
                usize,
                ClientManagerError,
            >(1usize) && final(self).manager().slot0 && final(self).manager().slot1,
            old(self).manager().slot0 && old(self).manager().slot1 ==> r == Err::<
                usize,
                ClientManagerError,
            >(ClientManagerError::NoMoreClients) && final(self).manager() == old(self).manager(),
    {
        self.client_manager.add_client()
    }

    /// True when both client slots are taken.
    pub fn is_full(&self) -> (r: bool)
        ensures
            r == (self.manager().slot0 && self.manager().slot1),
    {
        self.client_manager.is_full()
    }

    /// Games played per round, for the layer that drives the rounds.
    pub fn get_games_per_round(&self) -> (r: usize)
        ensures
            r == self.games_per_round(),
    {
        self.game_per_iter
    }

    /// The round's (win, lose, draw) tally, from the first client's
    /// perspective.
    pub fn get_stats(&self) -> (r: (usize, usize, usize))
        ensures
            r == self.stats(),
    {
        (self.win_count, self.lose_count, self.draw_count)
    }

    /// The round's piece totals (first client, second client).
    pub fn get_pieces(&self) -> (r: (usize, usize))
        ensures
            r == self.pieces(),
    {
        (self.own_pieces, self.opponent_pieces)
    }

    /// Fold one finished game into the round's tallies, from the first
    /// client's perspective.
    pub fn commit_game(&mut self, result: GameResult)
        requires
            old(self).stats().0 < usize::MAX,
            old(self).stats().1 < usize::MAX,
            old(self).stats().2 < usize::MAX,
            old(self).pieces().0 + result.own_pieces <= usize::MAX,
            old(self).pieces().1 + result.opp_pieces <= usize::MAX,
        ensures
            final(self).games_per_round() == old(self).games_per_round(),
            final(self).manager() == old(self).manager(),
            final(self).stats().0 == old(self).stats().0 + (
            if result.outcome == GameOutcome::Engine1Win {
                1int
            } else {
                0int
            }),
            final(self).stats().1 == old(self).stats().1 + (
            if result.outcome == GameOutcome::Engine1Lose {
                1int
            } else {
                0int
            }),
            final(self).stats().2 == old(self).stats().2 + (
            if result.outcome == GameOutcome::Draw {
                1int
            } else {
                0int
            }),
            final(self).pieces().0 == old(self).pieces().0 + result.own_pieces,
            final(self).pieces().1 == old(self).pieces().1 + result.opp_pieces,
    {
        match result.outcome {
            GameOutcome::Engine1Win => {
                self.win_count = self.win_count + 1;
            },
            GameOutcome::Engine1Lose => {
                self.lose_count = self.lose_count + 1;
            },
            GameOutcome::Draw => {
                self.draw_count = self.draw_count + 1;
            },
        }
        self.own_pieces = self.own_pieces + result.own_pieces;
        self.opponent_pieces = self.opponent_pieces + result.opp_pieces;
    }

    /// Forget the tallies after a round has been delivered.
    pub fn reset_round(&mut self)
        ensures
            final(self).games_per_round() == old(self).games_per_round(),
            final(self).manager() == old(self).manager(),
            final(self).stats() == (0usize, 0usize, 0usize),
            final(self).pieces() == (0usize, 0usize),
    {
        self.win_count = 0;
        self.lose_count = 0;
        self.draw_count = 0;
        self.own_pieces = 0;
        self.opponent_pieces = 0;
    }
}

/// The playing side of a networked match: the engine command it spawns
/// locally, and the tallies the server has delivered to it.
pub struct NetworkArenaClient {
    command: Vec<String>,
    win_count: usize,
    lose_count: usize,
    draw_count: usize,
    own_pieces: usize,
    opponent_pieces: usize,
}

impl NetworkArenaClient {
    /// The engine command this client spawns.
    pub closed spec fn cmd(self) -> Seq<String> {
        self.command@
    }

    /// The delivered (win, lose, draw) tally.
    pub closed spec fn stats_model(self) -> (usize, usize, usize) {
        (self.win_count, self.lose_count, self.draw_count)
    }

    /// The delivered piece totals.
    pub closed spec fn pieces_model(self) -> (usize, usize) {
        (self.own_pieces, self.opponent_pieces)
    }

    /// A fresh client for the given engine command.
    pub fn new(command: Vec<String>) -> (r: NetworkArenaClient)
        ensures
            r.cmd() == command@,
            r.stats_model() == (0usize, 0usize, 0usize),
            r.pieces_model() == (0usize, 0usize),
    {
        NetworkArenaClient {
            command,
            win_count: 0,
            lose_count: 0,
            draw_count: 0,
            own_pieces: 0,
            opponent_pieces: 0,
        }
    }

    /// The engine command, for the layer that spawns the processes.
    pub fn get_command(&self) -> (r: &Vec<String>)
        ensures
            r@ == self.cmd(),
    {
        &self.command
    }

    /// Fold a delivered statistics command into the tally.
    pub fn handle_stats(&mut self, w: usize, l: usize, d: usize)
        requires
            old(self).stats_model().0 + w <= usize::MAX,
            old(self).stats_model().1 + l <= usize::MAX,
            old(self).stats_model().2 + d <= usize::MAX,
        ensures
            final(self).cmd() == old(self).cmd(),
            final(self).pieces_model() == old(self).pieces_model(),
            final(self).stats_model().0 == old(self).stats_model().0 + w,
            final(self).stats_model().1 == old(self).stats_model().1 + l,
            final(self).stats_model().2 == old(self).stats_model().2 + d,
    {
        self.win_count = self.win_count + w;
        self.lose_count = self.lose_count + l;
        self.draw_count = self.draw_count + d;
    }

    /// Fold a delivered piece-totals command into the tally.
    pub fn handle_pieces(&mut self, own: usize, opp: usize)
        requires
            old(self).pieces_model().0 + own <= usize::MAX,
            old(self).pieces_model().1 + opp <= usize::MAX,
        ensures
            final(self).cmd() == old(self).cmd(),
            final(self).stats_model() == old(self).stats_model(),
            final(self).pieces_model().0 == old(self).pieces_model().0 + own,
            final(self).pieces_model().1 == old(self).pieces_model().1 + opp,
    {
        self.own_pieces = self.own_pieces + own;
        self.opponent_pieces = self.opponent_pieces + opp;
    }

    /// The delivered (win, lose, draw) tally.
    pub fn get_stats(&self) -> (r: (usize, usize, usize))
        ensures
            r == self.stats_model(),
    {
        (self.win_count, self.lose_count, self.draw_count)
    }

    /// The delivered piece totals.
    pub fn get_pieces(&self) -> (r: (usize, usize))
        ensures
            r == self.pieces_model(),
    {
        (self.own_pieces, self.opponent_pieces)
    }
}

} // verus!
