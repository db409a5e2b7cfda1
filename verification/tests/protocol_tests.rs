use rust_reversi::arena::error::{ClientManagerError, NetworkArenaClientError};
use rust_reversi::arena::local::{GameOutcome, GameResult};
use rust_reversi::arena::network::{
    ClientManager, NetworkArenaClient, NetworkArenaServer, ServerCommand, format_super_isready,
    format_super_move, format_super_pieces, format_super_quit, format_super_stats,
    is_readyok_response, parse_server_command,
};
use rust_reversi::board::Turn;
use rust_reversi::strutil::{parse_decimal, trim};

#[test]
fn decimal_parsing_round_trip() {
    assert_eq!(parse_decimal("0"), Some(0));
    assert_eq!(parse_decimal("19"), Some(19));
    assert_eq!(parse_decimal("0042"), Some(42));
    assert_eq!(parse_decimal(""), None);
    assert_eq!(parse_decimal("4x"), None);
    assert_eq!(parse_decimal("-3"), None);
    assert_eq!(parse_decimal("18446744073709551615"), Some(u64::MAX));
    assert_eq!(parse_decimal("18446744073709551616"), None);
}

#[test]
fn trimming_strips_protocol_whitespace() {
    assert_eq!(trim("  pong\r\n"), "pong");
    assert_eq!(trim("\t\n "), "");
    assert_eq!(trim("a b"), "a b");
}

#[test]
fn parse_isready_and_quit() {
    assert_eq!(parse_server_command("##SUPER## isready\n"), Ok(ServerCommand::IsReady));
    assert_eq!(parse_server_command("##SUPER## quit\n"), Ok(ServerCommand::Quit));
}

#[test]
fn parse_move_commands() {
    assert_eq!(
        parse_server_command("##SUPER## black 19\n"),
        Ok(ServerCommand::Move(Turn::Black, 19))
    );
    assert_eq!(
        parse_server_command("##SUPER## white 44\n"),
        Ok(ServerCommand::Move(Turn::White, 44))
    );
    assert_eq!(
        parse_server_command("##SUPER## black 64\n"),
        Err(NetworkArenaClientError::UnexpectedServerResponse)
    );
    assert_eq!(
        parse_server_command("##SUPER## black\n"),
        Err(NetworkArenaClientError::UnexpectedServerResponse)
    );
}

#[test]
fn parse_stats_and_pieces() {
    assert_eq!(
        parse_server_command("##SUPER## stats 3 1 0\n"),
        Ok(ServerCommand::Stats(3, 1, 0))
    );
    assert_eq!(
        parse_server_command("##SUPER## pieces 128 128\n"),
        Ok(ServerCommand::Pieces(128, 128))
    );
    assert_eq!(
        parse_server_command("##SUPER## stats 3 1\n"),
        Err(NetworkArenaClientError::UnexpectedServerResponse)
    );
    assert_eq!(
        parse_server_command("##SUPER## pieces x 1\n"),
        Err(NetworkArenaClientError::UnexpectedServerResponse)
    );
}

#[test]
fn parse_rejects_lines_without_marker() {
    assert_eq!(
        parse_server_command("isready\n"),
        Err(NetworkArenaClientError::UnexpectedServerResponse)
    );
    assert_eq!(
        parse_server_command("##super## isready\n"),
        Err(NetworkArenaClientError::UnexpectedServerResponse)
    );
    assert_eq!(
        parse_server_command("##SUPER## launch\n"),
        Err(NetworkArenaClientError::UnexpectedServerResponse)
    );
    assert_eq!(
        parse_server_command("##SUPER##"),
        Err(NetworkArenaClientError::UnexpectedServerResponse)
    );
}

#[test]
fn formatted_commands_parse_back() {
    assert_eq!(
        parse_server_command(&format_super_move(Turn::Black, 19)),
        Ok(ServerCommand::Move(Turn::Black, 19))
    );
    assert_eq!(
        parse_server_command(&format_super_move(Turn::White, 0)),
        Ok(ServerCommand::Move(Turn::White, 0))
    );
    assert_eq!(
        parse_server_command(&format_super_stats(10, 4, 2)),
        Ok(ServerCommand::Stats(10, 4, 2))
    );
    assert_eq!(
        parse_server_command(&format_super_pieces(320, 320)),
        Ok(ServerCommand::Pieces(320, 320))
    );
    assert_eq!(parse_server_command(&format_super_isready()), Ok(ServerCommand::IsReady));
    assert_eq!(parse_server_command(&format_super_quit()), Ok(ServerCommand::Quit));
}

#[test]
fn formatted_lines_match_the_wire_protocol() {
    assert_eq!(format_super_isready(), "##SUPER## isready\n");
    assert_eq!(format_super_quit(), "##SUPER## quit\n");
    assert_eq!(format_super_move(Turn::Black, 19), "##SUPER## black 19\n");
    assert_eq!(format_super_move(Turn::White, 44), "##SUPER## white 44\n");
    assert_eq!(format_super_stats(3, 1, 0), "##SUPER## stats 3 1 0\n");
    assert_eq!(format_super_pieces(128, 128), "##SUPER## pieces 128 128\n");
}

#[test]
fn readyok_handshake() {
    assert!(is_readyok_response("readyok\n"));
    assert!(is_readyok_response(" readyok "));
    assert!(!is_readyok_response("ready\n"));
}

#[test]
fn client_manager_seats_two_clients() {
    let mut manager = ClientManager::new();
    assert!(!manager.is_full());
    assert_eq!(manager.add_client(), Ok(0));
    assert!(!manager.is_full());
    assert_eq!(manager.add_client(), Ok(1));
    assert!(manager.is_full());
    assert_eq!(manager.add_client(), Err(ClientManagerError::NoMoreClients));
}

#[test]
fn network_server_bookkeeping() {
    let mut server = NetworkArenaServer::new(10);
    assert_eq!(server.add_client(), Ok(0));
    assert_eq!(server.add_client(), Ok(1));
    assert!(server.is_full());
    server.commit_game(GameResult {
        outcome: GameOutcome::Engine1Win,
        own_pieces: 40,
        opp_pieces: 24,
    });
    server.commit_game(GameResult {
        outcome: GameOutcome::Engine1Lose,
        own_pieces: 19,
        opp_pieces: 45,
    });
    server.commit_game(GameResult { outcome: GameOutcome::Draw, own_pieces: 32, opp_pieces: 32 });
    assert_eq!(server.get_stats(), (1, 1, 1));
    assert_eq!(server.get_pieces(), (91, 101));
    server.reset_round();
    assert_eq!(server.get_stats(), (0, 0, 0));
    assert_eq!(server.get_pieces(), (0, 0));
}

#[test]
fn network_client_accumulates_delivered_tallies() {
    let cmd = vec!["engine".to_string(), "--fast".to_string()];
    let mut client = NetworkArenaClient::new(cmd.clone());
    assert_eq!(*client.get_command(), cmd);
    assert_eq!(client.get_stats(), (0, 0, 0));
    client.handle_stats(3, 1, 0);
    client.handle_stats(1, 2, 1);
    assert_eq!(client.get_stats(), (4, 3, 1));
    client.handle_pieces(100, 156);
    client.handle_pieces(28, 36);
    assert_eq!(client.get_pieces(), (128, 192));
}
