use rbn_vfd::client::{ConnectionState, LinkAction, RbnClient, RbnCommand, RbnMessage};

fn drain(client: &mut RbnClient) -> Vec<RbnMessage> {
    let mut all = Vec::new();
    while let Some(message) = client.try_recv() {
        all.push(message);
    }
    all
}

fn connected(callsign: &str) -> RbnClient {
    let mut client = RbnClient::new();
    client.connect(callsign.to_string());
    client.on_connected();
    drain(&mut client);
    client
}

fn status(message: &RbnMessage) -> &str {
    match message {
        RbnMessage::Status(text) => text,
        other => panic!("expected a status, got {:?}", other),
    }
}

#[test]
fn new_client_is_idle_and_silent() {
    let mut client = RbnClient::new();
    assert_eq!(client.state(), ConnectionState::Idle);
    assert_eq!(client.pending(), 0);
    assert!(client.try_recv().is_none());
}

#[test]
fn disconnect_while_idle_does_nothing() {
    let mut client = RbnClient::new();
    assert!(matches!(client.disconnect(), LinkAction::Nothing));
    assert!(matches!(client.handle_command(RbnCommand::Disconnect), LinkAction::Nothing));
    assert_eq!(client.state(), ConnectionState::Idle);
    assert_eq!(client.pending(), 0);
}

#[test]
fn connect_reports_and_asks_for_the_link() {
    let mut client = RbnClient::new();
    let action = client.handle_command(RbnCommand::Connect("W6JSV".to_string()));
    assert!(matches!(action, LinkAction::Open { ref host, port: 7000 } if host == "rbn.telegraphy.de"));
    assert_eq!(client.state(), ConnectionState::Connecting);
    let messages = drain(&mut client);
    assert_eq!(messages.len(), 1);
    assert_eq!(status(&messages[0]), "Connecting to rbn.telegraphy.de:7000...");
    assert!(matches!(client.on_connected(), LinkAction::Nothing));
    let messages = drain(&mut client);
    assert_eq!(messages.len(), 1);
    assert_eq!(status(&messages[0]), "Connected, waiting for login prompt...");
}

#[test]
fn redundant_connect_is_ignored() {
    let mut client = connected("W6JSV");
    assert!(matches!(client.connect("K1ABC".to_string()), LinkAction::Nothing));
    assert_eq!(client.state(), ConnectionState::AwaitingLogin);
    assert_eq!(client.pending(), 0);
    match client.on_data(b"please enter your callsign", 0) {
        LinkAction::Send(bytes) => assert_eq!(bytes, b"W6JSV\r\n".to_vec()),
        other => panic!("expected a send, got {:?}", other),
    }
    assert!(matches!(client.connect("K1ABC".to_string()), LinkAction::Nothing));
    assert_eq!(client.state(), ConnectionState::LoggedIn);
}

#[test]
fn failed_connection_ends_in_idle() {
    let mut client = RbnClient::new();
    client.connect("W6JSV".to_string());
    drain(&mut client);
    client.on_connect_failed("connection refused");
    assert_eq!(client.state(), ConnectionState::Idle);
    let messages = drain(&mut client);
    assert_eq!(messages.len(), 2);
    assert_eq!(status(&messages[0]), "Connection failed: connection refused");
    assert!(matches!(messages[1], RbnMessage::Disconnected));
    assert!(matches!(client.connect("W6JSV".to_string()), LinkAction::Open { .. }));
}

#[test]
fn late_connection_of_an_idle_client_is_closed() {
    let mut client = RbnClient::new();
    client.connect("W6JSV".to_string());
    assert!(matches!(client.disconnect(), LinkAction::Close));
    drain(&mut client);
    assert!(matches!(client.on_connected(), LinkAction::Close));
    assert_eq!(client.state(), ConnectionState::Idle);
    client.on_connect_failed("late");
    assert_eq!(client.pending(), 0);
}

#[test]
fn every_termination_reports_disconnected() {
    let mut by_command = connected("W6JSV");
    assert!(matches!(by_command.disconnect(), LinkAction::Close));
    let messages = drain(&mut by_command);
    assert_eq!(status(&messages[0]), "Disconnected");
    assert!(matches!(messages[1], RbnMessage::Disconnected));
    assert_eq!(by_command.state(), ConnectionState::Idle);

    let mut by_server = connected("W6JSV");
    assert!(matches!(by_server.on_end_of_stream(), LinkAction::Close));
    let messages = drain(&mut by_server);
    assert_eq!(status(&messages[0]), "Connection closed by server");
    assert!(matches!(messages[1], RbnMessage::Disconnected));
    assert_eq!(by_server.state(), ConnectionState::Idle);

    let mut by_error = connected("W6JSV");
    assert!(matches!(by_error.on_io_error("reset by peer"), LinkAction::Close));
    let messages = drain(&mut by_error);
    assert_eq!(status(&messages[0]), "Read error: reset by peer");
    assert!(matches!(messages[1], RbnMessage::Disconnected));
    assert_eq!(by_error.state(), ConnectionState::Idle);
}

#[test]
fn events_of_a_dead_link_are_ignored() {
    let mut client = RbnClient::new();
    assert!(matches!(client.on_data(b"DX de W1AW-#: 14033.0 WO6W CW 24 dB 22 WPM\r\n", 0), LinkAction::Nothing));
    assert!(matches!(client.on_end_of_stream(), LinkAction::Nothing));
    assert!(matches!(client.on_io_error("x"), LinkAction::Nothing));
    assert_eq!(client.pending(), 0);
    assert_eq!(client.state(), ConnectionState::Idle);
}

#[test]
fn lines_are_reassembled_across_chunks() {
    let mut client = connected("W6JSV");
    assert!(matches!(client.on_data(b"DX de W1AW-#: 14033.0 WO", 10), LinkAction::Nothing));
    assert_eq!(client.pending(), 0);
    assert!(matches!(client.on_data(b"6W CW 24 dB 22 WPM\r\nhello\nDX de K3", 20), LinkAction::Nothing));
    let messages = drain(&mut client);
    assert_eq!(messages.len(), 3);
    assert!(matches!(&messages[0], RbnMessage::RawData { data, received: true }
        if data == "DX de W1AW-#: 14033.0 WO6W CW 24 dB 22 WPM\r\n"));
    match &messages[1] {
        RbnMessage::Spot(spot) => {
            assert_eq!(spot.spotted_callsign, "WO6W");
            assert_eq!(spot.timestamp_ms, 20);
        }
        other => panic!("expected a spot, got {:?}", other),
    }
    assert!(matches!(&messages[2], RbnMessage::RawData { data, received: true } if data == "hello\n"));
    assert!(matches!(client.on_data(b"LR-#: 7012.3 DL1ABC CW 9 dB 31 WPM\n", 30), LinkAction::Nothing));
    let messages = drain(&mut client);
    assert_eq!(messages.len(), 2);
    assert!(matches!(&messages[1], RbnMessage::Spot(spot) if spot.spotter_callsign == "K3LR" && spot.frequency_hz == 7_012_300));
}

#[test]
fn malformed_spot_line_is_echoed_and_dropped() {
    let mut client = connected("W6JSV");
    client.on_data(b"DX de nonsense\n", 0);
    let messages = drain(&mut client);
    assert_eq!(messages.len(), 1);
    assert!(matches!(&messages[0], RbnMessage::RawData { data, received: true } if data == "DX de nonsense\n"));
}

#[test]
fn character_split_over_two_reads_is_put_together() {
    let mut client = connected("W6JSV");
    assert!(matches!(client.on_data(b"caf\xc3", 10), LinkAction::Nothing));
    assert_eq!(client.pending(), 0);
    let second = b"\xa9\r\nDX de W1AW-#: 14033.0 WO6W CW 24 dB 22 WPM\r\n";
    assert!(matches!(client.on_data(second, 20), LinkAction::Nothing));
    assert!(matches!(client.on_end_of_stream(), LinkAction::Close));
    let messages = drain(&mut client);
    assert_eq!(messages.len(), 5);
    assert!(matches!(&messages[0], RbnMessage::RawData { data, received: true } if data == "caf\u{e9}\r\n"));
    assert!(matches!(&messages[1], RbnMessage::RawData { data, received: true }
        if data == "DX de W1AW-#: 14033.0 WO6W CW 24 dB 22 WPM\r\n"));
    let spots: Vec<&RbnMessage> = messages.iter().filter(|m| matches!(m, RbnMessage::Spot(_))).collect();
    assert_eq!(spots.len(), 1);
    match &messages[2] {
        RbnMessage::Spot(spot) => {
            assert_eq!(spot.spotted_callsign, "WO6W");
            assert_eq!(spot.frequency_hz, 14_033_000);
            assert_eq!(spot.snr, 24);
            assert_eq!(spot.speed_wpm, 22);
        }
        other => panic!("expected a spot, got {:?}", other),
    }
    assert_eq!(status(&messages[3]), "Connection closed by server");
    assert!(matches!(messages[4], RbnMessage::Disconnected));
}

#[test]
fn line_that_is_not_utf8_is_forwarded_with_replacements() {
    let mut client = connected("W6JSV");
    client.on_data(b"abc", 0);
    client.on_data(&[0xff, b'\n'], 0);
    let messages = drain(&mut client);
    assert_eq!(messages.len(), 1);
    assert!(matches!(&messages[0], RbnMessage::RawData { data, received: true } if data == "abc\u{fffd}\n"));
    client.on_data(b"DX de K3LR-#: 7012.3 DL1ABC CW 9 dB 31 WPM \xc3\n", 0);
    let messages = drain(&mut client);
    assert_eq!(messages.len(), 2);
    assert!(matches!(&messages[0], RbnMessage::RawData { data, received: true }
        if data == "DX de K3LR-#: 7012.3 DL1ABC CW 9 dB 31 WPM \u{fffd}\n"));
    assert!(matches!(&messages[1], RbnMessage::Spot(spot) if spot.spotted_callsign == "DL1ABC"));
}

#[test]
fn cutting_the_bytes_differently_gives_the_same_events() {
    let feed = "hello\r\nDX de W1AW-#: 14033.0 WO6W CW 24 dB 22 WPM\r\ncaf\u{e9}\nDX de K3LR-#: 7012.3 DL1ABC CW 9 dB 31 WPM\r\ntail";
    let bytes = feed.as_bytes();
    let mut whole = connected("W6JSV");
    whole.on_data(b"please enter your callsign:", 0);
    whole.on_sent();
    drain(&mut whole);
    whole.on_data(bytes, 7);
    let expected: Vec<String> = drain(&mut whole).iter().map(|m| format!("{:?}", m)).collect();
    assert_eq!(expected.len(), 6);
    for cut in 0..=bytes.len() {
        let mut client = connected("W6JSV");
        client.on_data(b"please enter your callsign:", 0);
        client.on_sent();
        drain(&mut client);
        client.on_data(&bytes[..cut], 7);
        client.on_data(&bytes[cut..], 7);
        let got: Vec<String> = drain(&mut client).iter().map(|m| format!("{:?}", m)).collect();
        assert_eq!(got, expected, "cut at {}", cut);
    }
    let mut single = connected("W6JSV");
    single.on_data(b"please enter your callsign:", 0);
    single.on_sent();
    drain(&mut single);
    for byte in bytes {
        single.on_data(&[*byte], 7);
    }
    let got: Vec<String> = drain(&mut single).iter().map(|m| format!("{:?}", m)).collect();
    assert_eq!(got, expected);
}

#[test]
fn prompt_is_found_beside_bytes_that_are_no_text() {
    let mut client = connected("N0CALL");
    match client.on_data(b"\xc3 PLEASE enter YOUR callsign: \xe2\x82", 0) {
        LinkAction::Send(bytes) => assert_eq!(bytes, b"N0CALL\r\n".to_vec()),
        other => panic!("expected a send, got {:?}", other),
    }
    let messages = drain(&mut client);
    assert_eq!(messages.len(), 1);
    assert!(matches!(&messages[0], RbnMessage::RawData { data, received: true }
        if data == "\u{fffd} PLEASE enter YOUR callsign: \u{fffd}"));
    client.on_sent();
    let messages = drain(&mut client);
    assert!(matches!(&messages[0], RbnMessage::RawData { data, received: false } if data == "N0CALL\r\n"));
    assert_eq!(status(&messages[1]), "Logged in as N0CALL");
    assert_eq!(client.state(), ConnectionState::LoggedIn);
}

#[test]
fn failed_write_of_the_login_line_ends_the_connection_unreported() {
    let mut client = connected("N0CALL");
    assert!(matches!(client.on_data(b"please enter your callsign:", 0), LinkAction::Send(_)));
    drain(&mut client);
    assert!(matches!(client.on_write_error("broken pipe"), LinkAction::Close));
    let messages = drain(&mut client);
    assert_eq!(messages.len(), 2);
    assert_eq!(status(&messages[0]), "Write error: broken pipe");
    assert!(matches!(messages[1], RbnMessage::Disconnected));
    assert_eq!(client.state(), ConnectionState::Idle);
    client.on_sent();
    assert_eq!(client.pending(), 0);
    assert!(matches!(client.on_write_error("again"), LinkAction::Nothing));
}

#[test]
fn login_prompt_is_found_in_any_case_and_without_newline() {
    let mut client = connected("N0CALL");
    assert!(matches!(client.on_data(b"Welcome\r\nPlease Enter Your CALL", 0), LinkAction::Nothing));
    assert_eq!(client.state(), ConnectionState::AwaitingLogin);
    drain(&mut client);
    match client.on_data(b"SIGN: ", 0) {
        LinkAction::Send(bytes) => assert_eq!(bytes, b"N0CALL\r\n".to_vec()),
        other => panic!("expected a send, got {:?}", other),
    }
    client.on_sent();
    let messages = drain(&mut client);
    assert_eq!(messages.len(), 3);
    assert!(matches!(&messages[0], RbnMessage::RawData { data, received: true } if data == "Please Enter Your CALLSIGN: "));
    assert!(matches!(&messages[1], RbnMessage::RawData { data, received: false } if data == "N0CALL\r\n"));
    assert_eq!(status(&messages[2]), "Logged in as N0CALL");
    assert_eq!(client.state(), ConnectionState::LoggedIn);
}

#[test]
fn prompt_that_ends_with_a_line_feed_logs_in() {
    let mut client = connected("W6JSV");
    match client.on_data(b"Please enter your callsign:\r\n", 0) {
        LinkAction::Send(bytes) => assert_eq!(bytes, b"W6JSV\r\n".to_vec()),
        other => panic!("expected a send, got {:?}", other),
    }
    assert_eq!(client.state(), ConnectionState::LoggedIn);
    let messages = drain(&mut client);
    assert_eq!(messages.len(), 1);
    assert!(matches!(&messages[0], RbnMessage::RawData { data, received: true } if data == "Please enter your callsign:\r\n"));
    assert!(matches!(client.on_data(b"Please enter your callsign:\r\n", 0), LinkAction::Nothing));
}

#[test]
fn prompt_among_lines_logs_in_and_keeps_the_lines() {
    let mut client = connected("W6JSV");
    let data = b"hello\nplease enter your callsign:\nDX de W1AW-#: 14033.0 WO6W CW 24 dB 22 WPM\r\npart";
    assert!(matches!(client.on_data(data, 0), LinkAction::Send(_)));
    let messages = drain(&mut client);
    assert_eq!(messages.len(), 5);
    assert!(matches!(&messages[0], RbnMessage::RawData { data, .. } if data == "hello\n"));
    assert!(matches!(&messages[1], RbnMessage::RawData { data, .. } if data == "please enter your callsign:\n"));
    assert!(matches!(&messages[3], RbnMessage::Spot(spot) if spot.spotted_callsign == "WO6W"));
    assert!(matches!(&messages[4], RbnMessage::RawData { data, received: true } if data == "part"));
    assert!(matches!(client.on_data(b"ial\n", 0), LinkAction::Nothing));
    let messages = drain(&mut client);
    assert!(matches!(&messages[0], RbnMessage::RawData { data, .. } if data == "ial\n"));
}

#[test]
fn messages_come_out_oldest_first() {
    let mut client = RbnClient::new();
    client.connect("W6JSV".to_string());
    client.on_connected();
    client.on_data(b"one\ntwo\n", 0);
    assert_eq!(client.pending(), 4);
    let first = client.try_recv().unwrap();
    assert_eq!(status(&first), "Connecting to rbn.telegraphy.de:7000...");
    assert_eq!(client.pending(), 3);
    let rest = drain(&mut client);
    assert!(matches!(&rest[1], RbnMessage::RawData { data, .. } if data == "one\n"));
    assert!(matches!(&rest[2], RbnMessage::RawData { data, .. } if data == "two\n"));
    let copy = rest[2].clone();
    assert!(matches!(copy, RbnMessage::RawData { ref data, received: true } if data == "two\n"));
}
