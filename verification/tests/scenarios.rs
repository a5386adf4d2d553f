use rbn_vfd::client::{ConnectionState, LinkAction, RbnClient, RbnMessage};
use rbn_vfd::parser::parse_spot_line;
use rbn_vfd::spot::{AggregatedSpot, RawSpot};
use rbn_vfd::spot_store::SpotStore;

fn drain(client: &mut RbnClient) -> Vec<RbnMessage> {
    let mut all = Vec::new();
    while let Some(message) = client.try_recv() {
        all.push(message);
    }
    all
}

#[test]
fn end_to_end_line_to_display() {
    let line = "DX de W1AW-#: 14033.0 WO6W CW 24 dB 22 WPM\r\n";
    let spot = parse_spot_line(line, 5_000).expect("a spot line");
    assert_eq!(spot.spotter_callsign, "W1AW");
    assert_eq!(spot.spotted_callsign, "WO6W");
    assert_eq!(spot.frequency_hz, 14_033_000);
    assert_eq!(spot.mode, "CW");
    assert_eq!(spot.snr, 24);
    assert_eq!(spot.speed_wpm, 22);
    assert_eq!(spot.timestamp_ms, 5_000);

    let mut store = SpotStore::new(10, 10);
    store.add_spot(spot, 5_000);
    assert_eq!(store.count(), 1);
    let shown = store.get_spots_by_frequency(5_000);
    assert_eq!(shown.len(), 1);
    assert_eq!(shown[0].key(), "WO6W|14033");
    let text = shown[0].to_display_string();
    assert_eq!(text, "14033.0 22 WO6W     ");
    assert_eq!(text.chars().count(), 20);
}

#[test]
fn login_handshake_sends_callsign_once() {
    let mut client = RbnClient::new();
    let open = client.connect("W6JSV".to_string());
    assert!(matches!(open, LinkAction::Open { ref host, port } if host == "rbn.telegraphy.de" && port == 7000));
    assert_eq!(client.state(), ConnectionState::Connecting);
    assert!(matches!(client.on_connected(), LinkAction::Nothing));
    assert_eq!(client.state(), ConnectionState::AwaitingLogin);
    drain(&mut client);

    let action = client.on_data(b"Welcome...Please enter your callsign:", 100);
    match action {
        LinkAction::Send(bytes) => assert_eq!(bytes, b"W6JSV\r\n".to_vec()),
        other => panic!("expected a send, got {:?}", other),
    }
    assert_eq!(client.state(), ConnectionState::LoggedIn);
    let messages = drain(&mut client);
    assert_eq!(messages.len(), 1);
    assert!(matches!(&messages[0], RbnMessage::RawData { data, received: true } if data == "Welcome...Please enter your callsign:"));
    client.on_sent();
    let messages = drain(&mut client);
    assert_eq!(messages.len(), 2);
    assert!(matches!(&messages[0], RbnMessage::RawData { data, received: false } if data == "W6JSV\r\n"));
    assert!(matches!(&messages[1], RbnMessage::Status(text) if text == "Logged in as W6JSV"));
    client.on_sent();
    assert!(drain(&mut client).is_empty());

    let again = client.on_data(b"please enter your callsign:", 200);
    assert!(matches!(again, LinkAction::Nothing));
    assert_eq!(client.state(), ConnectionState::LoggedIn);
    assert!(drain(&mut client).is_empty());
}

#[test]
fn line_without_prefix_gives_nothing() {
    assert!(parse_spot_line("Hello DX de W1AW-#: 14033.0 WO6W CW 24 dB 22 WPM\r\n", 0).is_none());
    assert!(parse_spot_line("\r\n", 0).is_none());
    assert!(parse_spot_line(" DX de W1AW-#: 14033.0 WO6W CW 24 dB 22 WPM\r\n", 0).is_none());
    assert!(parse_spot_line("DX deX DX de W1AW-#: 14033.0 WO6W CW 24 dB 22 WPM\r\n", 0).is_none());
    assert!(parse_spot_line("dx de W1AW-#: 14033.0 WO6W CW 24 dB 22 WPM\r\n", 0).is_none());
    assert!(parse_spot_line("DX de W1AW-#: 14033.0 WO6W CW 24 dB 22 WPM\r\n", 0).is_some());
}

#[test]
fn malformed_spot_line_gives_nothing() {
    assert!(parse_spot_line("DX de W1AW-#: abc WO6W CW 24 dB 22 WPM\r\n", 0).is_none());
    assert!(parse_spot_line("DX de W1AW-#: 14033.0 WO6W CW 24 dB\r\n", 0).is_none());
    assert!(parse_spot_line("DX de W1AW-#: 14033.0 WO6W CW 99999999999 dB 22 WPM\r\n", 0).is_none());
}

#[test]
fn same_spot_repeated_keeps_its_values() {
    let mut store = SpotStore::new(0, 10);
    for i in 0..7u64 {
        let raw = RawSpot::new("K1".to_string(), "N0CALL".to_string(), 7_012_300, 15, 25, "CW".to_string(), i);
        store.add_spot(raw, i);
    }
    let all = store.get_spots_by_recency();
    assert_eq!(all.len(), 1);
    assert_eq!(all[0].spot_count, 7);
    assert_eq!(all[0].average_speed_milli, 25_000);
    assert_eq!(all[0].highest_snr, 15);
    assert_eq!(all[0].frequency_hz, 7_012_300);
    assert_eq!(all[0].last_spotted_ms, 6);
}

#[test]
fn running_mean_moves_by_the_count() {
    let first = RawSpot::new("K1".to_string(), "N0CALL".to_string(), 7_012_000, 15, 20, "CW".to_string(), 0);
    let mut spot = AggregatedSpot::from_raw(&first, 0);
    let second = RawSpot::new("K1".to_string(), "N0CALL".to_string(), 7_012_400, 9, 25, "CW".to_string(), 1);
    spot.update(&second, 1);
    assert_eq!(spot.spot_count, 2);
    assert_eq!(spot.frequency_hz, 7_012_200);
    assert_eq!(spot.average_speed_milli, 22_500);
    assert_eq!(spot.highest_snr, 15);
    assert_eq!(spot.center_khz, 7_012);
    let third = RawSpot::new("K1".to_string(), "N0CALL".to_string(), 7_012_000, 30, 20, "CW".to_string(), 2);
    spot.update(&third, 2);
    assert_eq!(spot.spot_count, 3);
    assert_eq!(spot.frequency_hz, 7_012_134);
    assert_eq!(spot.average_speed_milli, 21_667);
    assert_eq!(spot.highest_snr, 30);
    assert_eq!(spot.to_display_string(), " 7012.1 22 N0CALL   ");
}

#[test]
fn well_formed_lines_give_exactly_their_fields() {
    let spotters = ["W1AW", "K3LR", "DL/OZ7X"];
    let frequencies = [("14033.0", 14_033_000u64), ("7012.3", 7_012_300), ("1810.9", 1_810_900), ("50000.0", 50_000_000)];
    let calls = ["WO6W", "DL1ABC/P", "9A1A"];
    let modes = ["CW", "RTTY", "FT8"];
    let numbers = [("0", 0), ("7", 7), ("24", 24), ("2147483647", i32::MAX)];
    for spotter in spotters {
        for (frequency, hz) in frequencies {
            for call in calls {
                for mode in modes {
                    for (snr_text, snr) in numbers {
                        for (wpm_text, wpm) in numbers {
                            let line = format!(
                                "DX de {}-#: {} {} {} {} dB {} WPM\r\n",
                                spotter, frequency, call, mode, snr_text, wpm_text
                            );
                            let spot = parse_spot_line(&line, 3).expect("a well-formed line");
                            assert_eq!(spot.spotter_callsign, spotter);
                            assert_eq!(spot.frequency_hz, hz);
                            assert_eq!(spot.frequency_hz as f64 / 1000.0, frequency.parse::<f64>().unwrap());
                            assert_eq!(spot.spotted_callsign, call);
                            assert_eq!(spot.mode, mode);
                            assert_eq!(spot.snr, snr);
                            assert_eq!(spot.speed_wpm, wpm);
                            assert_eq!(spot.timestamp_ms, 3);
                        }
                    }
                }
            }
        }
    }
}

#[test]
fn real_feed_lines_with_trailing_columns_are_read() {
    let line = "DX de K3LR-#:    7012.3  DL1ABC         CW     9 dB  31 WPM  CQ      1234Z\r\n";
    let spot = parse_spot_line(line, 0).expect("a feed line");
    assert_eq!(spot.spotter_callsign, "K3LR");
    assert_eq!(spot.frequency_hz, 7_012_300);
    assert_eq!(spot.spotted_callsign, "DL1ABC");
    assert_eq!((spot.snr, spot.speed_wpm), (9, 31));
    assert!(parse_spot_line("DX de K3LR-#: 99999999999999999999.0 DL1ABC CW 9 dB 31 WPM\r\n", 0).is_none());
}
