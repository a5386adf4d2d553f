use rbn_vfd::config::{Config, RadioConfig, StoredSettings};
use rbn_vfd::radio::{
    check_rigctld_response, create_controller, mode_to_omnirig, omnirig_frequency,
    omnirig_rig_number, rig_property_name, rigctld_address, rigctld_frequency_command,
    rigctld_mode_command, Backend, NoOpController, RadioController, RadioError, RadioMode,
};

#[test]
fn mode_tokens_map_to_radio_modes() {
    assert_eq!(RadioMode::from_rbn_mode("CW"), RadioMode::Cw);
    assert_eq!(RadioMode::from_rbn_mode("cw"), RadioMode::Cw);
    assert_eq!(RadioMode::from_rbn_mode("RTTY"), RadioMode::Rtty);
    assert_eq!(RadioMode::from_rbn_mode("rtty"), RadioMode::Rtty);
    for token in ["FT8", "ft4", "PSK31", "psk63", "JT65", "jt9", "WSPR", "Ssb"] {
        assert_eq!(RadioMode::from_rbn_mode(token), RadioMode::Usb, "{}", token);
    }
    assert_eq!(RadioMode::from_rbn_mode(""), RadioMode::Cw);
    assert_eq!(RadioMode::from_rbn_mode("PSK"), RadioMode::Cw);
    assert_eq!(RadioMode::from_rbn_mode("FT8 "), RadioMode::Cw);
    assert_eq!(RadioMode::from_upper("ft8"), RadioMode::Cw);
    assert_eq!(RadioMode::from_upper("FT8"), RadioMode::Usb);
}

#[test]
fn modes_have_their_rigctld_names() {
    let names = [
        (RadioMode::Cw, "CW"),
        (RadioMode::CwReverse, "CWR"),
        (RadioMode::Usb, "USB"),
        (RadioMode::Lsb, "LSB"),
        (RadioMode::Rtty, "RTTY"),
        (RadioMode::RttyReverse, "RTTYR"),
        (RadioMode::Am, "AM"),
        (RadioMode::Fm, "FM"),
        (RadioMode::Data, "PKTUSB"),
    ];
    for (mode, name) in names {
        assert_eq!(mode.to_rigctld_mode(), name);
    }
}

#[test]
fn modes_have_their_omnirig_numbers() {
    assert_eq!(mode_to_omnirig(RadioMode::Cw), 0x0080_0000);
    assert_eq!(mode_to_omnirig(RadioMode::CwReverse), 0x0100_0000);
    assert_eq!(mode_to_omnirig(RadioMode::Usb), 0x0200_0000);
    assert_eq!(mode_to_omnirig(RadioMode::Lsb), 0x0400_0000);
    assert_eq!(mode_to_omnirig(RadioMode::Rtty), 0x0800_0000);
    assert_eq!(mode_to_omnirig(RadioMode::Data), 0x0800_0000);
    assert_eq!(mode_to_omnirig(RadioMode::RttyReverse), 0x1000_0000);
    assert_eq!(mode_to_omnirig(RadioMode::Am), 0x2000_0000);
    assert_eq!(mode_to_omnirig(RadioMode::Fm), 0x4000_0000);
}

#[test]
fn omnirig_takes_the_first_or_second_rig() {
    assert_eq!(omnirig_rig_number(0), 1);
    assert_eq!(omnirig_rig_number(1), 1);
    assert_eq!(omnirig_rig_number(2), 2);
    assert_eq!(omnirig_rig_number(200), 2);
    assert_eq!(rig_property_name(1), "Rig1");
    assert_eq!(rig_property_name(2), "Rig2");
    assert_eq!(rig_property_name(7), "Rig1");
    assert_eq!(omnirig_frequency(14_033_000), 14_033_000);
    assert_eq!(omnirig_frequency(2_147_483_647), i32::MAX);
    assert_eq!(omnirig_frequency(2_147_483_648), i32::MAX);
}

#[test]
fn every_error_has_its_sentence() {
    assert_eq!(RadioError::NotConnected.message(), "Radio not connected");
    assert_eq!(RadioError::ConnectionFailed("no route".to_string()).message(), "Connection failed: no route");
    assert_eq!(RadioError::CommandFailed("bad".to_string()).message(), "Command failed: bad");
    assert_eq!(RadioError::Timeout.message(), "Radio not responding");
    assert_eq!(RadioError::NotConfigured.message(), "Radio not configured");
    let copy = RadioError::CommandFailed("bad".to_string()).clone();
    assert_eq!(copy.message(), "Command failed: bad");
}

#[test]
fn no_op_controller_is_never_configured() {
    let mut radio = NoOpController::new();
    assert!(!radio.is_connected());
    assert!(matches!(radio.connect(), Err(RadioError::NotConfigured)));
    assert!(matches!(radio.tune(14_033_000, RadioMode::Cw), Err(RadioError::NotConfigured)));
    radio.disconnect();
    assert!(!radio.is_connected());
    assert_eq!(radio.backend_name(), "None");
    assert_eq!(NoOpController::default().backend_name(), "None");
}

#[test]
fn rigctld_commands_are_spelled_out() {
    assert_eq!(rigctld_frequency_command(14_033_000), "F 14033000");
    assert_eq!(rigctld_frequency_command(0), "F 0");
    assert_eq!(rigctld_mode_command(RadioMode::Cw), "M CW 0");
    assert_eq!(rigctld_mode_command(RadioMode::Data), "M PKTUSB 0");
    assert_eq!(rigctld_address("localhost", 4532), "localhost:4532");
}

#[test]
fn rigctld_responses_are_judged_by_their_code() {
    assert_eq!(check_rigctld_response("RPRT 0\n").unwrap(), "RPRT 0");
    assert_eq!(check_rigctld_response("  14033000 \r\n").unwrap(), "14033000");
    assert_eq!(check_rigctld_response("").unwrap(), "");
    assert_eq!(check_rigctld_response("RPRT").unwrap(), "RPRT");
    assert_eq!(check_rigctld_response("RPRT x\n").unwrap(), "RPRT x");
    assert_eq!(check_rigctld_response("RPRT\t+0 trailing\n").unwrap(), "RPRT\t+0 trailing");
    match check_rigctld_response("RPRT -1\n") {
        Err(RadioError::CommandFailed(text)) => assert_eq!(text, "rigctld error code: -1"),
        other => panic!("expected a failure, got {:?}", other),
    }
    match check_rigctld_response(" RPRT   11   more\n") {
        Err(RadioError::CommandFailed(text)) => assert_eq!(text, "rigctld error code: 11"),
        other => panic!("expected a failure, got {:?}", other),
    }
    match check_rigctld_response("RPRTX 5\n") {
        Err(RadioError::CommandFailed(text)) => assert_eq!(text, "rigctld error code: 5"),
        other => panic!("expected a failure, got {:?}", other),
    }
}

#[test]
fn backend_follows_the_settings() {
    let mut config = RadioConfig::defaults(false);
    assert!(matches!(create_controller(&config, false), Backend::NoOp));
    assert!(matches!(create_controller(&config, true), Backend::NoOp));
    config.enabled = true;
    config.rigctld_host = "radio.local".to_string();
    config.rigctld_port = 4533;
    config.backend = "anything".to_string();
    assert!(matches!(create_controller(&config, false), Backend::Rigctld { ref host, port: 4533 } if host == "radio.local"));
    assert!(matches!(create_controller(&config, true), Backend::NoOp));
    config.backend = "rigctld".to_string();
    assert!(matches!(create_controller(&config, true), Backend::Rigctld { ref host, port: 4533 } if host == "radio.local"));
    config.backend = "omnirig".to_string();
    config.omnirig_rig = 9;
    assert!(matches!(create_controller(&config, true), Backend::OmniRig { rig: 2 }));
    assert!(matches!(create_controller(&config, false), Backend::Rigctld { .. }));
}

#[test]
fn defaults_depend_on_the_platform_only_in_the_backend() {
    let here = Config::defaults(false);
    assert_eq!(here.callsign, "");
    assert_eq!(here.serial_port, "");
    assert_eq!(here.min_snr, 10);
    assert_eq!(here.max_age_minutes, 10);
    assert_eq!(here.scroll_interval_seconds, 3);
    assert_eq!(here.random_char_percent, 20);
    assert!(!here.radio.enabled);
    assert_eq!(here.radio.backend, "rigctld");
    assert_eq!(here.radio.rigctld_host, "localhost");
    assert_eq!(here.radio.rigctld_port, 4532);
    assert_eq!(here.radio.omnirig_rig, 1);
    assert_eq!(Config::defaults(true).radio.backend, "omnirig");
    assert_eq!(RadioConfig::defaults(true).backend, "omnirig");
}

#[test]
fn reset_keeps_callsign_port_and_radio() {
    let mut config = Config::defaults(false);
    config.callsign = "W6JSV".to_string();
    config.serial_port = "COM3".to_string();
    config.min_snr = 25;
    config.max_age_minutes = 30;
    config.scroll_interval_seconds = 9;
    config.random_char_percent = 77;
    config.radio.enabled = true;
    config.radio.rigctld_port = 1;
    config.reset_to_defaults();
    assert_eq!(config.callsign, "W6JSV");
    assert_eq!(config.serial_port, "COM3");
    assert_eq!(config.min_snr, 10);
    assert_eq!(config.max_age_minutes, 10);
    assert_eq!(config.scroll_interval_seconds, 3);
    assert_eq!(config.random_char_percent, 20);
    assert!(config.radio.enabled);
    assert_eq!(config.radio.rigctld_port, 1);
}

fn nothing_stored() -> StoredSettings {
    StoredSettings {
        callsign: None,
        serial_port: None,
        min_snr: None,
        max_age_minutes: None,
        scroll_interval_seconds: None,
        random_char_percent: None,
        radio_enabled: None,
        radio_backend: None,
        rigctld_host: None,
        rigctld_port: None,
        omnirig_rig: None,
    }
}

#[test]
fn missing_entries_fall_back_to_defaults() {
    let config = Config::from_stored(&nothing_stored(), false);
    let defaults = Config::defaults(false);
    assert_eq!(format!("{:?}", config), format!("{:?}", defaults));
    let config = Config::from_stored(&nothing_stored(), true);
    assert_eq!(config.radio.backend, "omnirig");
}

#[test]
fn stored_entries_are_taken_and_cut_to_width() {
    let mut stored = nothing_stored();
    stored.callsign = Some("W6JSV".to_string());
    stored.serial_port = Some("/dev/ttyUSB1".to_string());
    stored.min_snr = Some(-5);
    stored.max_age_minutes = Some(4_294_967_296 + 15);
    stored.scroll_interval_seconds = Some(-1);
    stored.random_char_percent = Some(55);
    stored.radio_enabled = Some(true);
    stored.radio_backend = Some("omnirig".to_string());
    stored.rigctld_host = Some("10.0.0.2".to_string());
    stored.rigctld_port = Some(65_536 + 4_000);
    stored.omnirig_rig = Some(258);
    let config = Config::from_stored(&stored, false);
    assert_eq!(config.callsign, "W6JSV");
    assert_eq!(config.serial_port, "/dev/ttyUSB1");
    assert_eq!(config.min_snr, -5);
    assert_eq!(config.max_age_minutes, 15);
    assert_eq!(config.scroll_interval_seconds, u32::MAX);
    assert_eq!(config.random_char_percent, 55);
    assert!(config.radio.enabled);
    assert_eq!(config.radio.backend, "omnirig");
    assert_eq!(config.radio.rigctld_host, "10.0.0.2");
    assert_eq!(config.radio.rigctld_port, 4_000);
    assert_eq!(config.radio.omnirig_rig, 2);
}

#[test]
fn settings_are_written_entry_by_entry() {
    let mut config = Config::defaults(false);
    config.callsign = "W6JSV".to_string();
    config.serial_port = "COM3".to_string();
    config.min_snr = -3;
    config.radio.enabled = true;
    let entries: Vec<(String, String, String)> = config
        .to_entries()
        .into_iter()
        .map(|e| (e.section, e.key, e.value))
        .collect();
    let expected = [
        ("connection", "callsign", "W6JSV"),
        ("display", "serial_port", "COM3"),
        ("filters", "min_snr", "-3"),
        ("filters", "max_age_minutes", "10"),
        ("filters", "scroll_interval_seconds", "3"),
        ("display", "random_char_percent", "20"),
        ("radio", "enabled", "true"),
        ("radio", "backend", "rigctld"),
        ("radio", "rigctld_host", "localhost"),
        ("radio", "rigctld_port", "4532"),
        ("radio", "omnirig_rig", "1"),
    ];
    assert_eq!(entries.len(), expected.len());
    for (got, want) in entries.iter().zip(expected.iter()) {
        assert_eq!((got.0.as_str(), got.1.as_str(), got.2.as_str()), *want);
    }
}
