use rbn_vfd::numeral::parse_i32;
use rbn_vfd::parser::{parse_khz, spot_from_captures, strip_spotter_marks};
use rbn_vfd::spot::{round_to_khz, step_mean_i64, step_mean_u64, AggregatedSpot, RawSpot};

fn raw(call: &str, hz: u64, snr: i32, wpm: i32) -> RawSpot {
    RawSpot::new("W1AW".to_string(), call.to_string(), hz, snr, wpm, "CW".to_string(), 0)
}

fn chars(s: &str) -> Vec<char> {
    s.chars().collect()
}

#[test]
fn raw_spot_keeps_its_fields() {
    let spot = RawSpot::new(
        "W1AW".to_string(),
        "WO6W".to_string(),
        14_033_000,
        24,
        22,
        "CW".to_string(),
        77,
    );
    assert_eq!(spot.spotter_callsign, "W1AW");
    assert_eq!(spot.spotted_callsign, "WO6W");
    assert_eq!(spot.frequency_hz, 14_033_000);
    assert_eq!(spot.snr, 24);
    assert_eq!(spot.speed_wpm, 22);
    assert_eq!(spot.mode, "CW");
    assert_eq!(spot.timestamp_ms, 77);
    let copy = spot.clone();
    assert_eq!(copy.spotted_callsign, "WO6W");
    assert_eq!(copy.timestamp_ms, 77);
}

#[test]
fn first_report_seeds_the_summary() {
    let spot = AggregatedSpot::from_raw(&raw("WO6W", 14_033_600, 24, 22), 1234);
    assert_eq!(spot.callsign, "WO6W");
    assert_eq!(spot.frequency_hz, 14_033_600);
    assert_eq!(spot.center_khz, 14_034);
    assert_eq!(spot.highest_snr, 24);
    assert_eq!(spot.average_speed_milli, 22_000);
    assert_eq!(spot.spot_count, 1);
    assert_eq!(spot.last_spotted_ms, 1234);
    assert_eq!(spot.mode, "CW");
    assert_eq!(spot.key(), "WO6W|14034");
}

#[test]
fn rounding_to_kilohertz_takes_halves_up() {
    assert_eq!(round_to_khz(14_033_499), 14_033);
    assert_eq!(round_to_khz(14_033_500), 14_034);
    assert_eq!(round_to_khz(0), 0);
    assert_eq!(round_to_khz(u64::MAX), u64::MAX / 1000 + 1);
}

#[test]
fn running_mean_cuts_toward_zero() {
    assert_eq!(step_mean_u64(100, 200, 3), 133);
    assert_eq!(step_mean_u64(200, 100, 3), 167);
    assert_eq!(step_mean_u64(5, 5, 9), 5);
    assert_eq!(step_mean_u64(0, u64::MAX, 1), u64::MAX);
    assert_eq!(step_mean_i64(-100, 100, 3), -34);
    assert_eq!(step_mean_i64(100, -100, 3), 34);
    assert_eq!(step_mean_i64(i64::MIN, i64::MAX, 1), i64::MAX);
    assert_eq!(step_mean_i64(i64::MAX, i64::MIN, 2), 0);
}

#[test]
fn highest_snr_never_falls() {
    let mut spot = AggregatedSpot::from_raw(&raw("K1ABC", 7_000_000, 12, 20), 0);
    spot.update(&raw("K1ABC", 7_000_000, 5, 20), 1);
    assert_eq!(spot.highest_snr, 12);
    spot.update(&raw("K1ABC", 7_000_000, 40, 20), 2);
    assert_eq!(spot.highest_snr, 40);
    spot.update(&raw("K1ABC", 7_000_000, -3, 20), 3);
    assert_eq!(spot.highest_snr, 40);
    assert_eq!(spot.spot_count, 4);
    assert_eq!(spot.last_spotted_ms, 3);
}

#[test]
fn count_stops_at_the_largest_value() {
    let mut spot = AggregatedSpot::from_raw(&raw("K1ABC", 7_000_000, 12, 20), 0);
    spot.spot_count = u32::MAX;
    spot.update(&raw("K1ABC", 7_000_400, 12, 30), 1);
    assert_eq!(spot.spot_count, u32::MAX);
    assert_eq!(spot.frequency_hz, 7_000_000);
}

#[test]
fn age_is_counted_from_the_last_report() {
    let spot = AggregatedSpot::from_raw(&raw("K1ABC", 7_000_000, 12, 20), 10_000);
    assert_eq!(spot.age_seconds(10_000), 0);
    assert_eq!(spot.age_seconds(12_999), 2);
    assert_eq!(spot.age_seconds(13_000), 3);
    assert_eq!(spot.age_seconds(5), 0);
    assert_eq!(spot.age_fraction(10_000, 600_000), 0);
    assert_eq!(spot.age_fraction(310_000, 600_000), 500);
    assert_eq!(spot.age_fraction(610_000, 600_000), 1000);
    assert_eq!(spot.age_fraction(900_000, 600_000), 1000);
    assert_eq!(spot.age_fraction(10_000, 0), 1000);
    assert_eq!(spot.age_fraction(10_001, 3), 333);
}

#[test]
fn display_line_has_twenty_characters() {
    let spot = AggregatedSpot::from_raw(&raw("WO6W", 14_033_000, 24, 22), 0);
    assert_eq!(spot.to_display_string(), "14033.0 22 WO6W     ");
    let low = AggregatedSpot::from_raw(&raw("VERYLONGCALLSIGN", 1_810_050, 24, 7), 0);
    assert_eq!(low.to_display_string(), " 1810.1  7 VERYLONGC");
    assert_eq!(low.to_display_string().chars().count(), 20);
    let tiny = AggregatedSpot::from_raw(&raw("A", 0, 0, 0), 0);
    assert_eq!(tiny.to_display_string(), "    0.0  0 A        ");
}

#[test]
fn display_line_grows_with_values_too_wide() {
    let high = AggregatedSpot::from_raw(&raw("K1ABC", 144_174_000, 24, 120), 0);
    assert_eq!(high.to_display_string(), "144174.0 120 K1ABC    ");
    let negative = AggregatedSpot::from_raw(&raw("K1ABC", 7_000_000, 24, -12), 0);
    assert_eq!(negative.to_display_string(), " 7000.0 -12 K1ABC    ");
}

#[test]
fn display_speed_rounds_halves_away_from_zero() {
    let mut spot = AggregatedSpot::from_raw(&raw("K1ABC", 7_000_000, 24, 22), 0);
    spot.average_speed_milli = 22_499;
    assert_eq!(spot.to_display_string(), " 7000.0 22 K1ABC    ");
    spot.average_speed_milli = 22_500;
    assert_eq!(spot.to_display_string(), " 7000.0 23 K1ABC    ");
    spot.average_speed_milli = -2_500;
    assert_eq!(spot.to_display_string(), " 7000.0 -3 K1ABC    ");
    spot.average_speed_milli = -2_499;
    assert_eq!(spot.to_display_string(), " 7000.0 -2 K1ABC    ");
    spot.average_speed_milli = i64::MAX;
    assert_eq!(spot.to_display_string(), " 7000.0 2147483647 K1ABC    ");
}

#[test]
fn signed_integers_are_read_as_std_reads_them() {
    for text in ["0", "7", "+7", "-7", "0007", "2147483647", "-2147483648", "2147483648",
        "-2147483649", "", "+", "-", "1a", " 1", "1 ", "--1", "99999999999999999999999"] {
        assert_eq!(parse_i32(&chars(text)), text.parse::<i32>().ok(), "{:?}", text);
    }
}

#[test]
fn kilohertz_are_read_into_hertz() {
    assert_eq!(parse_khz(&chars("14033.0")), Some(14_033_000));
    assert_eq!(parse_khz(&chars("14033")), Some(14_033_000));
    assert_eq!(parse_khz(&chars("14033.")), Some(14_033_000));
    assert_eq!(parse_khz(&chars("7012.35")), Some(7_012_350));
    assert_eq!(parse_khz(&chars("7012.3519")), Some(7_012_351));
    assert_eq!(parse_khz(&chars("0.001")), Some(1));
    assert_eq!(parse_khz(&chars("18446744073709551.615")), Some(u64::MAX));
    assert_eq!(parse_khz(&chars("18446744073709551.616")), None);
    assert_eq!(parse_khz(&chars("99999999999999999999")), None);
    assert_eq!(parse_khz(&chars("")), None);
    assert_eq!(parse_khz(&chars(".5")), None);
    assert_eq!(parse_khz(&chars("1.2.3")), None);
    assert_eq!(parse_khz(&chars("1,5")), None);
    assert_eq!(parse_khz(&chars("12a")), None);
}

#[test]
fn spotter_marks_are_cut_from_the_end_only() {
    assert_eq!(strip_spotter_marks(&chars("W1AW-#")), chars("W1AW"));
    assert_eq!(strip_spotter_marks(&chars("W1AW-#:-")), chars("W1AW"));
    assert_eq!(strip_spotter_marks(&chars("W1-AW")), chars("W1-AW"));
    assert_eq!(strip_spotter_marks(&chars("#-:")), chars(""));
    assert_eq!(strip_spotter_marks(&chars("")), chars(""));
}

#[test]
fn captured_groups_become_a_spot() {
    let groups: Vec<Option<String>> = ["K3LR-#", "7012.3", "DL1ABC", "RTTY", "9", "31"]
        .iter()
        .map(|g| Some(g.to_string()))
        .collect();
    let spot = spot_from_captures(&groups, 42).expect("six readable groups");
    assert_eq!(spot.spotter_callsign, "K3LR");
    assert_eq!(spot.frequency_hz, 7_012_300);
    assert_eq!(spot.spotted_callsign, "DL1ABC");
    assert_eq!(spot.mode, "RTTY");
    assert_eq!(spot.snr, 9);
    assert_eq!(spot.speed_wpm, 31);
    assert_eq!(spot.timestamp_ms, 42);

    let mut missing = groups.clone();
    missing[2] = None;
    assert!(spot_from_captures(&missing, 0).is_none());
    let mut short = groups.clone();
    short.pop();
    assert!(spot_from_captures(&short, 0).is_none());
    let mut bad_number = groups.clone();
    bad_number[4] = Some("x".to_string());
    assert!(spot_from_captures(&bad_number, 0).is_none());
    let mut bad_frequency = groups.clone();
    bad_frequency[1] = Some("7.0.1".to_string());
    assert!(spot_from_captures(&bad_frequency, 0).is_none());
}

#[test]
fn display_line_agrees_with_float_formatting() {
    let calls = ["A", "WO6W", "DL1ABC/P", "VERYLONGCALL"];
    let frequencies: [u64; 7] = [0, 100, 1_810_000, 7_012_300, 14_033_000, 28_499_900, 144_174_000];
    let speeds: [i32; 6] = [-12, 0, 7, 22, 99, 120];
    for call in calls {
        for hz in frequencies {
            for wpm in speeds {
                let spot = AggregatedSpot::from_raw(&raw(call, hz, 10, wpm), 0);
                let shown: String = call.chars().take(9).collect();
                let expected = format!("{:7.1} {:2} {:<9}", hz as f64 / 1000.0, (wpm as f64).round() as i32, shown);
                assert_eq!(spot.to_display_string(), expected);
            }
        }
    }
}

#[test]
fn running_means_agree_with_float_means_on_exact_values() {
    let mut spot = AggregatedSpot::from_raw(&raw("K1ABC", 7_000_000, 10, 10), 0);
    let mut mean_khz = 7_000.0f64;
    let mut mean_wpm = 10.0f64;
    let samples: [(u64, i32); 3] = [(7_000_400, 30), (7_000_800, 20), (7_000_400, 20)];
    let mut count = 1.0f64;
    for (hz, wpm) in samples {
        spot.update(&raw("K1ABC", hz, 10, wpm), 0);
        count += 1.0;
        mean_khz += (hz as f64 / 1000.0 - mean_khz) / count;
        mean_wpm += (wpm as f64 - mean_wpm) / count;
    }
    assert_eq!(spot.frequency_hz, 7_000_400);
    assert_eq!(spot.average_speed_milli, 20_000);
    assert!((mean_khz - 7_000.4).abs() < 1e-9);
    assert!((mean_wpm - 20.0).abs() < 1e-9);
    assert_eq!(spot.spot_count, 4);
}
