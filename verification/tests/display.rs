use rbn_vfd::spot::{AggregatedSpot, RawSpot};
use rbn_vfd::vfd_display::{format_line, frame, random_glyph, Glyph, VfdDisplay};

fn spot(call: &str, hz: u64) -> AggregatedSpot {
    let raw = RawSpot::new("W1AW".to_string(), call.to_string(), hz, 20, 22, "CW".to_string(), 0);
    AggregatedSpot::from_raw(&raw, 0)
}

fn opened(now_ms: u64) -> VfdDisplay {
    let mut display = VfdDisplay::new(now_ms);
    assert_eq!(display.open("/dev/ttyUSB0"), vec![0x0C]);
    display
}

fn shown(bytes: &[u8]) -> (String, String) {
    assert_eq!(bytes.len(), 41);
    assert_eq!(bytes[0], 0x0C);
    (
        String::from_utf8(bytes[1..21].to_vec()).unwrap(),
        String::from_utf8(bytes[21..41].to_vec()).unwrap(),
    )
}

const GLYPH: Glyph = Glyph { character: 'Q', col: 3, row: 1 };

#[test]
fn lines_are_filled_or_cut_to_twenty() {
    assert_eq!(format_line(""), "                    ");
    assert_eq!(format_line("abc"), "abc                 ");
    assert_eq!(format_line("12345678901234567890"), "12345678901234567890");
    assert_eq!(format_line("12345678901234567890123"), "12345678901234567890");
    assert_eq!(format_line("\u{e9}t\u{e9}"), "\u{e9}t\u{e9}                 ");
}

#[test]
fn frame_is_clear_then_two_lines() {
    let bytes = frame("14033.0 22 WO6W", "");
    assert_eq!(bytes.len(), 41);
    assert_eq!(bytes[0], 0x0C);
    assert_eq!(&bytes[1..21], b"14033.0 22 WO6W     ");
    assert_eq!(&bytes[21..], b"                    ");
}

#[test]
fn frame_sends_one_byte_for_each_place() {
    let bytes = frame("\u{e9}t\u{e9} 14033.0 22 WO6W \u{3b1}\u{3b2}\u{3b3}", "\u{1f600}");
    assert_eq!(bytes.len(), 41);
    assert_eq!(&bytes[1..21], b"?t? 14033.0 22 WO6W ");
    assert_eq!(&bytes[21..], b"?                   ");
}

#[test]
fn glyphs_are_drawn_from_all_thirty_six() {
    let mut seen = std::collections::BTreeSet::new();
    for _ in 0..5_000 {
        seen.insert(random_glyph().character);
    }
    assert_eq!(seen.len(), 36);
}

#[test]
fn new_display_is_closed_with_defaults() {
    let display = VfdDisplay::new(5);
    assert!(!display.is_open());
    assert_eq!(display.port_name(), "");
    assert_eq!(display.random_char_percent(), 20);
    assert!(!display.is_in_random_mode());
    assert_eq!(display.get_preview(), [String::new(), String::new()]);
}

#[test]
fn closed_display_ignores_ticks() {
    let mut display = VfdDisplay::new(0);
    assert!(display.tick(&[spot("A", 1)], 10_000, 0, GLYPH).is_none());
    assert!(display.update(&[], 10_000, 0).is_none());
    assert_eq!(display.get_preview(), [String::new(), String::new()]);
    assert!(display.clear().is_empty());
    assert!(display.close().is_empty());
}

#[test]
fn open_and_close_clear_the_display() {
    let mut display = VfdDisplay::new(0);
    assert_eq!(display.open("COM3"), vec![0x0C]);
    assert!(display.is_open());
    assert_eq!(display.port_name(), "COM3");
    assert_eq!(display.clear(), vec![0x0C]);
    assert_eq!(display.close(), vec![0x0C]);
    assert!(!display.is_open());
    assert_eq!(display.port_name(), "");
}

#[test]
fn rotation_waits_for_the_interval() {
    let mut display = opened(1_000);
    let spots = [spot("A", 7_000_000)];
    assert!(display.tick(&spots, 1_000, 0, GLYPH).is_none());
    assert!(display.tick(&spots, 3_999, 0, GLYPH).is_none());
    let bytes = display.tick(&spots, 4_000, 0, GLYPH).expect("due");
    assert_eq!(shown(&bytes), (" 7000.0 22 A        ".to_string(), "                    ".to_string()));
    assert_eq!(display.get_preview(), [" 7000.0 22 A        ".to_string(), String::new()]);
    assert!(display.tick(&spots, 6_999, 0, GLYPH).is_none());
    assert!(display.tick(&spots, 100, 0, GLYPH).is_none());
    assert!(display.tick(&spots, 7_000, 0, GLYPH).is_some());
}

#[test]
fn interval_of_zero_advances_every_tick() {
    let mut display = opened(1_000);
    display.set_scroll_interval(0);
    let spots = [spot("A", 7_000_000)];
    assert!(display.tick(&spots, 1_000, 0, GLYPH).is_some());
    assert!(display.tick(&spots, 1_000, 0, GLYPH).is_some());
    assert!(display.tick(&spots, 5, 0, GLYPH).is_some());
}

#[test]
fn two_spots_fill_both_lines() {
    let mut display = opened(0);
    let spots = [spot("A", 7_000_000), spot("B", 7_001_000)];
    for round in 1..4u64 {
        let bytes = display.tick(&spots, round * 3_000, 0, GLYPH).expect("due");
        assert_eq!(shown(&bytes), (" 7000.0 22 A        ".to_string(), " 7001.0 22 B        ".to_string()));
    }
}

#[test]
fn rotation_shows_every_spot_and_its_successor() {
    let mut display = opened(0);
    display.set_scroll_interval(1);
    let calls = ["A", "B", "C", "D", "E"];
    let spots: Vec<AggregatedSpot> = calls.iter().enumerate().map(|(i, c)| spot(c, 7_000_000 + i as u64 * 1_000)).collect();
    let mut firsts = Vec::new();
    for round in 1..=10u64 {
        let bytes = display.tick(&spots, round * 1_000, 0, GLYPH).expect("due");
        let (first, second) = shown(&bytes);
        let at = calls.iter().position(|c| first.ends_with(&format!("{:<9}", c))).unwrap();
        let next = calls.iter().position(|c| second.ends_with(&format!("{:<9}", c))).unwrap();
        assert_eq!(next, (at + 1) % calls.len());
        assert_eq!(at, ((round - 1) % 5) as usize);
        firsts.push(at);
    }
    for window in firsts.windows(5) {
        let mut seen = window.to_vec();
        seen.sort();
        assert_eq!(seen, vec![0, 1, 2, 3, 4]);
    }
}

#[test]
fn rotation_keeps_its_place_when_the_list_shrinks() {
    let mut display = opened(0);
    display.set_scroll_interval(1);
    let five: Vec<AggregatedSpot> = ["A", "B", "C", "D", "E"].iter().map(|c| spot(c, 7_000_000)).collect();
    for round in 1..=4u64 {
        display.tick(&five, round * 1_000, 0, GLYPH);
    }
    let three = &five[..3];
    let bytes = display.tick(three, 5_000, 0, GLYPH).expect("due");
    let (first, second) = shown(&bytes);
    assert!(first.ends_with("B        "));
    assert!(second.ends_with("C        "));
}

#[test]
fn idle_glyph_blinks_with_the_duty_cycle() {
    let mut display = opened(0);
    let on = display.tick(&[], 0, 5_000, GLYPH).expect("glyph falls due");
    assert_eq!(shown(&on), ("                    ".to_string(), "   Q                ".to_string()));
    assert!(display.tick(&[], 100, 5_100, GLYPH).is_none());
    assert!(display.tick(&[], 199, 5_199, GLYPH).is_none());
    let off = display.tick(&[], 200, 5_200, GLYPH).expect("glyph goes off");
    assert_eq!(off, vec![0x0C]);
    assert_eq!(display.get_preview(), [String::new(), String::new()]);
    assert!(display.tick(&[], 900, 5_900, GLYPH).is_none());
    let other = Glyph { character: '7', col: 19, row: 0 };
    let on = display.tick(&[], 1_000, 6_000, other).expect("next second");
    assert_eq!(shown(&on), ("                   7".to_string(), "                    ".to_string()));
    assert_eq!(display.get_preview(), ["                   7".to_string(), "                    ".to_string()]);
}

#[test]
fn glyph_is_kept_within_one_second() {
    let mut display = opened(0);
    display.set_random_char_percent(50);
    assert!(display.tick(&[], 0, 7_600, GLYPH).is_none());
    let other = Glyph { character: 'Z', col: 0, row: 0 };
    assert!(display.tick(&[], 0, 7_700, other).is_none());
    let on = display.tick(&[], 0, 8_000, other).expect("due");
    assert_eq!(shown(&on).0, "Z                   ");
    display.tick(&[], 0, 8_600, other);
    let on = display.tick(&[], 0, 8_100, GLYPH).expect("due again in the same second");
    assert_eq!(shown(&on).0, "Z                   ");
}

#[test]
fn duty_cycle_of_zero_never_shows_and_hundred_never_hides() {
    let mut never = opened(0);
    never.set_random_char_percent(0);
    for ms in [0u64, 1, 500, 999, 1_000, 1_001] {
        assert!(never.tick(&[], ms, ms, GLYPH).is_none());
    }
    let mut always = opened(0);
    always.set_random_char_percent(250);
    assert_eq!(always.random_char_percent(), 100);
    assert!(always.tick(&[], 0, 999, GLYPH).is_some());
    for ms in [0u64, 500, 999, 1_000, 1_999, 2_500] {
        assert!(always.tick(&[], ms, ms, GLYPH).is_none());
    }
}

#[test]
fn forced_idle_mode_overrides_spots() {
    let mut display = opened(0);
    display.set_force_random_mode(true);
    assert!(display.is_in_random_mode());
    let spots = [spot("A", 7_000_000)];
    let bytes = display.tick(&spots, 10_000, 5_000, GLYPH).expect("glyph");
    assert_eq!(shown(&bytes).1, "   Q                ");
    display.set_force_random_mode(false);
    assert!(display.tick(&spots, 10_001, 5_001, GLYPH).is_none());
    let bytes = display.tick(&spots, 13_001, 5_001, GLYPH).expect("interval after the switch");
    assert_eq!(shown(&bytes).0, " 7000.0 22 A        ");
}

#[test]
fn change_of_mode_restarts_the_interval_and_keeps_the_place() {
    let mut display = opened(0);
    display.set_scroll_interval(1);
    let spots: Vec<AggregatedSpot> = ["A", "B", "C"].iter().map(|c| spot(c, 7_000_000)).collect();
    display.tick(&spots, 1_000, 0, GLYPH);
    display.tick(&spots, 2_000, 0, GLYPH);
    display.set_random_char_percent(0);
    assert!(display.tick(&[], 10_000, 0, GLYPH).is_none());
    assert!(display.tick(&spots, 20_000, 0, GLYPH).is_none());
    assert!(display.tick(&spots, 20_999, 0, GLYPH).is_none());
    let bytes = display.tick(&spots, 21_000, 0, GLYPH).expect("due");
    assert!(shown(&bytes).0.ends_with("C        "));
}

#[test]
fn update_draws_a_valid_glyph() {
    for round in 0..200u64 {
        let mut display = opened(0);
        display.set_random_char_percent(100);
        let bytes = display.update(&[], 0, (round + 1) * 1_000).expect("glyph falls due");
        let (first, second) = shown(&bytes);
        let all: Vec<char> = first.chars().chain(second.chars()).collect();
        let glyphs: Vec<&char> = all.iter().filter(|c| **c != ' ').collect();
        assert_eq!(glyphs.len(), 1);
        assert!(glyphs[0].is_ascii_uppercase() || glyphs[0].is_ascii_digit());
        let g = random_glyph();
        assert!(g.col < 20 && g.row < 2);
        assert!(g.character.is_ascii_uppercase() || g.character.is_ascii_digit());
    }
}

#[test]
fn update_rotates_like_tick() {
    let mut display = opened(0);
    let spots = [spot("A", 7_000_000), spot("B", 7_001_000)];
    assert!(display.update(&spots, 2_999, 0).is_none());
    let bytes = display.update(&spots, 3_000, 0).expect("due");
    assert_eq!(shown(&bytes), (" 7000.0 22 A        ".to_string(), " 7001.0 22 B        ".to_string()));
}
