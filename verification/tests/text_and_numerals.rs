use rbn_vfd::numeral::{char_to_digit, digit_to_char, push_decimal, push_signed_decimal};
use rbn_vfd::text::{
    chars_of, is_white_space, push_all, push_padded_left, push_padded_right, push_spaces,
    push_str, slice_chars, starts_with, string_of, text_less, trim, trim_end, trim_start,
    truncate_chars,
};

fn chars(s: &str) -> Vec<char> {
    s.chars().collect()
}

fn text(v: &Vec<char>) -> String {
    v.iter().collect()
}

#[test]
fn strings_and_characters_convert_both_ways() {
    assert_eq!(chars_of("d\u{e9}j\u{e0} vu"), chars("d\u{e9}j\u{e0} vu"));
    assert_eq!(chars_of(""), Vec::<char>::new());
    assert_eq!(string_of(&chars("W6JSV\r\n")), "W6JSV\r\n");
    assert_eq!(string_of(&Vec::new()), "");
}

#[test]
fn pushing_appends() {
    let mut out = chars("ab");
    push_all(&mut out, &chars("cd"));
    push_str(&mut out, "ef");
    push_spaces(&mut out, 3);
    assert_eq!(text(&out), "abcdef   ");
}

#[test]
fn padding_fills_to_the_width_and_never_cuts() {
    let mut out = Vec::new();
    push_padded_left(&mut out, &chars("22"), 5);
    assert_eq!(text(&out), "   22");
    push_padded_left(&mut out, &chars("123456"), 5);
    assert_eq!(text(&out), "   22123456");
    let mut out = Vec::new();
    push_padded_right(&mut out, &chars("WO6W"), 9);
    assert_eq!(text(&out), "WO6W     ");
    push_padded_right(&mut out, &chars("0123456789"), 9);
    assert_eq!(text(&out), "WO6W     0123456789");
}

#[test]
fn truncation_and_slices() {
    assert_eq!(truncate_chars(&chars("VERYLONGCALLSIGN"), 9), chars("VERYLONGC"));
    assert_eq!(truncate_chars(&chars("WO6W"), 9), chars("WO6W"));
    assert_eq!(truncate_chars(&chars("WO6W"), 0), chars(""));
    assert_eq!(slice_chars(&chars("hello"), 1, 4), chars("ell"));
    assert_eq!(slice_chars(&chars("hello"), 5, 5), chars(""));
}

#[test]
fn prefixes_are_found_as_std_finds_them() {
    let haystacks = ["", "a", "DX de W1AW", "DX d", "aaab"];
    let needles = ["", "a", "DX de ", "ab", "aaab"];
    for h in haystacks {
        for n in needles {
            assert_eq!(starts_with(&chars(h), &chars(n)), h.starts_with(n), "{:?} at start of {:?}", n, h);
        }
    }
}

#[test]
fn trimming_cuts_unicode_white_space() {
    for s in ["", " ", "  w6jsv\r\n", "\u{a0}a b\u{2003}", "ab", "\t\tab", "ab \n"] {
        assert_eq!(text(&trim(&chars(s))), s.trim(), "{:?}", s);
        assert_eq!(text(&trim_end(&chars(s))), s.trim_end(), "{:?}", s);
        assert_eq!(text(&trim_start(&chars(s))), s.trim_start(), "{:?}", s);
    }
}

#[test]
fn dictionary_order_is_that_of_std() {
    let words = ["", "A", "AA1", "AA1A", "AB", "B", "a", "\u{e9}", "Z9"];
    for a in words {
        for b in words {
            assert_eq!(text_less(&chars(a), &chars(b)), a < b, "{:?} < {:?}", a, b);
        }
    }
}

#[test]
fn numerals_are_written_as_std_writes_them() {
    for n in [0u64, 7, 10, 99, 100, 4532, 14_033_000, u64::MAX] {
        let mut out = Vec::new();
        push_decimal(&mut out, n);
        assert_eq!(text(&out), n.to_string());
    }
    for i in [0i64, -1, 1, -10, 22, -2_147_483_648, i64::MIN, i64::MAX] {
        let mut out = Vec::new();
        push_signed_decimal(&mut out, i);
        assert_eq!(text(&out), i.to_string());
    }
}

#[test]
fn digits_and_their_values() {
    for d in 0..10u8 {
        let c = digit_to_char(d);
        assert_eq!(c, (b'0' + d) as char);
        assert_eq!(char_to_digit(c), Some(d));
    }
    assert_eq!(char_to_digit('/'), None);
    assert_eq!(char_to_digit(':'), None);
    assert_eq!(char_to_digit('a'), None);
    assert_eq!(char_to_digit('\u{663}'), None);
}

#[test]
fn white_space_is_what_std_calls_white_space() {
    for code in 0..=0x10ffffu32 {
        if let Some(c) = char::from_u32(code) {
            assert_eq!(is_white_space(c), c.is_whitespace(), "U+{:04X}", code);
        }
    }
}
