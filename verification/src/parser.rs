//! Reading one line of the feed into a spot.
//!
//! The line is matched against [`SPOT_PATTERN`] by the `regex` crate; what
//! the match captured is then trimmed and read as numbers here.

use crate::numeral::{
    all_digits, char_to_digit, decimal, digit_char, digit_value, digits_value, is_digit,
    lemma_decimal_digits, lemma_decimal_round_trip, lemma_digits_value_step, parse_i32,
    parse_i32_spec, unsigned_part,
};
use crate::spot::{RawSpot, RawSpotView};
use crate::text::{chars_of, starts_with, string_of};
use vstd::prelude::*;

verus! {

/// Every spot line starts with these characters.
pub const SPOT_PREFIX: &'static str = "DX de ";

/// The shape of a spot line: spotter, frequency, callsign, mode, signal and
/// speed, in this order of capture groups.
pub const SPOT_PATTERN: &'static str =
    r"DX de (\S+):\s+(\d+\.?\d*)\s+(\S+)\s+(\w+)\s+(\d+)\s+dB\s+(\d+)\s+WPM";

/// What the leftmost match of the regular expression `pattern` in `text`
/// captured: one entry per capture group of the pattern, in order, the whole
/// match left out; `None` inside for a group that took no part. `None` where
/// the pattern does not compile or matches nowhere in `text`.
pub uninterp spec fn capture_groups(pattern: Seq<char>, text: Seq<char>) -> Option<
    Seq<Option<Seq<char>>>,
>;

/// The captured texts as sequences of characters.
pub open spec fn groups_view(groups: Seq<Option<String>>) -> Seq<Option<Seq<char>>> {
    Seq::new(
        groups.len(),
        |i: int|
            match groups[i] {
                Some(s) => Some(s@),
                None => None,
            },
    )
}

/// Compiles `pattern` with `regex::Regex::new` and searches `text` with
/// `Regex::captures`. The result is the crate's answer for this pattern and
/// this text, which depends on nothing else; nothing more is claimed of it.
#[verifier::external_body]
fn regex_captures(pattern: &str, text: &str) -> (r: Option<Vec<Option<String>>>)
    ensures
        r is Some <==> capture_groups(pattern@, text@) is Some,
        r matches Some(groups) ==> capture_groups(pattern@, text@) == Some(groups_view(groups@)),
{
    let compiled = regex::Regex::new(pattern).ok()?;
    let captures = compiled.captures(text)?;
    let mut groups: Vec<Option<String>> = Vec::new();
    for i in 1..captures.len() {
        groups.push(captures.get(i).map(|m| m.as_str().to_string()));
    }
    Some(groups)
}

/// Whether `c` is one of the marks that trail a spotter's callsign.
pub open spec fn is_spotter_mark(c: char) -> bool {
    c == '-' || c == '#' || c == ':'
}

/// `s` without the spotter marks at its end.
pub open spec fn without_spotter_marks(s: Seq<char>) -> Seq<char>
    decreases s.len(),
{
    if s.len() > 0 && is_spotter_mark(s.last()) {
        without_spotter_marks(s.drop_last())
    } else {
        s
    }
}

/// Cuts the spotter marks off the end of `s`.
pub fn strip_spotter_marks(s: &Vec<char>) -> (r: Vec<char>)
    ensures
        r@ == without_spotter_marks(s@),
{
    let mut end: usize = s.len();
    assert(s@.subrange(0, end as int) =~= s@);
    while end > 0 && (s[end - 1] == '-' || s[end - 1] == '#' || s[end - 1] == ':')
        invariant
            end <= s.len(),
            without_spotter_marks(s@) == without_spotter_marks(s@.subrange(0, end as int)),
        decreases end,
    {
        assert(s@.subrange(0, end as int).drop_last() =~= s@.subrange(0, end - 1));
        end -= 1;
    }
    let mut r: Vec<char> = Vec::new();
    let mut i: usize = 0;
    while i < end
        invariant
            i <= end <= s.len(),
            r@ == s@.subrange(0, i as int),
        decreases end - i,
    {
        r.push(s[i]);
        i += 1;
        assert(s@.subrange(0, i as int) =~= s@.subrange(0, i - 1).push(s@[i - 1]));
    }
    r
}

/// How many digits `s` starts with.
pub open spec fn digit_run(s: Seq<char>) -> nat
    decreases s.len(),
{
    if s.len() > 0 && is_digit(s[0]) {
        1 + digit_run(s.drop_first())
    } else {
        0
    }
}

/// The first three decimal places of a fraction as a number of thousandths;
/// missing places count as zero, further places are dropped.
pub open spec fn fraction_millis(f: Seq<char>) -> nat {
    (if f.len() > 0 {
        digit_value(f[0]) * 100
    } else {
        0
    }) + (if f.len() > 1 {
        digit_value(f[1]) * 10
    } else {
        0
    }) + (if f.len() > 2 {
        digit_value(f[2])
    } else {
        0
    })
}

/// The digits of `s` before its decimal point.
pub open spec fn whole_part(s: Seq<char>) -> Seq<char> {
    s.subrange(0, digit_run(s) as int)
}

/// The digits of `s` after its decimal point; empty where it has none.
pub open spec fn fraction_part(s: Seq<char>) -> Seq<char> {
    if digit_run(s) < s.len() {
        s.subrange(digit_run(s) as int + 1, s.len() as int)
    } else {
        Seq::empty()
    }
}

/// Whether `s` is a decimal number: one digit or more, then nothing, or a
/// point and any number of digits.
pub open spec fn is_decimal_number(s: Seq<char>) -> bool {
    &&& digit_run(s) >= 1
    &&& digit_run(s) < s.len() ==> s[digit_run(s) as int] == '.'
    &&& all_digits(fraction_part(s))
}

/// The hertz that a decimal number of kilohertz stands for, whatever its size.
pub open spec fn khz_text_hertz(s: Seq<char>) -> nat {
    digits_value(whole_part(s)) * 1000 + fraction_millis(fraction_part(s))
}

/// What reading `s` as a frequency in kilohertz gives, in hertz: the value of
/// a decimal number cut after the third decimal place, `None` where `s` is no
/// decimal number or the hertz exceed 64 bits.
pub open spec fn parse_khz_spec(s: Seq<char>) -> Option<u64> {
    if is_decimal_number(s) && khz_text_hertz(s) <= u64::MAX {
        Some(khz_text_hertz(s) as u64)
    } else {
        None
    }
}

/// A text that holds digits up to position `i`, and none at `i`, starts with
/// exactly `i` digits.
pub proof fn lemma_digit_run(s: Seq<char>, i: int)
    requires
        0 <= i <= s.len(),
        forall|j: int| 0 <= j < i ==> is_digit(#[trigger] s[j]),
        i < s.len() ==> !is_digit(s[i]),
    ensures
        digit_run(s) == i,
    decreases i,
{
    if i > 0 {
        let t = s.drop_first();
        assert forall|j: int| 0 <= j < i - 1 implies is_digit(#[trigger] t[j]) by {
            assert(t[j] == s[j + 1]);
        }
        lemma_digit_run(t, i - 1);
    }
}

/// Reads a decimal number of kilohertz into hertz.
pub fn parse_khz(s: &Vec<char>) -> (r: Option<u64>)
    ensures
        r == parse_khz_spec(s@),
{
    let n: usize = s.len();
    let mut acc: u128 = 0;
    let mut over: bool = false;
    let mut i: usize = 0;
    while i < n && char_to_digit(s[i]).is_some()
        invariant
            i <= n,
            n == s.len(),
            forall|j: int| 0 <= j < i ==> is_digit(#[trigger] s@[j]),
            !over ==> acc == digits_value(s@.subrange(0, i as int)) && acc <= u64::MAX,
            over ==> digits_value(s@.subrange(0, i as int)) > u64::MAX,
        decreases n - i,
    {
        let digit: u8 = match char_to_digit(s[i]) {
            Some(d) => d,
            None => 0,
        };
        proof {
            lemma_digits_value_step(s@, i as int);
        }
        if !over {
            acc = acc * 10 + digit as u128;
            if acc > u64::MAX as u128 {
                over = true;
            }
        }
        i += 1;
    }
    proof {
        lemma_digit_run(s@, i as int);
    }
    let whole_len: usize = i;
    if whole_len == 0 {
        return None;
    }
    let mut millis: u128 = 0;
    if whole_len < n {
        if s[whole_len] != '.' {
            return None;
        }
        let ghost fraction: Seq<char> = fraction_part(s@);
        let mut k: usize = whole_len + 1;
        while k < n
            invariant
                whole_len + 1 <= k <= n,
                n == s.len(),
                fraction == s@.subrange(whole_len + 1, n as int),
                fraction == fraction_part(s@),
                forall|j: int| 0 <= j < k - whole_len - 1 ==> is_digit(#[trigger] fraction[j]),
                millis == fraction_millis(fraction.subrange(0, k - whole_len - 1)),
                millis < 1000,
            decreases n - k,
        {
            let digit: u8 = match char_to_digit(s[k]) {
                Some(d) => d,
                None => {
                    assert(!is_digit(fraction[k - whole_len - 1]));
                    return None;
                },
            };
            let place: usize = k - whole_len - 1;
            if place == 0 {
                millis = millis + digit as u128 * 100;
            } else if place == 1 {
                millis = millis + digit as u128 * 10;
            } else if place == 2 {
                millis = millis + digit as u128;
            }
            k += 1;
        }
        assert(fraction.subrange(0, n - whole_len - 1) =~= fraction);
    }
    if over {
        return None;
    }
    let hertz: u128 = acc * 1000 + millis;
    if hertz > u64::MAX as u128 {
        None
    } else {
        Some(hertz as u64)
    }
}

/// The spot that six captured texts stand for, read at `now_ms`: the spotter
/// without its trailing marks, frequency, callsign, mode, signal and speed.
/// `None` where a group is missing or took no part, or a number cannot be
/// read.
pub open spec fn spot_from_groups(groups: Seq<Option<Seq<char>>>, now_ms: u64) -> Option<
    RawSpotView,
> {
    if groups.len() >= 6 && (forall|i: int| 0 <= i < 6 ==> (#[trigger] groups[i]) is Some)
        && parse_khz_spec(groups[1]->0) is Some && parse_i32_spec(groups[4]->0) is Some
        && parse_i32_spec(groups[5]->0) is Some {
        Some(
            RawSpotView {
                spotter_callsign: without_spotter_marks(groups[0]->0),
                spotted_callsign: groups[2]->0,
                frequency_hz: parse_khz_spec(groups[1]->0)->0,
                snr: parse_i32_spec(groups[4]->0)->0,
                speed_wpm: parse_i32_spec(groups[5]->0)->0,
                mode: groups[3]->0,
                timestamp_ms: now_ms,
            },
        )
    } else {
        None
    }
}

/// The view of a spot that may be absent.
pub open spec fn spot_view(spot: Option<RawSpot>) -> Option<RawSpotView> {
    match spot {
        Some(s) => Some(s@),
        None => None,
    }
}

/// The characters of the text at position `i`, where there is one.
fn group_chars(groups: &Vec<Option<String>>, i: usize) -> (r: Option<Vec<char>>)
    ensures
        r is Some <==> i < groups.len() && groups@[i as int] is Some,
        r matches Some(v) ==> v@ == groups@[i as int]->0@,
{
    if i >= groups.len() {
        return None;
    }
    match &groups[i] {
        Some(s) => Some(chars_of(s.as_str())),
        None => None,
    }
}

/// Builds the spot from what a match of [`SPOT_PATTERN`] captured.
pub fn spot_from_captures(groups: &Vec<Option<String>>, now_ms: u64) -> (r: Option<RawSpot>)
    ensures
        spot_view(r) == spot_from_groups(groups_view(groups@), now_ms),
{
    let ghost g = groups_view(groups@);
    let spotter = group_chars(groups, 0);
    let frequency = group_chars(groups, 1);
    let callsign = group_chars(groups, 2);
    let mode = group_chars(groups, 3);
    let snr = group_chars(groups, 4);
    let speed = group_chars(groups, 5);
    match (spotter, frequency, callsign, mode, snr, speed) {
        (Some(spotter), Some(frequency), Some(callsign), Some(mode), Some(snr), Some(speed)) => {
            assert(g[0]->0 == spotter@ && g[1]->0 == frequency@ && g[2]->0 == callsign@ && g[3]->0
                == mode@ && g[4]->0 == snr@ && g[5]->0 == speed@);
            assert forall|i: int| 0 <= i < 6 implies (#[trigger] g[i]) is Some by {
                assert(i == 0 || i == 1 || i == 2 || i == 3 || i == 4 || i == 5);
            }
            let hz = parse_khz(&frequency);
            let snr_value = parse_i32(&snr);
            let speed_value = parse_i32(&speed);
            match (hz, snr_value, speed_value) {
                (Some(hz), Some(snr_value), Some(speed_value)) => {
                    let stripped = strip_spotter_marks(&spotter);
                    Some(
                        RawSpot::new(
                            string_of(&stripped),
                            string_of(&callsign),
                            hz,
                            snr_value,
                            speed_value,
                            string_of(&mode),
                            now_ms,
                        ),
                    )
                },
                _ => None,
            }
        },
        _ => {
            assert(groups.len() < 6 || exists|i: int| 0 <= i < 6 && (#[trigger] g[i]) is None);
            None
        },
    }
}

/// What the pattern finds in `line`, read at `now_ms`: the spot built from
/// what [`SPOT_PATTERN`] captures in it.
pub open spec fn parsed_spot(line: Seq<char>, now_ms: u64) -> Option<RawSpotView> {
    match capture_groups(SPOT_PATTERN@, line) {
        Some(groups) => spot_from_groups(groups, now_ms),
        None => None,
    }
}

/// What the feed parser makes of one line at `now_ms`: nothing unless the
/// line begins with [`SPOT_PREFIX`], else the spot that the pattern finds in
/// it, if any.
pub open spec fn feed_spot(line: Seq<char>, now_ms: u64) -> Option<RawSpotView> {
    if SPOT_PREFIX@.is_prefix_of(line) {
        parsed_spot(line, now_ms)
    } else {
        None
    }
}

/// Reads one complete line of the feed. A line that does not begin with
/// [`SPOT_PREFIX`] gives `None`, whatever follows in it, and so does a spot
/// line that is malformed.
pub fn parse_spot_line(line: &str, now_ms: u64) -> (r: Option<RawSpot>)
    ensures
        spot_view(r) == feed_spot(line@, now_ms),
        !SPOT_PREFIX@.is_prefix_of(line@) ==> r is None,
{
    let chars = chars_of(line);
    let prefix = chars_of(SPOT_PREFIX);
    if !starts_with(&chars, &prefix) {
        return None;
    }
    match regex_captures(SPOT_PATTERN, line) {
        Some(groups) => spot_from_captures(&groups, now_ms),
        None => None,
    }
}

/// What the feed parser makes of a line, case by case. A line without the
/// prefix gives nothing. A line in which the pattern finds nothing gives
/// nothing. And where a spot comes out, its texts are the captured texts,
/// the spotter without its trailing marks, and its numbers are the captured
/// numerals read exactly.
pub proof fn lemma_feed_spot_cases(line: Seq<char>, now_ms: u64)
    ensures
        !SPOT_PREFIX@.is_prefix_of(line) ==> feed_spot(line, now_ms) is None,
        capture_groups(SPOT_PATTERN@, line) is None ==> feed_spot(line, now_ms) is None,
        feed_spot(line, now_ms) matches Some(spot) ==> ({
            let groups = capture_groups(SPOT_PATTERN@, line)->0;
            &&& SPOT_PREFIX@.is_prefix_of(line)
            &&& capture_groups(SPOT_PATTERN@, line) is Some
            &&& groups.len() >= 6
            &&& spot.spotter_callsign == without_spotter_marks(groups[0]->0)
            &&& Some(spot.frequency_hz) == parse_khz_spec(groups[1]->0)
            &&& spot.spotted_callsign == groups[2]->0
            &&& spot.mode == groups[3]->0
            &&& Some(spot.snr) == parse_i32_spec(groups[4]->0)
            &&& Some(spot.speed_wpm) == parse_i32_spec(groups[5]->0)
            &&& spot.timestamp_ms == now_ms
        }),
{
}

/// The numeral of a number that fits 32 bits is read back as that number.
pub proof fn lemma_parse_i32_of_decimal(n: nat)
    requires
        n <= i32::MAX,
    ensures
        parse_i32_spec(decimal(n)) == Some(n as i32),
{
    lemma_decimal_digits(n);
    lemma_decimal_round_trip(n);
    let s = decimal(n);
    assert(is_digit(s[0]));
    assert(unsigned_part(s) == s);
}

/// A frequency written as whole kilohertz, a point and one decimal place is
/// read as exactly that many hertz.
pub proof fn lemma_parse_khz_of_decimal(whole: nat, tenth: nat)
    requires
        tenth < 10,
        whole * 1000 + tenth * 100 <= u64::MAX,
    ensures
        parse_khz_spec(decimal(whole) + seq!['.', digit_char(tenth)]) == Some(
            (whole * 1000 + tenth * 100) as u64,
        ),
{
    lemma_decimal_digits(whole);
    lemma_decimal_round_trip(whole);
    let numeral = decimal(whole);
    let s = numeral + seq!['.', digit_char(tenth)];
    let n = numeral.len() as int;
    assert forall|j: int| 0 <= j < n implies is_digit(#[trigger] s[j]) by {
        assert(s[j] == numeral[j]);
    }
    assert(s[n] == '.');
    lemma_digit_run(s, n);
    assert(whole_part(s) =~= numeral);
    assert(fraction_part(s) =~= seq![digit_char(tenth)]);
    assert(digit_value(digit_char(tenth)) == tenth);
    assert(is_digit(digit_char(tenth)));
}

} // verus!
