//! The spot records: one report as the feed delivered it, and the running
//! summary of all reports of one station near one frequency.

use crate::numeral::{
    decimal, digit_char, digit_to_char, lemma_decimal_digits, lemma_decimal_len, push_decimal,
    push_signed_decimal, signed_decimal,
};
use crate::text::{
    chars_of, pad_left, pad_right, push_padded_left, push_padded_right, string_of,
    truncate_chars, truncated,
};
use vstd::prelude::*;
use vstd::utf8::is_ascii_chars;

verus! {

/// One report from the feed. Never changed after it was built.
#[derive(Debug)]
pub struct RawSpot {
    /// The skimmer that heard the station.
    pub spotter_callsign: String,
    /// The station that was heard.
    pub spotted_callsign: String,
    /// Where it was heard, in hertz.
    pub frequency_hz: u64,
    /// Signal-to-noise ratio in decibels.
    pub snr: i32,
    /// Keying speed in words per minute.
    pub speed_wpm: i32,
    /// The mode token of the report.
    pub mode: String,
    /// When the report was read, in milliseconds.
    pub timestamp_ms: u64,
}

/// What a [`RawSpot`] holds, as mathematical values.
pub struct RawSpotView {
    pub spotter_callsign: Seq<char>,
    pub spotted_callsign: Seq<char>,
    pub frequency_hz: u64,
    pub snr: i32,
    pub speed_wpm: i32,
    pub mode: Seq<char>,
    pub timestamp_ms: u64,
}

impl View for RawSpot {
    type V = RawSpotView;

    open spec fn view(&self) -> RawSpotView {
        RawSpotView {
            spotter_callsign: self.spotter_callsign@,
            spotted_callsign: self.spotted_callsign@,
            frequency_hz: self.frequency_hz,
            snr: self.snr,
            speed_wpm: self.speed_wpm,
            mode: self.mode@,
            timestamp_ms: self.timestamp_ms,
        }
    }
}

impl Clone for RawSpot {
    fn clone(&self) -> (r: Self)
        ensures
            r == *self,
    {
        RawSpot {
            spotter_callsign: self.spotter_callsign.clone(),
            spotted_callsign: self.spotted_callsign.clone(),
            frequency_hz: self.frequency_hz,
            snr: self.snr,
            speed_wpm: self.speed_wpm,
            mode: self.mode.clone(),
            timestamp_ms: self.timestamp_ms,
        }
    }
}

impl RawSpot {
    /// A report with the given fields.
    pub fn new(
        spotter_callsign: String,
        spotted_callsign: String,
        frequency_hz: u64,
        snr: i32,
        speed_wpm: i32,
        mode: String,
        timestamp_ms: u64,
    ) -> (r: Self)
        ensures
            r == (RawSpot {
                spotter_callsign,
                spotted_callsign,
                frequency_hz,
                snr,
                speed_wpm,
                mode,
                timestamp_ms,
            }),
    {
        RawSpot {
            spotter_callsign,
            spotted_callsign,
            frequency_hz,
            snr,
            speed_wpm,
            mode,
            timestamp_ms,
        }
    }
}

/// Key of an aggregated spot: the station and the kilohertz it was first
/// heard nearest to.
pub struct SpotKey {
    pub callsign: Seq<char>,
    pub center_khz: u64,
}

/// Thousandths of a word per minute in one word per minute.
pub const SPEED_SCALE: i64 = 1000;

/// Largest callsign length that the display line shows.
pub const DISPLAY_CALL_WIDTH: usize = 9;

/// The whole kilohertz nearest to `hz`, halves rounded up.
pub open spec fn rounded_khz(hz: u64) -> u64 {
    ((hz + 500) / 1000) as u64
}

/// The mean after one more sample: the old mean moved toward the sample by
/// the `count`-th part of their distance, the quotient cut toward zero.
pub open spec fn running_mean(mean: int, sample: int, count: int) -> int {
    if sample >= mean {
        mean + (sample - mean) / count
    } else {
        mean - (mean - sample) / count
    }
}

/// The count after one more sample. It stops at the largest `u32`.
pub open spec fn next_count(count: u32) -> u32 {
    if count < u32::MAX {
        (count + 1) as u32
    } else {
        count
    }
}

/// The key under which a report is aggregated.
pub open spec fn key_of_raw(raw: RawSpotView) -> SpotKey {
    SpotKey { callsign: raw.spotted_callsign, center_khz: rounded_khz(raw.frequency_hz) }
}

/// The summary of a single report taken in at `now_ms`: a count of one,
/// and the report's own frequency, signal, speed and mode.
pub open spec fn seeded(raw: RawSpotView, now_ms: u64) -> AggregatedSpotView {
    AggregatedSpotView {
        callsign: raw.spotted_callsign,
        frequency_hz: raw.frequency_hz,
        center_khz: rounded_khz(raw.frequency_hz),
        highest_snr: raw.snr,
        average_speed_milli: (raw.speed_wpm * SPEED_SCALE) as i64,
        spot_count: 1,
        last_spotted_ms: now_ms,
        mode: raw.mode,
    }
}

/// The summary `agg` after one more report, taken in at `now_ms`.
pub open spec fn updated(agg: AggregatedSpotView, raw: RawSpotView, now_ms: u64)
    -> AggregatedSpotView {
    AggregatedSpotView {
        callsign: agg.callsign,
        frequency_hz: running_mean(
            agg.frequency_hz as int,
            raw.frequency_hz as int,
            next_count(agg.spot_count) as int,
        ) as u64,
        center_khz: agg.center_khz,
        highest_snr: if raw.snr > agg.highest_snr {
            raw.snr
        } else {
            agg.highest_snr
        },
        average_speed_milli: running_mean(
            agg.average_speed_milli as int,
            raw.speed_wpm * SPEED_SCALE,
            next_count(agg.spot_count) as int,
        ) as i64,
        spot_count: next_count(agg.spot_count),
        last_spotted_ms: now_ms,
        mode: agg.mode,
    }
}

/// A running mean never leaves the span between the old mean and the sample.
pub proof fn lemma_running_mean_between(mean: int, sample: int, count: int)
    requires
        count >= 1,
    ensures
        sample >= mean ==> mean <= running_mean(mean, sample, count) <= sample,
        sample <= mean ==> sample <= running_mean(mean, sample, count) <= mean,
        count == 1 ==> running_mean(mean, sample, count) == sample,
        sample == mean ==> running_mean(mean, sample, count) == mean,
{
    if sample >= mean {
        let d = sample - mean;
        assert(0 <= d / count <= d) by (nonlinear_arith)
            requires
                d >= 0,
                count >= 1,
        ;
        if count == 1 {
            assert(d / 1 == d);
        }
    } else {
        let d = mean - sample;
        assert(0 <= d / count <= d) by (nonlinear_arith)
            requires
                d >= 0,
                count >= 1,
        ;
        if count == 1 {
            assert(d / 1 == d);
        }
    }
}

/// The summary of every report of one station near one frequency.
#[derive(Debug)]
pub struct AggregatedSpot {
    /// The station.
    pub callsign: String,
    /// Running mean of the reported frequencies, in hertz.
    pub frequency_hz: u64,
    /// The whole kilohertz nearest to the first report; part of the key.
    pub center_khz: u64,
    /// The best signal-to-noise ratio seen so far.
    pub highest_snr: i32,
    /// Running mean of the keying speed, in thousandths of a word per minute.
    pub average_speed_milli: i64,
    /// How many reports went into this summary.
    pub spot_count: u32,
    /// When the latest report was taken in, in milliseconds.
    pub last_spotted_ms: u64,
    /// The mode token of the first report.
    pub mode: String,
}

/// What an [`AggregatedSpot`] holds, as mathematical values.
pub struct AggregatedSpotView {
    pub callsign: Seq<char>,
    pub frequency_hz: u64,
    pub center_khz: u64,
    pub highest_snr: i32,
    pub average_speed_milli: i64,
    pub spot_count: u32,
    pub last_spotted_ms: u64,
    pub mode: Seq<char>,
}

impl AggregatedSpotView {
    /// The key of this summary.
    pub open spec fn key(self) -> SpotKey {
        SpotKey { callsign: self.callsign, center_khz: self.center_khz }
    }

    /// How long ago the latest report came in, seen from `now_ms`. A summary
    /// stamped later than `now_ms` has age zero.
    pub open spec fn age_ms(self, now_ms: u64) -> nat {
        if now_ms >= self.last_spotted_ms {
            (now_ms - self.last_spotted_ms) as nat
        } else {
            0
        }
    }
}

impl View for AggregatedSpot {
    type V = AggregatedSpotView;

    open spec fn view(&self) -> AggregatedSpotView {
        AggregatedSpotView {
            callsign: self.callsign@,
            frequency_hz: self.frequency_hz,
            center_khz: self.center_khz,
            highest_snr: self.highest_snr,
            average_speed_milli: self.average_speed_milli,
            spot_count: self.spot_count,
            last_spotted_ms: self.last_spotted_ms,
            mode: self.mode@,
        }
    }
}

/// The views of a run of summaries.
pub open spec fn spot_views(spots: Seq<AggregatedSpot>) -> Seq<AggregatedSpotView> {
    Seq::new(spots.len(), |i: int| spots[i]@)
}

impl Clone for AggregatedSpot {
    fn clone(&self) -> (r: Self)
        ensures
            r == *self,
    {
        AggregatedSpot {
            callsign: self.callsign.clone(),
            frequency_hz: self.frequency_hz,
            center_khz: self.center_khz,
            highest_snr: self.highest_snr,
            average_speed_milli: self.average_speed_milli,
            spot_count: self.spot_count,
            last_spotted_ms: self.last_spotted_ms,
            mode: self.mode.clone(),
        }
    }
}

/// The whole kilohertz nearest to `hz`, halves rounded up.
pub fn round_to_khz(hz: u64) -> (khz: u64)
    ensures
        khz == rounded_khz(hz),
{
    let whole: u64 = hz / 1000;
    if hz % 1000 >= 500 {
        whole + 1
    } else {
        whole
    }
}

/// The mean of unsigned samples after one more of them.
pub fn step_mean_u64(mean: u64, sample: u64, count: u32) -> (r: u64)
    requires
        count >= 1,
    ensures
        r == running_mean(mean as int, sample as int, count as int),
{
    proof {
        lemma_running_mean_between(mean as int, sample as int, count as int);
    }
    if sample >= mean {
        mean + (sample - mean) / (count as u64)
    } else {
        mean - (mean - sample) / (count as u64)
    }
}

/// The mean of signed samples after one more of them.
pub fn step_mean_i64(mean: i64, sample: i64, count: u32) -> (r: i64)
    requires
        count >= 1,
    ensures
        r == running_mean(mean as int, sample as int, count as int),
{
    proof {
        lemma_running_mean_between(mean as int, sample as int, count as int);
    }
    if sample >= mean {
        let distance: u128 = (sample as i128 - mean as i128) as u128;
        let shift: u128 = distance / (count as u128);
        (mean as i128 + shift as i128) as i64
    } else {
        let distance: u128 = (mean as i128 - sample as i128) as u128;
        let shift: u128 = distance / (count as u128);
        (mean as i128 - shift as i128) as i64
    }
}

/// Tenths of a kilohertz nearest to `hz`, halves rounded up.
pub open spec fn rounded_tenths(hz: u64) -> nat {
    ((hz + 50) / 100) as nat
}

/// A frequency in kilohertz with one decimal place.
pub open spec fn frequency_text(hz: u64) -> Seq<char> {
    decimal(rounded_tenths(hz) / 10) + seq!['.'] + seq![digit_char(rounded_tenths(hz) % 10)]
}

/// Whole words per minute nearest to `milli` thousandths, halves rounded away
/// from zero, kept within the range of `i32`.
pub open spec fn rounded_speed(milli: i64) -> int {
    let nearest = if milli >= 0 {
        (milli + 500) / 1000
    } else {
        -((-milli + 500) / 1000)
    };
    if nearest > i32::MAX {
        i32::MAX as int
    } else if nearest < i32::MIN {
        i32::MIN as int
    } else {
        nearest
    }
}

/// The display line of a summary: the frequency right-aligned in seven
/// characters, a space, the speed right-aligned in two, a space, and the
/// first nine characters of the callsign left-aligned in nine. A field too
/// narrow for its value grows, as the value is never cut.
#[verifier::opaque]
pub open spec fn display_text(v: AggregatedSpotView) -> Seq<char> {
    pad_left(frequency_text(v.frequency_hz), 7) + seq![' '] + pad_left(
        signed_decimal(rounded_speed(v.average_speed_milli)),
        2,
    ) + seq![' '] + pad_right(truncated(v.callsign, DISPLAY_CALL_WIDTH as nat), 9)
}

/// Whether frequency and speed fit their display fields: below 100 MHz, and
/// from -9 to 99 words per minute.
pub open spec fn fits_display(v: AggregatedSpotView) -> bool {
    &&& v.frequency_hz < 99_999_950
    &&& -9 <= rounded_speed(v.average_speed_milli) <= 99
}

/// The key of a summary as one text: callsign, a bar, the centre kilohertz.
pub open spec fn key_text(v: AggregatedSpotView) -> Seq<char> {
    v.callsign + seq!['|'] + decimal(v.center_khz as nat)
}

/// A display line is never shorter than twenty characters, and is exactly
/// twenty where the values fit their fields.
pub proof fn lemma_display_width(v: AggregatedSpotView)
    ensures
        display_text(v).len() >= 20,
        fits_display(v) ==> display_text(v).len() == 20,
{
    reveal(display_text);
    let t = rounded_tenths(v.frequency_hz);
    lemma_decimal_len(t / 10);
    let r = rounded_speed(v.average_speed_milli);
    if r < 0 {
        lemma_decimal_len((-r) as nat);
    } else {
        lemma_decimal_len(r as nat);
    }
}

/// Two ASCII texts joined are ASCII.
proof fn lemma_ascii_joined(a: Seq<char>, b: Seq<char>)
    requires
        is_ascii_chars(a),
        is_ascii_chars(b),
    ensures
        is_ascii_chars(a + b),
{
    assert forall|i: int| 0 <= i < (a + b).len() implies '\0' <= #[trigger] (a + b)[i]
        <= '\u{7f}' by {
        if i < a.len() {
            assert((a + b)[i] == a[i]);
        } else {
            assert((a + b)[i] == b[i - a.len()]);
        }
    }
}

/// An ASCII text padded on either side is ASCII.
proof fn lemma_ascii_padded(s: Seq<char>, width: nat)
    requires
        is_ascii_chars(s),
    ensures
        is_ascii_chars(pad_left(s, width)),
        is_ascii_chars(pad_right(s, width)),
{
    if s.len() < width {
        let fill = crate::text::spaces((width - s.len()) as nat);
        lemma_ascii_joined(fill, s);
        lemma_ascii_joined(s, fill);
    }
}

/// The display line of a summary with an ASCII callsign is ASCII: every
/// character of it takes one byte on the wire.
pub proof fn lemma_display_text_ascii(v: AggregatedSpotView)
    requires
        is_ascii_chars(v.callsign),
    ensures
        is_ascii_chars(display_text(v)),
{
    reveal(display_text);
    let tenths = rounded_tenths(v.frequency_hz);
    lemma_decimal_digits(tenths / 10);
    let whole = decimal(tenths / 10);
    let point = seq!['.'];
    let last = seq![digit_char(tenths % 10)];
    lemma_ascii_joined(whole, point);
    lemma_ascii_joined(whole + point, last);
    lemma_ascii_padded(frequency_text(v.frequency_hz), 7);

    let r = rounded_speed(v.average_speed_milli);
    if r < 0 {
        lemma_decimal_digits((-r) as nat);
        lemma_ascii_joined(seq!['-'], decimal((-r) as nat));
    } else {
        lemma_decimal_digits(r as nat);
    }
    lemma_ascii_padded(signed_decimal(r), 2);

    let call = truncated(v.callsign, DISPLAY_CALL_WIDTH as nat);
    assert(is_ascii_chars(call)) by {
        assert forall|i: int| 0 <= i < call.len() implies '\0' <= #[trigger] call[i]
            <= '\u{7f}' by {
            assert(call[i] == v.callsign[i]);
        }
    }
    lemma_ascii_padded(call, 9);

    let space = seq![' '];
    let a = pad_left(frequency_text(v.frequency_hz), 7);
    let b = pad_left(signed_decimal(r), 2);
    let c = pad_right(call, 9);
    lemma_ascii_joined(a, space);
    lemma_ascii_joined(a + space, b);
    lemma_ascii_joined(a + space + b, space);
    lemma_ascii_joined(a + space + b + space, c);
}

/// A frequency in kilohertz with one decimal place.
pub fn frequency_chars(hz: u64) -> (r: Vec<char>)
    ensures
        r@ == frequency_text(hz),
{
    let tenths: u64 = if hz % 100 >= 50 {
        hz / 100 + 1
    } else {
        hz / 100
    };
    let mut frequency: Vec<char> = Vec::new();
    push_decimal(&mut frequency, tenths / 10);
    frequency.push('.');
    frequency.push(digit_to_char((tenths % 10) as u8));
    assert(frequency@ =~= frequency_text(hz));
    frequency
}

impl AggregatedSpot {
    /// The summary of a first report, taken in at `now_ms`.
    pub fn from_raw(raw: &RawSpot, now_ms: u64) -> (r: Self)
        ensures
            r@ == seeded(raw@, now_ms),
    {
        AggregatedSpot {
            callsign: raw.spotted_callsign.clone(),
            frequency_hz: raw.frequency_hz,
            center_khz: round_to_khz(raw.frequency_hz),
            highest_snr: raw.snr,
            average_speed_milli: raw.speed_wpm as i64 * SPEED_SCALE,
            spot_count: 1,
            last_spotted_ms: now_ms,
            mode: raw.mode.clone(),
        }
    }

    /// Takes one more report into the summary: both means move by the
    /// running-mean rule, the best signal-to-noise ratio is kept, the count
    /// grows by one and the summary is stamped `now_ms`.
    pub fn update(&mut self, raw: &RawSpot, now_ms: u64)
        ensures
            final(self)@ == updated(old(self)@, raw@, now_ms),
    {
        let count: u32 = if self.spot_count < u32::MAX {
            self.spot_count + 1
        } else {
            self.spot_count
        };
        self.spot_count = count;
        self.average_speed_milli = step_mean_i64(
            self.average_speed_milli,
            raw.speed_wpm as i64 * SPEED_SCALE,
            count,
        );
        self.frequency_hz = step_mean_u64(self.frequency_hz, raw.frequency_hz, count);
        if raw.snr > self.highest_snr {
            self.highest_snr = raw.snr;
        }
        self.last_spotted_ms = now_ms;
    }

    /// The key as one text, such as `WO6W|14033`.
    pub fn key(&self) -> (r: String)
        ensures
            r@ == key_text(self@),
    {
        let mut out: Vec<char> = chars_of(self.callsign.as_str());
        out.push('|');
        push_decimal(&mut out, self.center_khz);
        assert(out@ =~= key_text(self@));
        string_of(&out)
    }

    /// Whole seconds since the latest report, seen from `now_ms`.
    pub fn age_seconds(&self, now_ms: u64) -> (r: u64)
        ensures
            r == self@.age_ms(now_ms) / 1000,
    {
        if now_ms >= self.last_spotted_ms {
            (now_ms - self.last_spotted_ms) / 1000
        } else {
            0
        }
    }

    /// The age as thousandths of `max_age_ms`, at most 1000: 0 for a summary
    /// just refreshed, 1000 for one that has reached the limit. With a limit
    /// of zero every summary is at 1000.
    pub fn age_fraction(&self, now_ms: u64, max_age_ms: u64) -> (r: u32)
        ensures
            r <= 1000,
            max_age_ms == 0 ==> r == 1000,
            max_age_ms > 0 && self@.age_ms(now_ms) >= max_age_ms ==> r == 1000,
            max_age_ms > 0 && self@.age_ms(now_ms) < max_age_ms ==> r == self@.age_ms(now_ms)
                * 1000 / (max_age_ms as nat),
    {
        if max_age_ms == 0 {
            return 1000;
        }
        let age: u64 = if now_ms >= self.last_spotted_ms {
            now_ms - self.last_spotted_ms
        } else {
            0
        };
        if age >= max_age_ms {
            return 1000;
        }
        let scaled: u128 = age as u128 * 1000;
        let parts: u128 = scaled / (max_age_ms as u128);
        assert(parts < 1000) by (nonlinear_arith)
            requires
                parts == scaled / (max_age_ms as u128),
                scaled == age * 1000,
                age < max_age_ms,
                max_age_ms > 0,
        ;
        parts as u32
    }

    /// The line that the display shows for this summary.
    pub fn to_display_string(&self) -> (r: String)
        ensures
            r@ == display_text(self@),
            r@.len() >= 20,
            fits_display(self@) ==> r@.len() == 20,
    {
        let frequency: Vec<char> = frequency_chars(self.frequency_hz);

        let milli: i64 = self.average_speed_milli;
        let nearest: i64 = if milli >= 0 {
            if milli % 1000 >= 500 {
                milli / 1000 + 1
            } else {
                milli / 1000
            }
        } else {
            let magnitude: u64 = ((-(milli + 1)) as u64) + 1;
            let whole: u64 = if magnitude % 1000 >= 500 {
                magnitude / 1000 + 1
            } else {
                magnitude / 1000
            };
            -(whole as i64)
        };
        let shown: i64 = if nearest > i32::MAX as i64 {
            i32::MAX as i64
        } else if nearest < i32::MIN as i64 {
            i32::MIN as i64
        } else {
            nearest
        };
        assert(shown == rounded_speed(milli));
        let mut speed: Vec<char> = Vec::new();
        push_signed_decimal(&mut speed, shown);

        let call: Vec<char> = truncate_chars(&chars_of(self.callsign.as_str()), DISPLAY_CALL_WIDTH);

        let mut out: Vec<char> = Vec::new();
        push_padded_left(&mut out, &frequency, 7);
        out.push(' ');
        push_padded_left(&mut out, &speed, 2);
        out.push(' ');
        push_padded_right(&mut out, &call, 9);
        assert(out@ =~= display_text(self@)) by {
            reveal(display_text);
        }
        proof {
            lemma_display_width(self@);
        }
        string_of(&out)
    }
}

} // verus!
