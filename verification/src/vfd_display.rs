//! The display scheduler: what the two lines of the display show, tick by
//! tick.
//!
//! The scheduler never touches the serial line. Each call hands back the
//! bytes that belong on it, and the caller writes them as well as it can.

use crate::spot::{display_text, spot_views, AggregatedSpot, AggregatedSpotView};
use crate::text::{chars_of, pad_right, push_padded_right, slice_chars, spaces, string_of};
use rand::Rng;
use vstd::arithmetic::div_mod::{lemma_add_mod_noop, lemma_mod_bound, lemma_mod_multiples_vanish, lemma_fundamental_div_mod, lemma_small_mod};
use vstd::prelude::*;
use vstd::utf8::{encode_utf8, is_ascii_chars, is_ascii_chars_encode_utf8};

verus! {

/// Characters in one line of the display.
pub const DISPLAY_WIDTH: usize = 20;

/// Lines of the display.
pub const DISPLAY_LINES: usize = 2;

/// The byte that clears the display and homes its cursor.
pub const CLEAR_DISPLAY: u8 = 0x0C;

/// One draw of `rand::thread_rng().gen_range(0..bound)`, which panics on an
/// empty range and otherwise stays below `bound`.
#[verifier::external_body]
fn random_below(bound: usize) -> (r: usize)
    requires
        bound > 0,
    ensures
        r < bound,
{
    rand::thread_rng().gen_range(0..bound)
}

/// The character of the idle animation and where it stands.
#[derive(Clone, Copy, Debug, PartialEq, Eq, Structural)]
pub struct Glyph {
    pub character: char,
    pub col: usize,
    pub row: usize,
}

impl Glyph {
    /// Whether the glyph is a capital letter or a digit and stands on the
    /// display.
    pub open spec fn is_valid(self) -> bool {
        &&& ('A' <= self.character <= 'Z') || ('0' <= self.character <= '9')
        &&& self.col < DISPLAY_WIDTH
        &&& self.row < DISPLAY_LINES
    }

    /// The line of the display with the given number under this glyph:
    /// blank, but for the glyph where it stands on that line. Every row but
    /// the first counts as the second.
    pub open spec fn line(self, second: bool) -> Seq<char> {
        if (self.row != 0) == second && self.col < DISPLAY_WIDTH {
            spaces(DISPLAY_WIDTH as nat).update(self.col as int, self.character)
        } else {
            spaces(DISPLAY_WIDTH as nat)
        }
    }
}

/// How many glyphs there are: the capital letters and the digits.
pub const GLYPH_COUNT: usize = 36;

/// Draws a glyph at random: one of the thirty-six, each as likely as any
/// other as far as the generator goes, then its column and its row.
pub fn random_glyph() -> (g: Glyph)
    ensures
        g.is_valid(),
{
    let pick: usize = random_below(GLYPH_COUNT);
    let character: char = if pick < 26 {
        (65u8 + pick as u8) as char
    } else {
        (48u8 + (pick - 26) as u8) as char
    };
    Glyph { character, col: random_below(DISPLAY_WIDTH), row: random_below(DISPLAY_LINES) }
}

/// What the scheduler is doing.
#[derive(Clone, Copy, Debug, PartialEq, Eq, Structural)]
pub enum DisplayMode {
    /// Showing spots, two at a time.
    SpotRotation,
    /// Blinking a glyph once a second.
    IdleAnimation,
}

/// The state of the scheduler, as mathematical values.
pub struct VfdDisplayView {
    /// Whether a display is attached.
    pub is_open: bool,
    /// The name of the port it is attached to.
    pub port_name: Seq<char>,
    /// Which spot comes first at the next advance.
    pub scroll_index: nat,
    /// The least time between two advances.
    pub scroll_interval_ms: u64,
    /// When the rotation last advanced, or when the mode last changed.
    pub last_update_ms: u64,
    /// Whether the idle animation runs even with spots at hand.
    pub force_random_mode: bool,
    /// The part of each second, in percent, during which the glyph shows.
    pub random_char_percent: u32,
    /// The mode of the latest tick.
    pub mode: DisplayMode,
    /// Whether the glyph is on the display.
    pub showing_char: bool,
    /// The glyph of the current second.
    pub glyph: Glyph,
    /// The wall-clock second in which the glyph was drawn.
    pub last_second: u64,
    /// What the display shows.
    pub lines: (Seq<char>, Seq<char>),
}

/// `text` as the display takes it: filled with spaces or cut to twenty
/// characters.
pub open spec fn formatted_line(text: Seq<char>) -> Seq<char> {
    pad_right(text, DISPLAY_WIDTH as nat).subrange(0, DISPLAY_WIDTH as int)
}

/// The byte that the display is sent for a character: the character itself
/// where it is ASCII, a question mark where it is not.
pub open spec fn display_byte(c: char) -> u8 {
    if c <= '\u{7f}' {
        c as u8
    } else {
        0x3F
    }
}

/// The bytes of one line of the display: one for each of the twenty
/// characters of the formatted line.
pub open spec fn line_bytes(text: Seq<char>) -> Seq<u8> {
    Seq::new(DISPLAY_WIDTH as nat, |i: int| display_byte(formatted_line(text)[i]))
}

/// The bytes that put two lines on the display: the clear byte, then
/// twenty bytes for each line.
pub open spec fn frame_bytes(first: Seq<char>, second: Seq<char>) -> Seq<u8> {
    seq![CLEAR_DISPLAY] + line_bytes(first) + line_bytes(second)
}

/// A formatted line has twenty characters, and is ASCII where the text is.
pub proof fn lemma_formatted_line(text: Seq<char>)
    ensures
        formatted_line(text).len() == DISPLAY_WIDTH,
        is_ascii_chars(text) ==> is_ascii_chars(formatted_line(text)),
{
    let padded = pad_right(text, DISPLAY_WIDTH as nat);
    if is_ascii_chars(text) {
        assert forall|i: int| 0 <= i < padded.len() implies '\0' <= #[trigger] padded[i]
            <= '\u{7f}' by {
            if i < text.len() {
                assert(padded[i] == text[i]);
            } else {
                assert(padded[i] == ' ');
            }
        }
    }
}

/// Every frame is the clear byte and forty bytes more, one for each place
/// on the display, whatever the lines hold; and the bytes of an ASCII line
/// are the line itself as text.
pub proof fn lemma_frame_len(first: Seq<char>, second: Seq<char>)
    ensures
        frame_bytes(first, second).len() == 1 + DISPLAY_LINES * DISPLAY_WIDTH,
        frame_bytes(first, second)[0] == CLEAR_DISPLAY,
        line_bytes(first).len() == DISPLAY_WIDTH,
        is_ascii_chars(first) ==> line_bytes(first) == encode_utf8(formatted_line(first)),
{
    lemma_formatted_line(first);
    if is_ascii_chars(first) {
        is_ascii_chars_encode_utf8(formatted_line(first));
        assert(line_bytes(first) =~= encode_utf8(formatted_line(first)));
    }
}

/// The mode that a tick calls for.
pub open spec fn wanted_mode(d: VfdDisplayView, spot_count: nat) -> DisplayMode {
    if d.force_random_mode || spot_count == 0 {
        DisplayMode::IdleAnimation
    } else {
        DisplayMode::SpotRotation
    }
}

/// The state on entering a tick in `mode` at `now_ms`: a change of mode
/// restarts the timing of the rotation and keeps its place.
pub open spec fn entered(d: VfdDisplayView, mode: DisplayMode, now_ms: u64) -> VfdDisplayView {
    if d.mode != mode {
        VfdDisplayView { mode, last_update_ms: now_ms, ..d }
    } else {
        d
    }
}

/// The time since the rotation last advanced, seen from `now_ms`; zero
/// where `now_ms` lies before that.
pub open spec fn since_last_update(d: VfdDisplayView, now_ms: u64) -> nat {
    if now_ms >= d.last_update_ms {
        (now_ms - d.last_update_ms) as nat
    } else {
        0
    }
}

/// Whether the rotation is due at `now_ms`: the scroll interval has passed
/// since it last advanced.
pub open spec fn advance_due(d: VfdDisplayView, now_ms: u64) -> bool {
    since_last_update(d, now_ms) >= d.scroll_interval_ms
}

/// Which spot the first line shows at an advance over `n` spots.
pub open spec fn first_shown(index: nat, n: nat) -> int {
    if n <= 2 {
        0
    } else {
        index as int % n as int
    }
}

/// A tick of the rotation over the spots `spots`, of which there is one at
/// least. Nothing happens until the interval has passed. Then one spot fills
/// the first line and leaves the second blank; two fill both; of three or
/// more, the spot at the scroll index and the one after it are shown, around
/// the end of the list, and the scroll index moves on by one.
pub open spec fn rotation_step(d: VfdDisplayView, spots: Seq<AggregatedSpotView>, now_ms: u64) -> (
    VfdDisplayView,
    Option<Seq<u8>>,
) {
    if !advance_due(d, now_ms) {
        (d, None)
    } else {
        let n = spots.len();
        let at = first_shown(d.scroll_index, n);
        let first = display_text(spots[at]);
        let second = if n == 1 {
            Seq::empty()
        } else {
            display_text(spots[(at + 1) % n as int])
        };
        (
            VfdDisplayView {
                last_update_ms: now_ms,
                lines: (first, second),
                scroll_index: if n >= 3 {
                    ((at + 1) % n as int) as nat
                } else {
                    d.scroll_index
                },
                ..d
            },
            Some(frame_bytes(first, second)),
        )
    }
}

/// Whether the glyph belongs on the display at `wall_ms`: during the first
/// `percent` hundredths of each second.
pub open spec fn glyph_due(percent: u32, wall_ms: u64) -> bool {
    percent > 0 && wall_ms % 1000 < percent * 10
}

/// Whether a tick of the idle animation at `wall_ms` takes a new glyph.
pub open spec fn new_second(d: VfdDisplayView, wall_ms: u64) -> bool {
    wall_ms / 1000 != d.last_second
}

/// A tick of the idle animation at wall-clock time `wall_ms`. In a new
/// second the glyph is replaced by `draw`. When the glyph falls due and was
/// off, it is shown alone on a blank display; when it is no longer due and
/// was on, the display is cleared. Otherwise nothing is written.
pub open spec fn idle_step(d: VfdDisplayView, wall_ms: u64, draw: Glyph) -> (
    VfdDisplayView,
    Option<Seq<u8>>,
) {
    let glyph = if new_second(d, wall_ms) {
        draw
    } else {
        d.glyph
    };
    let kept = VfdDisplayView { glyph, last_second: wall_ms / 1000, ..d };
    let due = glyph_due(d.random_char_percent, wall_ms);
    if due && !d.showing_char {
        (
            VfdDisplayView {
                showing_char: true,
                lines: (glyph.line(false), glyph.line(true)),
                ..kept
            },
            Some(frame_bytes(glyph.line(false), glyph.line(true))),
        )
    } else if !due && d.showing_char {
        (
            VfdDisplayView { showing_char: false, lines: (Seq::empty(), Seq::empty()), ..kept },
            Some(seq![CLEAR_DISPLAY]),
        )
    } else {
        (kept, None)
    }
}

/// One tick: the state afterwards and the bytes to write, if any. `now_ms`
/// is the time of the tick on the steady clock, `wall_ms` on the wall clock,
/// and `draw` the glyph to take if this tick starts a new second of the idle
/// animation. A closed display does nothing.
pub open spec fn tick_step(
    d: VfdDisplayView,
    spots: Seq<AggregatedSpotView>,
    now_ms: u64,
    wall_ms: u64,
    draw: Glyph,
) -> (VfdDisplayView, Option<Seq<u8>>) {
    if !d.is_open {
        (d, None)
    } else if wanted_mode(d, spots.len()) is IdleAnimation {
        idle_step(entered(d, DisplayMode::IdleAnimation, now_ms), wall_ms, draw)
    } else {
        rotation_step(entered(d, DisplayMode::SpotRotation, now_ms), spots, now_ms)
    }
}

/// The scheduler at its start at `now_ms`: closed, rotating every three
/// seconds, with the idle glyph due for a fifth of each second.
pub open spec fn initial_display(now_ms: u64) -> VfdDisplayView {
    VfdDisplayView {
        is_open: false,
        port_name: Seq::empty(),
        scroll_index: 0,
        scroll_interval_ms: 3000,
        last_update_ms: now_ms,
        force_random_mode: false,
        random_char_percent: 20,
        mode: DisplayMode::SpotRotation,
        showing_char: false,
        glyph: Glyph { character: ' ', col: 0, row: 0 },
        last_second: 0,
        lines: (Seq::empty(), Seq::empty()),
    }
}

/// The view of bytes that may be absent.
pub open spec fn bytes_view(bytes: Option<Vec<u8>>) -> Option<Seq<u8>> {
    match bytes {
        Some(b) => Some(b@),
        None => None,
    }
}

/// Fills `text` with spaces or cuts it to the width of the display.
pub fn format_line(text: &str) -> (r: String)
    ensures
        r@ == formatted_line(text@),
{
    let chars = chars_of(text);
    let mut padded: Vec<char> = Vec::new();
    push_padded_right(&mut padded, &chars, DISPLAY_WIDTH);
    let cut = slice_chars(&padded, 0, DISPLAY_WIDTH);
    string_of(&cut)
}

/// Appends the bytes of one line of the display.
fn push_line_bytes(out: &mut Vec<u8>, text: &str)
    ensures
        final(out)@ == old(out)@ + line_bytes(text@),
{
    let line = chars_of(format_line(text).as_str());
    proof {
        lemma_formatted_line(text@);
    }
    let mut i: usize = 0;
    while i < DISPLAY_WIDTH
        invariant
            i <= DISPLAY_WIDTH,
            line@ == formatted_line(text@),
            line@.len() == DISPLAY_WIDTH,
            out@.len() == old(out)@.len() + i,
            forall|j: int| 0 <= j < old(out)@.len() ==> out@[j] == old(out)@[j],
            forall|j: int| 0 <= j < i ==> out@[old(out)@.len() + j] == display_byte(line@[j]),
        decreases DISPLAY_WIDTH - i,
    {
        let c: char = line[i];
        if c <= '\u{7f}' {
            out.push(c as u8);
        } else {
            out.push(0x3F);
        }
        i += 1;
    }
    assert(out@ =~= old(out)@ + line_bytes(text@));
}

/// The bytes that put `first` and `second` on the display.
pub fn frame(first: &str, second: &str) -> (r: Vec<u8>)
    ensures
        r@ == frame_bytes(first@, second@),
{
    let mut out: Vec<u8> = Vec::new();
    out.push(CLEAR_DISPLAY);
    push_line_bytes(&mut out, first);
    push_line_bytes(&mut out, second);
    assert(out@ =~= frame_bytes(first@, second@));
    out
}

/// The idle animation between two ticks.
#[derive(Clone, Copy, Debug)]
pub struct RandomCharState {
    /// Whether the glyph is on the display.
    pub showing_char: bool,
    /// The glyph of the current second.
    pub glyph: Glyph,
    /// The wall-clock second in which the glyph was drawn.
    pub last_second: u64,
}

impl Default for RandomCharState {
    fn default() -> (r: Self)
        ensures
            r == (RandomCharState {
                showing_char: false,
                glyph: Glyph { character: ' ', col: 0, row: 0 },
                last_second: 0,
            }),
    {
        RandomCharState {
            showing_char: false,
            glyph: Glyph { character: ' ', col: 0, row: 0 },
            last_second: 0,
        }
    }
}

/// The display scheduler.
pub struct VfdDisplay {
    open: bool,
    port_name: String,
    scroll_index: usize,
    scroll_interval_ms: u64,
    last_update_ms: u64,
    force_random_mode: bool,
    random_char_percent: u32,
    mode: DisplayMode,
    random_state: RandomCharState,
    current_lines: (String, String),
}

impl View for VfdDisplay {
    type V = VfdDisplayView;

    closed spec fn view(&self) -> VfdDisplayView {
        VfdDisplayView {
            is_open: self.open,
            port_name: self.port_name@,
            scroll_index: self.scroll_index as nat,
            scroll_interval_ms: self.scroll_interval_ms,
            last_update_ms: self.last_update_ms,
            force_random_mode: self.force_random_mode,
            random_char_percent: self.random_char_percent,
            mode: self.mode,
            showing_char: self.random_state.showing_char,
            glyph: self.random_state.glyph,
            last_second: self.random_state.last_second,
            lines: (self.current_lines.0@, self.current_lines.1@),
        }
    }
}

/// The characters of one line under a glyph.
fn glyph_line(glyph: Glyph, second: bool) -> (r: String)
    ensures
        r@ == glyph.line(second),
{
    let mut chars: Vec<char> = Vec::new();
    let mut i: usize = 0;
    while i < DISPLAY_WIDTH
        invariant
            i <= DISPLAY_WIDTH,
            chars@.len() == i,
            forall|j: int| 0 <= j < i ==> chars@[j] == glyph.line(second)[j],
        decreases DISPLAY_WIDTH - i,
    {
        if (glyph.row != 0) == second && glyph.col == i {
            chars.push(glyph.character);
        } else {
            chars.push(' ');
        }
        i += 1;
    }
    assert(chars@ =~= glyph.line(second));
    string_of(&chars)
}

impl VfdDisplay {
    /// A closed display that rotates every three seconds and shows the idle
    /// glyph for a fifth of each second. The rotation counts its interval
    /// from `now_ms`.
    pub fn new(now_ms: u64) -> (r: Self)
        ensures
            r@ == initial_display(now_ms),
    {
        VfdDisplay {
            open: false,
            port_name: String::new(),
            scroll_index: 0,
            scroll_interval_ms: 3000,
            last_update_ms: now_ms,
            force_random_mode: false,
            random_char_percent: 20,
            mode: DisplayMode::SpotRotation,
            random_state: RandomCharState::default(),
            current_lines: (String::new(), String::new()),
        }
    }

    /// Records that the display on `port_name` is attached, and hands back
    /// the bytes that clear it.
    pub fn open(&mut self, port_name: &str) -> (bytes: Vec<u8>)
        ensures
            final(self)@ == (VfdDisplayView {
                is_open: true,
                port_name: port_name@,
                lines: (Seq::empty(), Seq::empty()),
                ..old(self)@
            }),
            bytes@ == seq![CLEAR_DISPLAY],
    {
        self.open = true;
        self.port_name = String::from_str(port_name);
        self.clear()
    }

    /// Records that the display is detached. Where one was attached, hands
    /// back the bytes that clear it, to be written before it is let go.
    pub fn close(&mut self) -> (bytes: Vec<u8>)
        ensures
            final(self)@ == (VfdDisplayView {
                is_open: false,
                port_name: Seq::empty(),
                lines: if old(self)@.is_open {
                    (Seq::empty(), Seq::empty())
                } else {
                    old(self)@.lines
                },
                ..old(self)@
            }),
            bytes@ == if old(self)@.is_open {
                seq![CLEAR_DISPLAY]
            } else {
                Seq::<u8>::empty()
            },
    {
        let bytes = if self.open {
            self.clear()
        } else {
            Vec::new()
        };
        self.open = false;
        self.port_name = String::new();
        bytes
    }

    /// Whether a display is attached.
    pub fn is_open(&self) -> (b: bool)
        ensures
            b == self@.is_open,
    {
        self.open
    }

    /// The name of the port the display is attached to; empty where none is.
    pub fn port_name(&self) -> (name: &str)
        ensures
            name@ == self@.port_name,
    {
        self.port_name.as_str()
    }

    /// Sets the least time between two advances of the rotation.
    pub fn set_scroll_interval(&mut self, seconds: u32)
        ensures
            final(self)@ == (VfdDisplayView {
                scroll_interval_ms: (seconds * 1000) as u64,
                ..old(self)@
            }),
    {
        self.scroll_interval_ms = seconds as u64 * 1000;
    }

    /// Makes the idle animation run whether or not there are spots.
    pub fn set_force_random_mode(&mut self, enabled: bool)
        ensures
            final(self)@ == (VfdDisplayView { force_random_mode: enabled, ..old(self)@ }),
    {
        self.force_random_mode = enabled;
    }

    /// Sets for what part of each second the idle glyph shows, in percent;
    /// more than 100 counts as 100.
    pub fn set_random_char_percent(&mut self, percent: u32)
        ensures
            final(self)@ == (VfdDisplayView {
                random_char_percent: if percent > 100 {
                    100
                } else {
                    percent
                },
                ..old(self)@
            }),
    {
        self.random_char_percent = if percent > 100 {
            100
        } else {
            percent
        };
    }

    /// For what part of each second the idle glyph shows, in percent.
    pub fn random_char_percent(&self) -> (percent: u32)
        ensures
            percent == self@.random_char_percent,
    {
        self.random_char_percent
    }

    /// Blanks both lines, and hands back the byte that clears the display
    /// where one is attached.
    pub fn clear(&mut self) -> (bytes: Vec<u8>)
        ensures
            final(self)@ == (VfdDisplayView {
                lines: (Seq::empty(), Seq::empty()),
                ..old(self)@
            }),
            bytes@ == if old(self)@.is_open {
                seq![CLEAR_DISPLAY]
            } else {
                Seq::<u8>::empty()
            },
    {
        self.current_lines = (String::new(), String::new());
        let mut bytes: Vec<u8> = Vec::new();
        if self.open {
            bytes.push(CLEAR_DISPLAY);
        }
        bytes
    }

    /// Takes two lines as shown and hands back the bytes that show them.
    fn write_display(&mut self, first: String, second: String) -> (bytes: Vec<u8>)
        ensures
            final(self)@ == (VfdDisplayView { lines: (first@, second@), ..old(self)@ }),
            bytes@ == frame_bytes(first@, second@),
    {
        let bytes = frame(first.as_str(), second.as_str());
        self.current_lines = (first, second);
        bytes
    }

    /// A tick of the idle animation.
    fn update_random_mode(&mut self, wall_ms: u64, draw: Glyph) -> (bytes: Option<Vec<u8>>)
        requires
            old(self)@.is_open,
        ensures
            final(self)@ == idle_step(old(self)@, wall_ms, draw).0,
            bytes_view(bytes) == idle_step(old(self)@, wall_ms, draw).1,
    {
        let current_second: u64 = wall_ms / 1000;
        let ms_in_second: u64 = wall_ms % 1000;
        let threshold_ms: u64 = self.random_char_percent as u64 * 10;
        let should_show: bool = ms_in_second < threshold_ms && self.random_char_percent > 0;
        if current_second != self.random_state.last_second {
            self.random_state.last_second = current_second;
            self.random_state.glyph = draw;
        }
        if should_show && !self.random_state.showing_char {
            self.random_state.showing_char = true;
            let first = glyph_line(self.random_state.glyph, false);
            let second = glyph_line(self.random_state.glyph, true);
            Some(self.write_display(first, second))
        } else if !should_show && self.random_state.showing_char {
            self.random_state.showing_char = false;
            Some(self.clear())
        } else {
            None
        }
    }

    /// A tick of the rotation.
    fn update_rotation(&mut self, spots: &[AggregatedSpot], now_ms: u64) -> (bytes: Option<
        Vec<u8>,
    >)
        requires
            spots@.len() > 0,
            old(self)@.is_open,
        ensures
            final(self)@ == rotation_step(old(self)@, spot_views(spots@), now_ms).0,
            bytes_view(bytes) == rotation_step(old(self)@, spot_views(spots@), now_ms).1,
    {
        let elapsed: u64 = if now_ms >= self.last_update_ms {
            now_ms - self.last_update_ms
        } else {
            0
        };
        if elapsed < self.scroll_interval_ms {
            return None;
        }
        self.last_update_ms = now_ms;
        let n: usize = spots.len();
        let ghost views = spot_views(spots@);
        assert(forall|i: int| 0 <= i < n ==> views[i] == spots@[i]@);
        if n == 1 {
            let first = spots[0].to_display_string();
            Some(self.write_display(first, String::new()))
        } else if n == 2 {
            let first = spots[0].to_display_string();
            let second = spots[1].to_display_string();
            assert(1int % 2 == 1);
            Some(self.write_display(first, second))
        } else {
            let at: usize = self.scroll_index % n;
            let after: usize = (at + 1) % n;
            let first = spots[at].to_display_string();
            let second = spots[after].to_display_string();
            self.scroll_index = after;
            Some(self.write_display(first, second))
        }
    }

    /// One tick with a given glyph: see [`tick_step`]. This is
    /// [`VfdDisplay::update`] with the random draw made by the caller.
    pub fn tick(&mut self, spots: &[AggregatedSpot], now_ms: u64, wall_ms: u64, draw: Glyph) -> (bytes:
        Option<Vec<u8>>)
        ensures
            final(self)@ == tick_step(old(self)@, spot_views(spots@), now_ms, wall_ms, draw).0,
            bytes_view(bytes) == tick_step(
                old(self)@,
                spot_views(spots@),
                now_ms,
                wall_ms,
                draw,
            ).1,
    {
        if !self.open {
            return None;
        }
        if self.force_random_mode || spots.len() == 0 {
            if self.mode != DisplayMode::IdleAnimation {
                self.mode = DisplayMode::IdleAnimation;
                self.last_update_ms = now_ms;
            }
            self.update_random_mode(wall_ms, draw)
        } else {
            if self.mode != DisplayMode::SpotRotation {
                self.mode = DisplayMode::SpotRotation;
                self.last_update_ms = now_ms;
            }
            self.update_rotation(spots, now_ms)
        }
    }

    /// Whether a tick at `wall_ms` over `spot_count` spots draws a new glyph.
    pub open spec fn draws_glyph(d: VfdDisplayView, spot_count: nat, wall_ms: u64) -> bool {
        d.is_open && wanted_mode(d, spot_count) is IdleAnimation && new_second(d, wall_ms)
    }

    /// One tick: decides from the spots at hand, the steady clock `now_ms`
    /// and the wall clock `wall_ms` what the display shows, and hands back
    /// the bytes to write, if any. A tick that starts a new second of the
    /// idle animation draws its glyph at random; in everything else the
    /// outcome is that of [`tick_step`] with the glyph that the display
    /// holds afterwards.
    pub fn update(&mut self, spots: &[AggregatedSpot], now_ms: u64, wall_ms: u64) -> (bytes: Option<
        Vec<u8>,
    >)
        ensures
            final(self)@ == tick_step(
                old(self)@,
                spot_views(spots@),
                now_ms,
                wall_ms,
                final(self)@.glyph,
            ).0,
            bytes_view(bytes) == tick_step(
                old(self)@,
                spot_views(spots@),
                now_ms,
                wall_ms,
                final(self)@.glyph,
            ).1,
            Self::draws_glyph(old(self)@, spots@.len(), wall_ms) ==> final(self)@.glyph.is_valid(),
            !Self::draws_glyph(old(self)@, spots@.len(), wall_ms) ==> final(self)@.glyph == old(self)@.glyph,
    {
        let draws: bool = self.open && (self.force_random_mode || spots.len() == 0) && wall_ms
            / 1000 != self.random_state.last_second;
        let draw: Glyph = if draws {
            random_glyph()
        } else {
            self.random_state.glyph
        };
        self.tick(spots, now_ms, wall_ms, draw)
    }

    /// The two lines that the display shows.
    pub fn get_preview(&self) -> (lines: [String; 2])
        ensures
            lines[0]@ == self@.lines.0,
            lines[1]@ == self@.lines.1,
    {
        [self.current_lines.0.clone(), self.current_lines.1.clone()]
    }

    /// Whether the idle animation is forced.
    pub fn is_in_random_mode(&self) -> (b: bool)
        ensures
            b == self@.force_random_mode,
    {
        self.force_random_mode
    }
}

/// With a duty cycle of zero the glyph is never due; with one of a hundred
/// it is due at every instant; and in between it is due for the first
/// `percent` hundredths of each second.
pub proof fn lemma_duty_cycle(percent: u32, wall_ms: u64)
    ensures
        percent == 0 ==> !glyph_due(percent, wall_ms),
        percent >= 100 ==> glyph_due(percent, wall_ms),
        glyph_due(percent, wall_ms) <==> percent > 0 && wall_ms % 1000 < percent * 10,
{
}

/// The idle animation writes on an edge only: when the glyph goes on, the
/// whole display; when it goes off, the clear byte; else nothing.
pub proof fn lemma_idle_writes_on_edges(d: VfdDisplayView, wall_ms: u64, draw: Glyph)
    ensures
        idle_step(d, wall_ms, draw).1 is Some <==> idle_step(d, wall_ms, draw).0.showing_char
            != d.showing_char,
        idle_step(d, wall_ms, draw).0.showing_char == glyph_due(d.random_char_percent, wall_ms),
        idle_step(d, wall_ms, draw).1 is None ==> idle_step(d, wall_ms, draw).0.lines == d.lines,
        idle_step(d, wall_ms, draw).0.scroll_index == d.scroll_index,
        idle_step(d, wall_ms, draw).0.last_update_ms == d.last_update_ms,
{
}

/// The rotation writes when it advances and at no other time, and an
/// advance is the only thing that moves the scroll index.
pub proof fn lemma_rotation_writes_on_advance(
    d: VfdDisplayView,
    spots: Seq<AggregatedSpotView>,
    now_ms: u64,
)
    ensures
        rotation_step(d, spots, now_ms).1 is Some <==> advance_due(d, now_ms),
        !advance_due(d, now_ms) ==> rotation_step(d, spots, now_ms).0 == d,
{
}

/// A change of mode leaves the scroll index where it was.
pub proof fn lemma_mode_change_keeps_place(d: VfdDisplayView, mode: DisplayMode, now_ms: u64)
    ensures
        entered(d, mode, now_ms).scroll_index == d.scroll_index,
        entered(d, mode, now_ms).mode == mode,
        d.mode != mode ==> entered(d, mode, now_ms).last_update_ms == now_ms,
        d.mode == mode ==> entered(d, mode, now_ms) == d,
{
}

/// What one tick is given.
pub struct TickInput {
    /// The spots at hand.
    pub spots: Seq<AggregatedSpotView>,
    /// The steady clock.
    pub now_ms: u64,
    /// The wall clock.
    pub wall_ms: u64,
    /// The glyph to take in a new second of the idle animation.
    pub draw: Glyph,
}

/// The state after the tick `t`.
#[verifier::opaque]
pub open spec fn ticked(d: VfdDisplayView, t: TickInput) -> VfdDisplayView {
    tick_step(d, t.spots, t.now_ms, t.wall_ms, t.draw).0
}

/// The state after a run of ticks.
pub open spec fn after_ticks(d: VfdDisplayView, ticks: Seq<TickInput>) -> VfdDisplayView
    decreases ticks.len(),
{
    if ticks.len() == 0 {
        d
    } else {
        ticked(after_ticks(d, ticks.drop_last()), ticks.last())
    }
}

/// Whether each tick comes at least the scroll interval after the one
/// before it, the first after the last advance of `d`.
pub open spec fn spaced_by_interval(d: VfdDisplayView, ticks: Seq<TickInput>) -> bool {
    forall|i: int|
        0 <= i < ticks.len() ==> (#[trigger] ticks[i]).now_ms - (if i == 0 {
            d.last_update_ms
        } else {
            ticks[i - 1].now_ms
        }) >= d.scroll_interval_ms
}

/// Whether a rotation over `n` spots runs through all of `ticks`: the
/// display is attached and rotating, the idle animation is not forced, and
/// every tick has `n` spots and is due.
pub open spec fn rotates_through(d: VfdDisplayView, ticks: Seq<TickInput>, n: nat) -> bool {
    &&& d.is_open
    &&& !d.force_random_mode
    &&& d.mode is SpotRotation
    &&& forall|i: int| 0 <= i < ticks.len() ==> (#[trigger] ticks[i]).spots.len() == n
    &&& spaced_by_interval(d, ticks)
}

/// Which spot the first line shows after the `k`-th tick of a rotation
/// that started with the scroll index `index`.
pub open spec fn shown_at(index: nat, n: nat, k: int) -> int {
    (index + k - 1) % n as int
}

/// Moving on by one around a list of `n` commutes with taking remainders.
proof fn lemma_next_index(a: int, n: int)
    requires
        n >= 3,
        a >= 0,
    ensures
        ((a % n) + 1) % n == (a + 1) % n,
        0 <= (a + 1) % n < n,
        0 <= a % n < n,
        ((a + 1) % n) % n == (a + 1) % n,
{
    lemma_add_mod_noop(a, 1, n);
    lemma_small_mod(1, n as nat);
    lemma_mod_bound(a + 1, n);
    lemma_mod_bound(a, n);
    lemma_small_mod(((a + 1) % n) as nat, n as nat);
}

/// One due tick of a rotation over three spots or more.
proof fn lemma_rotation_advance(d: VfdDisplayView, t: TickInput, n: nat)
    requires
        n >= 3,
        d.is_open,
        !d.force_random_mode,
        d.mode is SpotRotation,
        t.spots.len() == n,
        advance_due(d, t.now_ms),
    ensures
        ({
            let s = ticked(d, t);
            let at = d.scroll_index as int % n as int;
            &&& s.is_open
            &&& !s.force_random_mode
            &&& s.mode is SpotRotation
            &&& s.scroll_interval_ms == d.scroll_interval_ms
            &&& s.last_update_ms == t.now_ms
            &&& s.scroll_index == (at + 1) % n as int
            &&& s.lines.0 == display_text(t.spots[at])
            &&& s.lines.1 == display_text(t.spots[(at + 1) % n as int])
        }),
{
    reveal(ticked);
    assert(wanted_mode(d, t.spots.len()) is SpotRotation);
    assert(entered(d, DisplayMode::SpotRotation, t.now_ms) == d);
    lemma_mod_bound(d.scroll_index as int, n as int);
}

/// The scroll index after `k` advances over `n` spots.
pub open spec fn advanced_index(index: nat, n: nat, k: nat) -> nat
    decreases k,
{
    if k == 0 {
        index
    } else {
        ((advanced_index(index, n, (k - 1) as nat) as int % n as int + 1) % n as int) as nat
    }
}

/// After `k` advances the scroll index has moved on by `k` places, around
/// the end of the list.
proof fn lemma_advanced_index(index: nat, n: nat, k: nat)
    requires
        n >= 3,
    ensures
        advanced_index(index, n, k) as int % n as int == (index + k) as int % n as int,
        k >= 1 ==> advanced_index(index, n, k) == (index + k) as int % n as int,
    decreases k,
{
    if k > 0 {
        let prev = advanced_index(index, n, (k - 1) as nat);
        lemma_advanced_index(index, n, (k - 1) as nat);
        lemma_next_index(prev as int, n as int);
        lemma_next_index(index + k - 1, n as int);
    }
}

/// The state after `k` ticks of a rotation over three spots or more.
#[verifier::rlimit(50)]
proof fn lemma_rotation_after(d: VfdDisplayView, ticks: Seq<TickInput>, n: nat, k: int)
    requires
        n >= 3,
        rotates_through(d, ticks, n),
        0 <= k <= ticks.len(),
    ensures
        ({
            let s = after_ticks(d, ticks.take(k));
            &&& s.is_open
            &&& !s.force_random_mode
            &&& s.mode is SpotRotation
            &&& s.scroll_interval_ms == d.scroll_interval_ms
            &&& s.scroll_index == advanced_index(d.scroll_index, n, k as nat)
            &&& k == 0 ==> s == d
            &&& k >= 1 ==> {
                let at = advanced_index(d.scroll_index, n, (k - 1) as nat) as int % n as int;
                &&& s.last_update_ms == ticks[k - 1].now_ms
                &&& s.lines.0 == display_text(ticks[k - 1].spots[at])
                &&& s.lines.1 == display_text(ticks[k - 1].spots[(at + 1) % n as int])
            }
        }),
    decreases k,
{
    if k == 0 {
        assert(ticks.take(0) =~= Seq::<TickInput>::empty());
    } else {
        lemma_rotation_after(d, ticks, n, k - 1);
        let run = ticks.take(k);
        assert(run.drop_last() =~= ticks.take(k - 1));
        assert(run.last() == ticks[k - 1]);
        let before = after_ticks(d, ticks.take(k - 1));
        let t = ticks[k - 1];
        assert(after_ticks(d, run) == ticked(before, t));
        assert(advance_due(before, t.now_ms)) by {
            if k == 1 {
                assert(before == d);
            } else {
                assert(before.last_update_ms == ticks[k - 2].now_ms);
            }
        }
        lemma_rotation_advance(before, t, n);
    }
}

/// Over three spots or more, with every tick due, the rotation never skips
/// a spot: after the `k`-th tick the first line shows the spot `k - 1`
/// places after the one the rotation started at, around the end of the list,
/// and the second line shows the spot after that one.
#[verifier::rlimit(50)]
pub proof fn lemma_rotation_window(d: VfdDisplayView, ticks: Seq<TickInput>, n: nat, k: int)
    requires
        n >= 3,
        rotates_through(d, ticks, n),
        1 <= k <= ticks.len(),
    ensures
        0 <= shown_at(d.scroll_index, n, k) < n,
        after_ticks(d, ticks.take(k)).lines.0 == display_text(
            ticks[k - 1].spots[shown_at(d.scroll_index, n, k)],
        ),
        after_ticks(d, ticks.take(k)).lines.1 == display_text(
            ticks[k - 1].spots[(shown_at(d.scroll_index, n, k) + 1) % n as int],
        ),
{
    lemma_rotation_after(d, ticks, n, k);
    lemma_advanced_index(d.scroll_index, n, (k - 1) as nat);
    lemma_mod_bound(d.scroll_index + k - 1, n as int);
}

/// Within any `n` advances in a row, every one of the `n` spots comes up on
/// the first line: for each place `j` there is a tick among the first `n`
/// after which the first line shows the spot at `j`.
#[verifier::rlimit(50)]
pub proof fn lemma_rotation_coverage(d: VfdDisplayView, ticks: Seq<TickInput>, n: nat, j: int)
    requires
        n >= 3,
        rotates_through(d, ticks, n),
        ticks.len() >= n,
        0 <= j < n,
    ensures
        exists|k: int|
            1 <= k <= n && shown_at(d.scroll_index, n, k) == j && after_ticks(
                d,
                ticks.take(k),
            ).lines.0 == display_text(ticks[k - 1].spots[j]),
{
    let m = n as int;
    let start = d.scroll_index as int % m;
    lemma_mod_bound(d.scroll_index as int, m);
    let steps = if j >= start {
        j - start
    } else {
        j - start + m
    };
    let k = steps + 1;
    lemma_fundamental_div_mod(d.scroll_index as int, m);
    let q = d.scroll_index as int / m;
    assert(d.scroll_index + k - 1 == m * q + (start + steps));
    lemma_mod_multiples_vanish(q, start + steps, m);
    if j >= start {
        lemma_small_mod(j as nat, n);
    } else {
        lemma_mod_multiples_vanish(1, j, m);
        assert(start + steps == m * 1 + j);
        lemma_small_mod(j as nat, n);
    }
    assert(shown_at(d.scroll_index, n, k) == j);
    lemma_rotation_window(d, ticks, n, k);
}

/// One due tick of a rotation that is under way, over three spots or more:
/// the first line shows the spot at the scroll index, the second the spot
/// after it, around the end of the list; the scroll index moves on by one;
/// and the interval counts from this tick.
pub proof fn lemma_due_rotation_tick(
    d: VfdDisplayView,
    spots: Seq<AggregatedSpotView>,
    now_ms: u64,
    wall_ms: u64,
    draw: Glyph,
)
    requires
        d.is_open,
        !d.force_random_mode,
        d.mode is SpotRotation,
        spots.len() >= 3,
        advance_due(d, now_ms),
    ensures
        ({
            let n = spots.len() as int;
            let at = d.scroll_index as int % n;
            let after = tick_step(d, spots, now_ms, wall_ms, draw);
            &&& 0 <= at < n
            &&& after.0.lines.0 == display_text(spots[at])
            &&& after.0.lines.1 == display_text(spots[(at + 1) % n])
            &&& after.0.scroll_index == (at + 1) % n
            &&& after.0.scroll_index == (d.scroll_index + 1) as int % n
            &&& after.0.last_update_ms == now_ms
            &&& after.1 == Some(frame_bytes(after.0.lines.0, after.0.lines.1))
        }),
{
    let n = spots.len() as int;
    lemma_mod_bound(d.scroll_index as int, n);
    lemma_next_index(d.scroll_index as int, n);
    assert(wanted_mode(d, spots.len()) is SpotRotation);
    assert(entered(d, DisplayMode::SpotRotation, now_ms) == d);
}

/// Within `n` advances in a row no spot comes up twice on the first line:
/// together with [`lemma_rotation_coverage`], each of the `n` spots comes up
/// exactly once, in the order of the list from where the rotation stood.
pub proof fn lemma_rotation_each_once(index: nat, n: nat, k1: int, k2: int)
    requires
        n >= 3,
        1 <= k1 < k2 <= n,
    ensures
        shown_at(index, n, k1) != shown_at(index, n, k2),
        shown_at(index, n, k1 + 1) == (shown_at(index, n, k1) + 1) % n as int,
{
    let m = n as int;
    let x = index + k1 - 1;
    let y = index + k2 - 1;
    lemma_fundamental_div_mod(x, m);
    lemma_fundamental_div_mod(y, m);
    lemma_mod_bound(x, m);
    lemma_mod_bound(y, m);
    if x % m == y % m {
        let q1 = x / m;
        let q2 = y / m;
        assert(y - x == m * (q2 - q1)) by (nonlinear_arith)
            requires
                x == m * q1 + x % m,
                y == m * q2 + y % m,
                x % m == y % m,
        ;
        assert(false) by (nonlinear_arith)
            requires
                y - x == m * (q2 - q1),
                0 < y - x < m,
        ;
    }
    lemma_next_index(x, m);
}

/// Whether the spot at place `j` comes up on the first line within the
/// first `n` advances of a rotation that started with the scroll index
/// `index`.
pub open spec fn comes_up_in_turn(index: nat, n: nat, j: int) -> bool {
    exists|k: int| 1 <= k <= n && #[trigger] shown_at(index, n, k) == j
}

/// One full turn: `n` due ticks in a row over the same `n` spots, three or
/// more, put the spots on the first line one after the other in the order
/// of the list, starting where the rotation stood and going around its end,
/// each of them exactly once; and the second line always shows the spot
/// after the one on the first.
pub proof fn lemma_full_rotation(
    d: VfdDisplayView,
    ticks: Seq<TickInput>,
    spots: Seq<AggregatedSpotView>,
)
    requires
        spots.len() >= 3,
        ticks.len() == spots.len(),
        rotates_through(d, ticks, spots.len()),
        forall|i: int| 0 <= i < ticks.len() ==> (#[trigger] ticks[i]).spots == spots,
    ensures
        forall|k: int|
            1 <= k <= spots.len() ==> {
                let at = #[trigger] shown_at(d.scroll_index, spots.len(), k);
                &&& 0 <= at < spots.len()
                &&& at == (d.scroll_index + k - 1) % spots.len() as int
                &&& after_ticks(d, ticks.take(k)).lines.0 == display_text(spots[at])
                &&& after_ticks(d, ticks.take(k)).lines.1 == display_text(
                    spots[(at + 1) % spots.len() as int],
                )
            },
        forall|k1: int, k2: int|
            1 <= k1 < k2 <= spots.len() ==> #[trigger] shown_at(d.scroll_index, spots.len(), k1)
                != #[trigger] shown_at(d.scroll_index, spots.len(), k2),
        forall|j: int|
            0 <= j < spots.len() ==> #[trigger] comes_up_in_turn(d.scroll_index, spots.len(), j),
{
    let n = spots.len();
    assert forall|k: int| 1 <= k <= n implies {
        let at = #[trigger] shown_at(d.scroll_index, n, k);
        &&& 0 <= at < n
        &&& at == (d.scroll_index + k - 1) % n as int
        &&& after_ticks(d, ticks.take(k)).lines.0 == display_text(spots[at])
        &&& after_ticks(d, ticks.take(k)).lines.1 == display_text(spots[(at + 1) % n as int])
    } by {
        lemma_rotation_window(d, ticks, n, k);
        assert(ticks[k - 1].spots == spots);
    }
    assert forall|k1: int, k2: int| 1 <= k1 < k2 <= n implies #[trigger] shown_at(
        d.scroll_index,
        n,
        k1,
    ) != #[trigger] shown_at(d.scroll_index, n, k2) by {
        lemma_rotation_each_once(d.scroll_index, n, k1, k2);
    }
    assert forall|j: int| 0 <= j < n implies #[trigger] comes_up_in_turn(
        d.scroll_index,
        n,
        j,
    ) by {
        lemma_rotation_coverage(d, ticks, n, j);
    }
}

} // verus!
