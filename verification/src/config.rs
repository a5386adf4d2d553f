//! The settings of the application, their defaults, and how they are read
//! from and written to the entries of a settings file.

use crate::numeral::{decimal, push_decimal, push_signed_decimal, signed_decimal};
use crate::text::string_of;
use vstd::prelude::*;

verus! {

/// Default for the weakest signal shown, in decibels.
pub const DEFAULT_MIN_SNR: i32 = 10;

/// Default for the age limit, in minutes.
pub const DEFAULT_MAX_AGE_MINUTES: u32 = 10;

/// Default for the scroll interval, in seconds.
pub const DEFAULT_SCROLL_INTERVAL_SECONDS: u32 = 3;

/// Default for the share of each second during which the idle glyph shows.
pub const DEFAULT_RANDOM_CHAR_PERCENT: u32 = 20;

/// Default port of `rigctld`.
pub const DEFAULT_RIGCTLD_PORT: u16 = 4532;

/// Settings of the radio control.
#[derive(Debug)]
pub struct RadioConfig {
    pub enabled: bool,
    pub backend: String,
    pub rigctld_host: String,
    pub rigctld_port: u16,
    pub omnirig_rig: u8,
}

/// What a [`RadioConfig`] holds, as mathematical values.
pub struct RadioConfigView {
    pub enabled: bool,
    pub backend: Seq<char>,
    pub rigctld_host: Seq<char>,
    pub rigctld_port: u16,
    pub omnirig_rig: u8,
}

impl View for RadioConfig {
    type V = RadioConfigView;

    open spec fn view(&self) -> RadioConfigView {
        RadioConfigView {
            enabled: self.enabled,
            backend: self.backend@,
            rigctld_host: self.rigctld_host@,
            rigctld_port: self.rigctld_port,
            omnirig_rig: self.omnirig_rig,
        }
    }
}

impl Clone for RadioConfig {
    fn clone(&self) -> (r: Self)
        ensures
            r == *self,
    {
        RadioConfig {
            enabled: self.enabled,
            backend: self.backend.clone(),
            rigctld_host: self.rigctld_host.clone(),
            rigctld_port: self.rigctld_port,
            omnirig_rig: self.omnirig_rig,
        }
    }
}

/// The backend that a platform starts out with: OmniRig on Windows,
/// `rigctld` elsewhere.
pub open spec fn default_backend(windows: bool) -> Seq<char> {
    if windows {
        "omnirig"@
    } else {
        "rigctld"@
    }
}

/// The radio settings that a platform starts out with.
pub open spec fn default_radio(windows: bool) -> RadioConfigView {
    RadioConfigView {
        enabled: false,
        backend: default_backend(windows),
        rigctld_host: "localhost"@,
        rigctld_port: DEFAULT_RIGCTLD_PORT,
        omnirig_rig: 1,
    }
}

/// The name of the backend that a platform starts out with.
fn backend_for(windows: bool) -> (name: String)
    ensures
        name@ == default_backend(windows),
{
    if windows {
        String::from_str("omnirig")
    } else {
        String::from_str("rigctld")
    }
}

impl RadioConfig {
    /// The radio settings that a platform starts out with.
    pub fn defaults(windows: bool) -> (r: Self)
        ensures
            r@ == default_radio(windows),
    {
        RadioConfig {
            enabled: false,
            backend: backend_for(windows),
            rigctld_host: String::from_str("localhost"),
            rigctld_port: DEFAULT_RIGCTLD_PORT,
            omnirig_rig: 1,
        }
    }
}

/// Settings of the application.
#[derive(Debug)]
pub struct Config {
    pub callsign: String,
    pub serial_port: String,
    pub min_snr: i32,
    pub max_age_minutes: u32,
    pub scroll_interval_seconds: u32,
    /// Share of each second, in percent, during which the idle glyph shows.
    pub random_char_percent: u32,
    pub radio: RadioConfig,
}

/// What a [`Config`] holds, as mathematical values.
pub struct ConfigView {
    pub callsign: Seq<char>,
    pub serial_port: Seq<char>,
    pub min_snr: i32,
    pub max_age_minutes: u32,
    pub scroll_interval_seconds: u32,
    pub random_char_percent: u32,
    pub radio: RadioConfigView,
}

impl View for Config {
    type V = ConfigView;

    open spec fn view(&self) -> ConfigView {
        ConfigView {
            callsign: self.callsign@,
            serial_port: self.serial_port@,
            min_snr: self.min_snr,
            max_age_minutes: self.max_age_minutes,
            scroll_interval_seconds: self.scroll_interval_seconds,
            random_char_percent: self.random_char_percent,
            radio: self.radio@,
        }
    }
}

impl Clone for Config {
    fn clone(&self) -> (r: Self)
        ensures
            r == *self,
    {
        Config {
            callsign: self.callsign.clone(),
            serial_port: self.serial_port.clone(),
            min_snr: self.min_snr,
            max_age_minutes: self.max_age_minutes,
            scroll_interval_seconds: self.scroll_interval_seconds,
            random_char_percent: self.random_char_percent,
            radio: self.radio.clone(),
        }
    }
}

/// The settings that a platform starts out with.
pub open spec fn default_config(windows: bool) -> ConfigView {
    ConfigView {
        callsign: Seq::empty(),
        serial_port: Seq::empty(),
        min_snr: DEFAULT_MIN_SNR,
        max_age_minutes: DEFAULT_MAX_AGE_MINUTES,
        scroll_interval_seconds: DEFAULT_SCROLL_INTERVAL_SECONDS,
        random_char_percent: DEFAULT_RANDOM_CHAR_PERCENT,
        radio: default_radio(windows),
    }
}

/// What a settings file held, entry by entry: `None` for an entry that is
/// missing or cannot be read as what it should be.
#[derive(Debug)]
pub struct StoredSettings {
    pub callsign: Option<String>,
    pub serial_port: Option<String>,
    pub min_snr: Option<i64>,
    pub max_age_minutes: Option<i64>,
    pub scroll_interval_seconds: Option<i64>,
    pub random_char_percent: Option<i64>,
    pub radio_enabled: Option<bool>,
    pub radio_backend: Option<String>,
    pub rigctld_host: Option<String>,
    pub rigctld_port: Option<i64>,
    pub omnirig_rig: Option<i64>,
}

/// The text of an entry, or `fallback` where it is missing.
pub open spec fn text_or(entry: Option<String>, fallback: Seq<char>) -> Seq<char> {
    match entry {
        Some(text) => text@,
        None => fallback,
    }
}

/// The number of an entry, or `fallback` where it is missing.
pub open spec fn number_or(entry: Option<i64>, fallback: i64) -> i64 {
    match entry {
        Some(n) => n,
        None => fallback,
    }
}

/// The settings that a file gives: each entry that is there, cut to the
/// width of its field, and the default for each that is not.
pub open spec fn config_from(stored: StoredSettings, windows: bool) -> ConfigView {
    ConfigView {
        callsign: text_or(stored.callsign, Seq::empty()),
        serial_port: text_or(stored.serial_port, Seq::empty()),
        min_snr: number_or(stored.min_snr, DEFAULT_MIN_SNR as i64) as i32,
        max_age_minutes: number_or(stored.max_age_minutes, DEFAULT_MAX_AGE_MINUTES as i64) as u32,
        scroll_interval_seconds: number_or(
            stored.scroll_interval_seconds,
            DEFAULT_SCROLL_INTERVAL_SECONDS as i64,
        ) as u32,
        random_char_percent: number_or(
            stored.random_char_percent,
            DEFAULT_RANDOM_CHAR_PERCENT as i64,
        ) as u32,
        radio: RadioConfigView {
            enabled: match stored.radio_enabled {
                Some(b) => b,
                None => false,
            },
            backend: text_or(stored.radio_backend, default_backend(windows)),
            rigctld_host: text_or(stored.rigctld_host, "localhost"@),
            rigctld_port: number_or(stored.rigctld_port, DEFAULT_RIGCTLD_PORT as i64) as u16,
            omnirig_rig: number_or(stored.omnirig_rig, 1) as u8,
        },
    }
}

/// One entry of a settings file.
#[derive(Debug)]
pub struct SettingsEntry {
    pub section: String,
    pub key: String,
    pub value: String,
}

/// What a [`SettingsEntry`] holds, as mathematical values.
pub struct SettingsEntryView {
    pub section: Seq<char>,
    pub key: Seq<char>,
    pub value: Seq<char>,
}

impl View for SettingsEntry {
    type V = SettingsEntryView;

    open spec fn view(&self) -> SettingsEntryView {
        SettingsEntryView { section: self.section@, key: self.key@, value: self.value@ }
    }
}

/// The entry `key = value` of `section`.
pub open spec fn entry(section: Seq<char>, key: Seq<char>, value: Seq<char>) -> SettingsEntryView {
    SettingsEntryView { section, key, value }
}

/// The word that stands for a truth value in a settings file.
pub open spec fn truth_text(b: bool) -> Seq<char> {
    if b {
        "true"@
    } else {
        "false"@
    }
}

/// The entries that hold the settings `c`, in the order in which they are
/// written.
pub open spec fn entries_of(c: ConfigView) -> Seq<SettingsEntryView> {
    seq![
        entry("connection"@, "callsign"@, c.callsign),
        entry("display"@, "serial_port"@, c.serial_port),
        entry("filters"@, "min_snr"@, signed_decimal(c.min_snr as int)),
        entry("filters"@, "max_age_minutes"@, decimal(c.max_age_minutes as nat)),
        entry("filters"@, "scroll_interval_seconds"@, decimal(c.scroll_interval_seconds as nat)),
        entry("display"@, "random_char_percent"@, decimal(c.random_char_percent as nat)),
        entry("radio"@, "enabled"@, truth_text(c.radio.enabled)),
        entry("radio"@, "backend"@, c.radio.backend),
        entry("radio"@, "rigctld_host"@, c.radio.rigctld_host),
        entry("radio"@, "rigctld_port"@, decimal(c.radio.rigctld_port as nat)),
        entry("radio"@, "omnirig_rig"@, decimal(c.radio.omnirig_rig as nat)),
    ]
}

/// The views of a run of entries.
pub open spec fn entries_view(entries: Seq<SettingsEntry>) -> Seq<SettingsEntryView> {
    Seq::new(entries.len(), |i: int| entries[i]@)
}

/// The entry `key = value` of `section`.
fn make_entry(section: &str, key: &str, value: String) -> (r: SettingsEntry)
    ensures
        r@ == entry(section@, key@, value@),
{
    SettingsEntry { section: String::from_str(section), key: String::from_str(key), value }
}

/// The decimal numeral of `n` as a string.
fn number_text(n: u64) -> (r: String)
    ensures
        r@ == decimal(n as nat),
{
    let mut out: Vec<char> = Vec::new();
    push_decimal(&mut out, n);
    string_of(&out)
}

/// The text of an entry, or `fallback` where it is missing.
fn take_text(entry: &Option<String>, fallback: String) -> (r: String)
    ensures
        r@ == text_or(*entry, fallback@),
{
    match entry {
        Some(text) => text.clone(),
        None => fallback,
    }
}

/// The number of an entry, or `fallback` where it is missing.
fn take_number(entry: &Option<i64>, fallback: i64) -> (r: i64)
    ensures
        r == number_or(*entry, fallback),
{
    match entry {
        Some(n) => *n,
        None => fallback,
    }
}

impl Config {
    /// The settings that a platform starts out with.
    pub fn defaults(windows: bool) -> (r: Self)
        ensures
            r@ == default_config(windows),
    {
        Config {
            callsign: String::new(),
            serial_port: String::new(),
            min_snr: DEFAULT_MIN_SNR,
            max_age_minutes: DEFAULT_MAX_AGE_MINUTES,
            scroll_interval_seconds: DEFAULT_SCROLL_INTERVAL_SECONDS,
            random_char_percent: DEFAULT_RANDOM_CHAR_PERCENT,
            radio: RadioConfig::defaults(windows),
        }
    }

    /// The settings that a file gives: see [`config_from`]. A number too
    /// large for its field keeps its low bits.
    pub fn from_stored(stored: &StoredSettings, windows: bool) -> (r: Self)
        ensures
            r@ == config_from(*stored, windows),
    {
        let radio = RadioConfig {
            enabled: match stored.radio_enabled {
                Some(b) => b,
                None => false,
            },
            backend: take_text(&stored.radio_backend, backend_for(windows)),
            rigctld_host: take_text(&stored.rigctld_host, String::from_str("localhost")),
            rigctld_port: #[verifier::truncate]
            (take_number(&stored.rigctld_port, DEFAULT_RIGCTLD_PORT as i64) as u16),
            omnirig_rig: #[verifier::truncate]
            (take_number(&stored.omnirig_rig, 1) as u8),
        };
        Config {
            callsign: take_text(&stored.callsign, String::new()),
            serial_port: take_text(&stored.serial_port, String::new()),
            min_snr: #[verifier::truncate]
            (take_number(&stored.min_snr, DEFAULT_MIN_SNR as i64) as i32),
            max_age_minutes: #[verifier::truncate]
            (take_number(&stored.max_age_minutes, DEFAULT_MAX_AGE_MINUTES as i64) as u32),
            scroll_interval_seconds: #[verifier::truncate]
            (take_number(
                &stored.scroll_interval_seconds,
                DEFAULT_SCROLL_INTERVAL_SECONDS as i64,
            ) as u32),
            random_char_percent: #[verifier::truncate]
            (take_number(&stored.random_char_percent, DEFAULT_RANDOM_CHAR_PERCENT as i64) as u32),
            radio,
        }
    }

    /// The entries that hold these settings, in the order in which they are
    /// written.
    pub fn to_entries(&self) -> (r: Vec<SettingsEntry>)
        ensures
            entries_view(r@) == entries_of(self@),
    {
        let mut snr: Vec<char> = Vec::new();
        push_signed_decimal(&mut snr, self.min_snr as i64);
        let mut r: Vec<SettingsEntry> = Vec::new();
        r.push(make_entry("connection", "callsign", self.callsign.clone()));
        r.push(make_entry("display", "serial_port", self.serial_port.clone()));
        r.push(make_entry("filters", "min_snr", string_of(&snr)));
        r.push(make_entry("filters", "max_age_minutes", number_text(self.max_age_minutes as u64)));
        r.push(
            make_entry(
                "filters",
                "scroll_interval_seconds",
                number_text(self.scroll_interval_seconds as u64),
            ),
        );
        r.push(
            make_entry(
                "display",
                "random_char_percent",
                number_text(self.random_char_percent as u64),
            ),
        );
        r.push(
            make_entry(
                "radio",
                "enabled",
                if self.radio.enabled {
                    String::from_str("true")
                } else {
                    String::from_str("false")
                },
            ),
        );
        r.push(make_entry("radio", "backend", self.radio.backend.clone()));
        r.push(make_entry("radio", "rigctld_host", self.radio.rigctld_host.clone()));
        r.push(make_entry("radio", "rigctld_port", number_text(self.radio.rigctld_port as u64)));
        r.push(make_entry("radio", "omnirig_rig", number_text(self.radio.omnirig_rig as u64)));
        assert(entries_view(r@) =~= entries_of(self@));
        r
    }

    /// Puts the filters and the display timing back to their defaults.
    /// Callsign, serial port and radio settings stay.
    pub fn reset_to_defaults(&mut self)
        ensures
            final(self)@ == (ConfigView {
                min_snr: DEFAULT_MIN_SNR,
                max_age_minutes: DEFAULT_MAX_AGE_MINUTES,
                scroll_interval_seconds: DEFAULT_SCROLL_INTERVAL_SECONDS,
                random_char_percent: DEFAULT_RANDOM_CHAR_PERCENT,
                ..old(self)@
            }),
    {
        self.min_snr = DEFAULT_MIN_SNR;
        self.max_age_minutes = DEFAULT_MAX_AGE_MINUTES;
        self.scroll_interval_seconds = DEFAULT_SCROLL_INTERVAL_SECONDS;
        self.random_char_percent = DEFAULT_RANDOM_CHAR_PERCENT;
    }
}

} // verus!
