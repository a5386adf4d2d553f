//! Radio control: the operating modes, the errors, the controller
//! interface, and the text of the commands that a `rigctld` daemon takes.

use crate::config::{RadioConfig, RadioConfigView};
use crate::numeral::{
    decimal, parse_i32, parse_i32_spec, push_decimal, push_signed_decimal, signed_decimal,
};
use crate::text::{
    chars_of, is_white_space, is_whitespace_char, push_str, slice_chars, starts_with, string_of, trim, trim_start,
    trimmed, trimmed_start, uppercase_of,
};
use vstd::prelude::*;

verus! {

/// Operating mode of a radio.
#[derive(Debug, Clone, Copy, PartialEq, Eq, Structural)]
pub enum RadioMode {
    Cw,
    CwReverse,
    Usb,
    Lsb,
    Rtty,
    RttyReverse,
    Am,
    Fm,
    Data,
}

/// Result of a radio operation.
pub type RadioResult<T> = Result<T, RadioError>;

/// The mode for a mode token that is already in upper case: `CW` is CW,
/// `RTTY` is RTTY, the digital modes and `SSB` go to upper sideband, and
/// everything else is taken for CW.
pub open spec fn mode_for_upper(upper: Seq<char>) -> RadioMode {
    if upper == "CW"@ {
        RadioMode::Cw
    } else if upper == "RTTY"@ {
        RadioMode::Rtty
    } else if upper == "FT8"@ || upper == "FT4"@ || upper == "PSK31"@ || upper == "PSK63"@ || upper
        == "JT65"@ || upper == "JT9"@ || upper == "WSPR"@ || upper == "SSB"@ {
        RadioMode::Usb
    } else {
        RadioMode::Cw
    }
}

/// The name by which `rigctld` knows a mode.
pub open spec fn rigctld_mode_name(mode: RadioMode) -> Seq<char> {
    match mode {
        RadioMode::Cw => "CW"@,
        RadioMode::CwReverse => "CWR"@,
        RadioMode::Usb => "USB"@,
        RadioMode::Lsb => "LSB"@,
        RadioMode::Rtty => "RTTY"@,
        RadioMode::RttyReverse => "RTTYR"@,
        RadioMode::Am => "AM"@,
        RadioMode::Fm => "FM"@,
        RadioMode::Data => "PKTUSB"@,
    }
}

/// Whether the characters `a` spell the text `b`.
fn spells(a: &Vec<char>, b: &str) -> (r: bool)
    ensures
        r == (a@ == b@),
{
    let other = chars_of(b);
    if a.len() != other.len() {
        return false;
    }
    let r = starts_with(a, &other);
    proof {
        if r {
            assert(a@ =~= other@);
        }
    }
    r
}

impl RadioMode {
    /// The mode for a mode token in upper case: see [`mode_for_upper`].
    pub fn from_upper(upper: &str) -> (mode: Self)
        ensures
            mode == mode_for_upper(upper@),
    {
        let token = chars_of(upper);
        if spells(&token, "CW") {
            RadioMode::Cw
        } else if spells(&token, "RTTY") {
            RadioMode::Rtty
        } else if spells(&token, "FT8") || spells(&token, "FT4") || spells(&token, "PSK31")
            || spells(&token, "PSK63") || spells(&token, "JT65") || spells(&token, "JT9")
            || spells(&token, "WSPR") || spells(&token, "SSB") {
            RadioMode::Usb
        } else {
            RadioMode::Cw
        }
    }

    /// The mode for the mode token of a spot, in whatever case it is
    /// written: the token is put in upper case and looked up.
    pub fn from_rbn_mode(mode: &str) -> (r: Self)
        ensures
            r == mode_for_upper(uppercase_of(mode@)),
    {
        let upper = mode.to_uppercase();
        RadioMode::from_upper(upper.as_str())
    }

    /// The name by which `rigctld` knows this mode.
    pub fn to_rigctld_mode(self) -> (name: &'static str)
        ensures
            name@ == rigctld_mode_name(self),
    {
        match self {
            RadioMode::Cw => "CW",
            RadioMode::CwReverse => "CWR",
            RadioMode::Usb => "USB",
            RadioMode::Lsb => "LSB",
            RadioMode::Rtty => "RTTY",
            RadioMode::RttyReverse => "RTTYR",
            RadioMode::Am => "AM",
            RadioMode::Fm => "FM",
            RadioMode::Data => "PKTUSB",
        }
    }
}

/// What can go wrong with a radio.
#[derive(Debug)]
pub enum RadioError {
    NotConnected,
    ConnectionFailed(String),
    CommandFailed(String),
    Timeout,
    NotConfigured,
}

/// What a [`RadioError`] holds, as mathematical values.
pub enum RadioErrorView {
    NotConnected,
    ConnectionFailed(Seq<char>),
    CommandFailed(Seq<char>),
    Timeout,
    NotConfigured,
}

impl View for RadioError {
    type V = RadioErrorView;

    open spec fn view(&self) -> RadioErrorView {
        match *self {
            RadioError::NotConnected => RadioErrorView::NotConnected,
            RadioError::ConnectionFailed(text) => RadioErrorView::ConnectionFailed(text@),
            RadioError::CommandFailed(text) => RadioErrorView::CommandFailed(text@),
            RadioError::Timeout => RadioErrorView::Timeout,
            RadioError::NotConfigured => RadioErrorView::NotConfigured,
        }
    }
}

impl Clone for RadioError {
    fn clone(&self) -> (r: Self)
        ensures
            r == *self,
    {
        match self {
            RadioError::NotConnected => RadioError::NotConnected,
            RadioError::ConnectionFailed(text) => RadioError::ConnectionFailed(text.clone()),
            RadioError::CommandFailed(text) => RadioError::CommandFailed(text.clone()),
            RadioError::Timeout => RadioError::Timeout,
            RadioError::NotConfigured => RadioError::NotConfigured,
        }
    }
}

/// The sentence that tells a user of an error.
pub open spec fn error_text(error: RadioErrorView) -> Seq<char> {
    match error {
        RadioErrorView::NotConnected => "Radio not connected"@,
        RadioErrorView::ConnectionFailed(text) => "Connection failed: "@ + text,
        RadioErrorView::CommandFailed(text) => "Command failed: "@ + text,
        RadioErrorView::Timeout => "Radio not responding"@,
        RadioErrorView::NotConfigured => "Radio not configured"@,
    }
}

impl RadioError {
    /// The sentence that tells a user of this error.
    pub fn message(&self) -> (text: String)
        ensures
            text@ == error_text(self@),
    {
        match self {
            RadioError::NotConnected => String::from_str("Radio not connected"),
            RadioError::ConnectionFailed(detail) => {
                let mut out: Vec<char> = chars_of("Connection failed: ");
                push_str(&mut out, detail.as_str());
                string_of(&out)
            },
            RadioError::CommandFailed(detail) => {
                let mut out: Vec<char> = chars_of("Command failed: ");
                push_str(&mut out, detail.as_str());
                string_of(&out)
            },
            RadioError::Timeout => String::from_str("Radio not responding"),
            RadioError::NotConfigured => String::from_str("Radio not configured"),
        }
    }
}

/// What a radio controller can do. Frequencies are in hertz.
pub trait RadioController {
    /// Whether the radio is connected.
    fn is_connected(&self) -> bool;

    /// Tries to connect to the radio.
    fn connect(&mut self) -> RadioResult<()>;

    /// Drops the connection to the radio.
    fn disconnect(&mut self);

    /// Tunes the radio to a frequency and a mode.
    fn tune(&mut self, frequency_hz: u64, mode: RadioMode) -> RadioResult<()>;

    /// The name of the backend.
    fn backend_name(&self) -> &'static str;
}

/// The controller that stands in when radio control is switched off: never
/// connected, and every attempt fails as not configured.
#[derive(Debug, Clone, Copy)]
pub struct NoOpController;

impl NoOpController {
    /// The controller.
    pub fn new() -> (r: Self)
        ensures
            r == NoOpController,
    {
        NoOpController
    }
}

impl Default for NoOpController {
    fn default() -> (r: Self)
        ensures
            r == NoOpController,
    {
        NoOpController
    }
}

impl RadioController for NoOpController {
    fn is_connected(&self) -> (r: bool)
        ensures
            !r,
    {
        false
    }

    fn connect(&mut self) -> (r: RadioResult<()>)
        ensures
            r is Err && r->Err_0@ == RadioErrorView::NotConfigured,
    {
        Err(RadioError::NotConfigured)
    }

    fn disconnect(&mut self) {
    }

    fn tune(&mut self, frequency_hz: u64, mode: RadioMode) -> (r: RadioResult<()>)
        ensures
            r is Err && r->Err_0@ == RadioErrorView::NotConfigured,
    {
        Err(RadioError::NotConfigured)
    }

    fn backend_name(&self) -> (name: &'static str)
        ensures
            name@ == "None"@,
    {
        "None"
    }
}

/// The line that sets the frequency of the radio behind `rigctld`.
pub open spec fn frequency_command(frequency_hz: u64) -> Seq<char> {
    "F "@ + decimal(frequency_hz as nat)
}

/// The line that sets the mode of the radio behind `rigctld`, leaving the
/// passband to the radio.
pub open spec fn mode_command(mode: RadioMode) -> Seq<char> {
    "M "@ + rigctld_mode_name(mode) + " 0"@
}

/// The address of a `rigctld` daemon as one text.
pub open spec fn address_text(host: Seq<char>, port: u16) -> Seq<char> {
    host + ":"@ + decimal(port as nat)
}

/// The line that sets the frequency of the radio behind `rigctld`.
pub fn rigctld_frequency_command(frequency_hz: u64) -> (line: String)
    ensures
        line@ == frequency_command(frequency_hz),
{
    let mut out: Vec<char> = chars_of("F ");
    push_decimal(&mut out, frequency_hz);
    string_of(&out)
}

/// The line that sets the mode of the radio behind `rigctld`.
pub fn rigctld_mode_command(mode: RadioMode) -> (line: String)
    ensures
        line@ == mode_command(mode),
{
    let mut out: Vec<char> = chars_of("M ");
    push_str(&mut out, mode.to_rigctld_mode());
    push_str(&mut out, " 0");
    string_of(&out)
}

/// The address of a `rigctld` daemon as one text.
pub fn rigctld_address(host: &str, port: u16) -> (address: String)
    ensures
        address@ == address_text(host@, port),
{
    let mut out: Vec<char> = chars_of(host);
    push_str(&mut out, ":");
    push_decimal(&mut out, port as u64);
    string_of(&out)
}

/// How many characters stand before the first white space of `s`.
pub open spec fn token_len(s: Seq<char>) -> nat
    decreases s.len(),
{
    if s.len() > 0 && !is_whitespace_char(s[0]) {
        1 + token_len(s.drop_first())
    } else {
        0
    }
}

/// The first word of `s`: what stands between its leading white space and
/// the next white space.
pub open spec fn first_token(s: Seq<char>) -> Seq<char> {
    trimmed_start(s).subrange(0, token_len(trimmed_start(s)) as int)
}

/// What follows the first word of `s`.
pub open spec fn after_first_token(s: Seq<char>) -> Seq<char> {
    trimmed_start(s).subrange(
        token_len(trimmed_start(s)) as int,
        trimmed_start(s).len() as int,
    )
}

/// The second word of `s`; empty where it has none.
pub open spec fn second_token(s: Seq<char>) -> Seq<char> {
    first_token(after_first_token(s))
}

/// The code that a report line of `rigctld` carries: the second word of a
/// response that begins with `RPRT`, read as a number.
pub open spec fn reported_code(response: Seq<char>) -> Option<i32> {
    if "RPRT"@.is_prefix_of(response) && second_token(response).len() > 0 {
        parse_i32_spec(second_token(response))
    } else {
        None
    }
}

/// What a response line of `rigctld` amounts to: a failure where it
/// reports a code other than zero, else the response without the white
/// space around it.
pub open spec fn response_outcome(line: Seq<char>) -> Result<Seq<char>, RadioErrorView> {
    match reported_code(trimmed(line)) {
        Some(code) => if code != 0 {
            Err(RadioErrorView::CommandFailed("rigctld error code: "@ + signed_decimal(code as int)))
        } else {
            Ok(trimmed(line))
        },
        None => Ok(trimmed(line)),
    }
}

/// A text without white space before position `i`, and with some at `i`,
/// has its first word end at `i`.
pub proof fn lemma_token_len(s: Seq<char>, i: int)
    requires
        0 <= i <= s.len(),
        forall|j: int| 0 <= j < i ==> !is_whitespace_char(#[trigger] s[j]),
        i < s.len() ==> is_whitespace_char(s[i]),
    ensures
        token_len(s) == i,
    decreases i,
{
    if i > 0 {
        let t = s.drop_first();
        assert forall|j: int| 0 <= j < i - 1 implies !is_whitespace_char(#[trigger] t[j]) by {
            assert(t[j] == s[j + 1]);
        }
        lemma_token_len(t, i - 1);
    }
}

/// Splits `s` into its first word and what follows it.
fn split_first_token(s: &Vec<char>) -> (r: (Vec<char>, Vec<char>))
    ensures
        r.0@ == first_token(s@),
        r.1@ == after_first_token(s@),
{
    let t = trim_start(s);
    let mut i: usize = 0;
    while i < t.len() && !is_white_space(t[i])
        invariant
            i <= t.len(),
            forall|j: int| 0 <= j < i ==> !is_whitespace_char(#[trigger] t@[j]),
        decreases t.len() - i,
    {
        i += 1;
    }
    proof {
        lemma_token_len(t@, i as int);
    }
    (slice_chars(&t, 0, i), slice_chars(&t, i, t.len()))
}

/// Judges one response line of `rigctld`: see [`response_outcome`].
pub fn check_rigctld_response(line: &str) -> (r: RadioResult<String>)
    ensures
        r matches Ok(text) ==> response_outcome(line@) == Ok::<Seq<char>, RadioErrorView>(text@),
        r matches Err(e) ==> response_outcome(line@) == Err::<Seq<char>, RadioErrorView>(e@),
{
    let response = trim(&chars_of(line));
    let marker = chars_of("RPRT");
    if starts_with(&response, &marker) {
        let (_first, rest) = split_first_token(&response);
        let (second, _rest) = split_first_token(&rest);
        if second.len() > 0 {
            match parse_i32(&second) {
                Some(code) => {
                    if code != 0 {
                        let mut out: Vec<char> = chars_of("rigctld error code: ");
                        push_signed_decimal(&mut out, code as i64);
                        return Err(RadioError::CommandFailed(string_of(&out)));
                    }
                },
                None => {},
            }
        }
    }
    Ok(string_of(&response))
}

/// Mode numbers of OmniRig.
pub const PM_CW_U: i32 = 0x0080_0000;

pub const PM_CW_L: i32 = 0x0100_0000;

pub const PM_SSB_U: i32 = 0x0200_0000;

pub const PM_SSB_L: i32 = 0x0400_0000;

pub const PM_DIG_U: i32 = 0x0800_0000;

pub const PM_DIG_L: i32 = 0x1000_0000;

pub const PM_AM: i32 = 0x2000_0000;

pub const PM_FM: i32 = 0x4000_0000;

/// The number by which OmniRig knows a mode.
pub open spec fn omnirig_mode_number(mode: RadioMode) -> i32 {
    match mode {
        RadioMode::Cw => PM_CW_U,
        RadioMode::CwReverse => PM_CW_L,
        RadioMode::Usb => PM_SSB_U,
        RadioMode::Lsb => PM_SSB_L,
        RadioMode::Am => PM_AM,
        RadioMode::Fm => PM_FM,
        RadioMode::Rtty => PM_DIG_U,
        RadioMode::RttyReverse => PM_DIG_L,
        RadioMode::Data => PM_DIG_U,
    }
}

/// The number by which OmniRig knows a mode.
pub fn mode_to_omnirig(mode: RadioMode) -> (number: i32)
    ensures
        number == omnirig_mode_number(mode),
{
    match mode {
        RadioMode::Cw => PM_CW_U,
        RadioMode::CwReverse => PM_CW_L,
        RadioMode::Usb => PM_SSB_U,
        RadioMode::Lsb => PM_SSB_L,
        RadioMode::Am => PM_AM,
        RadioMode::Fm => PM_FM,
        RadioMode::Rtty => PM_DIG_U,
        RadioMode::RttyReverse => PM_DIG_L,
        RadioMode::Data => PM_DIG_U,
    }
}

/// The rig that OmniRig is asked for: the first or the second, whatever
/// number was set.
pub open spec fn omnirig_rig(rig_number: u8) -> u8 {
    if rig_number < 1 {
        1
    } else if rig_number > 2 {
        2
    } else {
        rig_number
    }
}

/// The rig that OmniRig is asked for.
pub fn omnirig_rig_number(rig_number: u8) -> (rig: u8)
    ensures
        rig == omnirig_rig(rig_number),
{
    if rig_number < 1 {
        1
    } else if rig_number > 2 {
        2
    } else {
        rig_number
    }
}

/// The name of the property under which OmniRig holds a rig.
pub fn rig_property_name(rig_number: u8) -> (name: &'static str)
    ensures
        name@ == if rig_number == 2 {
            "Rig2"@
        } else {
            "Rig1"@
        },
{
    if rig_number == 2 {
        "Rig2"
    } else {
        "Rig1"
    }
}

/// The frequency as OmniRig takes it: hertz in 32 bits, the largest where
/// the frequency is beyond them.
pub fn omnirig_frequency(frequency_hz: u64) -> (hz: i32)
    ensures
        hz == if frequency_hz > i32::MAX {
            i32::MAX as int
        } else {
            frequency_hz as int
        },
{
    if frequency_hz > i32::MAX as u64 {
        i32::MAX
    } else {
        frequency_hz as i32
    }
}

/// Which controller a configuration calls for.
#[derive(Debug)]
pub enum Backend {
    /// None: radio control is off, or the backend is unknown.
    NoOp,
    /// A `rigctld` daemon at this host and port.
    Rigctld { host: String, port: u16 },
    /// This rig of OmniRig.
    OmniRig { rig: u8 },
}

/// What a [`Backend`] holds, as mathematical values.
pub enum BackendView {
    NoOp,
    Rigctld { host: Seq<char>, port: u16 },
    OmniRig { rig: u8 },
}

impl View for Backend {
    type V = BackendView;

    open spec fn view(&self) -> BackendView {
        match *self {
            Backend::NoOp => BackendView::NoOp,
            Backend::Rigctld { host, port } => BackendView::Rigctld { host: host@, port },
            Backend::OmniRig { rig } => BackendView::OmniRig { rig },
        }
    }
}

/// The controller that a configuration calls for. With radio control off
/// there is none. On Windows the named backend is taken, and none where the
/// name is unknown; elsewhere it is always `rigctld`.
pub open spec fn backend_for_config(config: RadioConfigView, windows: bool) -> BackendView {
    if !config.enabled {
        BackendView::NoOp
    } else if !windows || config.backend == "rigctld"@ {
        BackendView::Rigctld { host: config.rigctld_host, port: config.rigctld_port }
    } else if config.backend == "omnirig"@ {
        BackendView::OmniRig { rig: omnirig_rig(config.omnirig_rig) }
    } else {
        BackendView::NoOp
    }
}

/// Chooses the controller for a configuration: see [`backend_for_config`].
pub fn create_controller(config: &RadioConfig, windows: bool) -> (backend: Backend)
    ensures
        backend@ == backend_for_config(config@, windows),
{
    if !config.enabled {
        return Backend::NoOp;
    }
    let name = chars_of(config.backend.as_str());
    if !windows || spells(&name, "rigctld") {
        Backend::Rigctld { host: config.rigctld_host.clone(), port: config.rigctld_port }
    } else if spells(&name, "omnirig") {
        Backend::OmniRig { rig: omnirig_rig_number(config.omnirig_rig) }
    } else {
        Backend::NoOp
    }
}

} // verus!
