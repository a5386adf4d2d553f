//! The state of the application between two passes of its loop, and what
//! each event does to it.
//!
//! The loop itself, the windows and every device stay outside: this is the
//! bookkeeping that they drive.

use crate::client::{messages_view, RbnMessage, RbnMessageView};
use crate::config::{Config, ConfigView};
use crate::radio::{
    error_text, mode_for_upper, rigctld_mode_name, RadioController, RadioError, RadioErrorView,
    RadioMode,
};
use crate::spot::{
    frequency_chars, frequency_text, spot_views, AggregatedSpot, AggregatedSpotView,
};
use crate::spot_store::{
    add_step, distinct_keys, entries_map, purge_step, shown_spots, sorted_by, SpotOrder,
    SpotStore, SpotStoreView, MINUTE_MS,
};
use crate::text::{
    chars_of, push_all, push_str, string_of, trim, trim_end, trimmed, trimmed_end, uppercase_of,
};
use crate::vfd_display::{
    bytes_view, initial_display, tick_step, VfdDisplay, VfdDisplayView, CLEAR_DISPLAY,
};
use vstd::prelude::*;

verus! {

/// The most lines that the log of raw data keeps.
pub const RAW_DATA_LOG_MAX_LINES: usize = 500;

/// The time between two purges of the store, and between two looks at the
/// serial ports.
pub const HOUSEKEEPING_INTERVAL_MS: u64 = 5000;

/// The state of the application.
pub struct RbnVfdApp {
    pub config: Config,
    pub spot_store: SpotStore,
    pub vfd_display: VfdDisplay,
    pub callsign_input: String,
    pub selected_port: String,
    pub available_ports: Vec<String>,
    pub status_message: String,
    pub is_connected: bool,
    pub last_purge_ms: u64,
    pub last_port_refresh_ms: u64,
    /// What crossed the wire, line by line, oldest first.
    pub raw_data_log: Vec<String>,
    /// The spot picked for tuning.
    pub selected_spot: Option<AggregatedSpot>,
    /// What went wrong with the radio, until it is dismissed.
    pub radio_error: Option<String>,
}

/// The state of the application, as mathematical values.
pub struct RbnVfdAppView {
    pub config: ConfigView,
    pub spot_store: SpotStoreView,
    pub vfd_display: VfdDisplayView,
    pub callsign_input: Seq<char>,
    pub selected_port: Seq<char>,
    pub available_ports: Seq<Seq<char>>,
    pub status_message: Seq<char>,
    pub is_connected: bool,
    pub last_purge_ms: u64,
    pub last_port_refresh_ms: u64,
    pub raw_data_log: Seq<Seq<char>>,
    pub selected_spot: Option<AggregatedSpotView>,
    pub radio_error: Option<Seq<char>>,
}

/// The texts of a run of strings.
pub open spec fn texts_view(texts: Seq<String>) -> Seq<Seq<char>> {
    Seq::new(texts.len(), |i: int| texts[i]@)
}

impl View for RbnVfdApp {
    type V = RbnVfdAppView;

    open spec fn view(&self) -> RbnVfdAppView {
        RbnVfdAppView {
            config: self.config@,
            spot_store: self.spot_store@,
            vfd_display: self.vfd_display@,
            callsign_input: self.callsign_input@,
            selected_port: self.selected_port@,
            available_ports: texts_view(self.available_ports@),
            status_message: self.status_message@,
            is_connected: self.is_connected,
            last_purge_ms: self.last_purge_ms,
            last_port_refresh_ms: self.last_port_refresh_ms,
            raw_data_log: texts_view(self.raw_data_log@),
            selected_spot: match self.selected_spot {
                Some(spot) => Some(spot@),
                None => None,
            },
            radio_error: match self.radio_error {
                Some(text) => Some(text@),
                None => None,
            },
        }
    }
}

/// The port that is selected at the start: the configured one where it is
/// at hand, else the first at hand, else none.
pub open spec fn initial_port(ports: Seq<Seq<char>>, wanted: Seq<char>) -> Seq<char> {
    if ports.contains(wanted) {
        wanted
    } else if ports.len() > 0 {
        ports[0]
    } else {
        Seq::empty()
    }
}

/// The state after a press of "Connect", and the callsign to connect under,
/// if any. Input that is blank is turned down with a status line. Other
/// input is trimmed and put in upper case, and becomes the configured
/// callsign.
pub open spec fn connect_request(a: RbnVfdAppView) -> (RbnVfdAppView, Option<Seq<char>>) {
    if trimmed(a.callsign_input).len() == 0 {
        (RbnVfdAppView { status_message: "Please enter a callsign"@, ..a }, None)
    } else {
        let callsign = uppercase_of(trimmed(a.callsign_input));
        (
            RbnVfdAppView {
                config: ConfigView { callsign, ..a.config },
                is_connected: true,
                status_message: "Connecting..."@,
                ..a
            },
            Some(callsign),
        )
    }
}

/// The line that the log keeps of raw data: the direction, a space, and the
/// data without the white space at its end.
pub open spec fn log_line(data: Seq<char>, received: bool) -> Seq<char> {
    (if received {
        "<<"@
    } else {
        ">>"@
    }) + " "@ + trimmed_end(data)
}

/// The log with one more line. A log that grows beyond its limit drops its
/// oldest line.
pub open spec fn logged(log: Seq<Seq<char>>, line: Seq<char>) -> Seq<Seq<char>> {
    if log.len() + 1 > RAW_DATA_LOG_MAX_LINES {
        log.push(line).drop_first()
    } else {
        log.push(line)
    }
}

/// The state after one message of the feed client, taken in at `now_ms`.
pub open spec fn message_step(a: RbnVfdAppView, message: RbnMessageView, now_ms: u64) -> RbnVfdAppView {
    match message {
        RbnMessageView::Status(text) => RbnVfdAppView { status_message: text, ..a },
        RbnMessageView::Spot(raw) => RbnVfdAppView {
            spot_store: add_step(a.spot_store, raw, now_ms),
            ..a
        },
        RbnMessageView::Disconnected => RbnVfdAppView { is_connected: false, ..a },
        RbnMessageView::RawData { data, received } => RbnVfdAppView {
            raw_data_log: logged(a.raw_data_log, log_line(data, received)),
            ..a
        },
    }
}

/// The state after a run of messages, taken in at `now_ms` in their order.
pub open spec fn after_messages(
    a: RbnVfdAppView,
    messages: Seq<RbnMessageView>,
    now_ms: u64,
) -> RbnVfdAppView
    decreases messages.len(),
{
    if messages.len() == 0 {
        a
    } else {
        message_step(after_messages(a, messages.drop_last(), now_ms), messages.last(), now_ms)
    }
}

/// Whether the run holds a `Disconnected`.
pub open spec fn holds_disconnected(messages: Seq<RbnMessageView>) -> bool {
    exists|i: int| 0 <= i < messages.len() && (#[trigger] messages[i]) is Disconnected
}

/// Whether `interval` has passed since `last`, seen from `now_ms`.
pub open spec fn interval_passed(last: u64, now_ms: u64, interval: u64) -> bool {
    now_ms >= last && now_ms - last >= interval
}

/// The store with the filters of the settings.
pub open spec fn store_with_filters(s: SpotStoreView, c: ConfigView) -> SpotStoreView {
    SpotStoreView {
        min_snr: c.min_snr,
        max_age_ms: (c.max_age_minutes * MINUTE_MS) as u64,
        ..s
    }
}

/// The store after the housekeeping of a pass at `now_ms`: it takes the
/// filters of the settings, and is purged where a purge is due.
pub open spec fn store_after_pass(a: RbnVfdAppView, now_ms: u64) -> SpotStoreView {
    if interval_passed(a.last_purge_ms, now_ms, HOUSEKEEPING_INTERVAL_MS) {
        purge_step(store_with_filters(a.spot_store, a.config), now_ms)
    } else {
        store_with_filters(a.spot_store, a.config)
    }
}

/// Whether `spots` is the snapshot by frequency of the store `s` at
/// `now_ms`: what passes the filters, each once, by rising frequency.
pub open spec fn is_frequency_snapshot(
    spots: Seq<AggregatedSpotView>,
    s: SpotStoreView,
    now_ms: u64,
) -> bool {
    &&& sorted_by(SpotOrder::Frequency, spots)
    &&& distinct_keys(spots)
    &&& entries_map(spots) == shown_spots(s, now_ms)
}

/// What a pass of the loop asks of its caller.
#[derive(Debug)]
pub struct PassOutcome {
    /// The bytes to write to the display, if any.
    pub display_bytes: Option<Vec<u8>>,
    /// Whether the list of serial ports is to be read again.
    pub refresh_ports: bool,
}

/// The state after a tuning attempt with the given outcome. Without a
/// selected spot nothing changes. Success is told in the status line,
/// failure is kept as the radio error.
pub open spec fn tuned(a: RbnVfdAppView, outcome: Result<(), RadioErrorView>) -> RbnVfdAppView {
    match a.selected_spot {
        None => a,
        Some(spot) => match outcome {
            Ok(_) => RbnVfdAppView {
                status_message: "Tuned to "@ + frequency_text(spot.frequency_hz) + " kHz "@
                    + rigctld_mode_name(mode_for_upper(uppercase_of(spot.mode))),
                ..a
            },
            Err(error) => RbnVfdAppView { radio_error: Some(error_text(error)), ..a },
        },
    }
}

/// What the radio is asked for when the selected spot is tuned to.
pub open spec fn tune_target(a: RbnVfdAppView) -> Option<(u64, RadioMode)> {
    match a.selected_spot {
        Some(spot) => Some((spot.frequency_hz, mode_for_upper(uppercase_of(spot.mode)))),
        None => None,
    }
}

/// Whether one of `ports` is named `wanted`.
fn has_port(ports: &Vec<String>, wanted: &String) -> (r: bool)
    ensures
        r == texts_view(ports@).contains(wanted@),
{
    let mut i: usize = 0;
    while i < ports.len()
        invariant
            i <= ports.len(),
            forall|j: int| 0 <= j < i ==> texts_view(ports@)[j] != wanted@,
        decreases ports.len() - i,
    {
        if ports[i] == *wanted {
            assert(texts_view(ports@)[i as int] == wanted@);
            return true;
        }
        i += 1;
    }
    false
}

impl RbnVfdApp {
    /// The state at the start, at `now_ms`: an empty store with the filters
    /// of the settings, a closed display with their timing, and the port of
    /// [`initial_port`] selected.
    pub fn new(config: Config, available_ports: Vec<String>, now_ms: u64) -> (r: Self)
        ensures
            r@.config == config@,
            r@.spot_store == (SpotStoreView {
                spots: Map::empty(),
                min_snr: config.min_snr,
                max_age_ms: (config.max_age_minutes * MINUTE_MS) as u64,
            }),
            r@.vfd_display == (VfdDisplayView {
                scroll_interval_ms: (config.scroll_interval_seconds * 1000) as u64,
                random_char_percent: if config.random_char_percent > 100 {
                    100
                } else {
                    config.random_char_percent
                },
                ..initial_display(now_ms)
            }),
            r@.callsign_input == config.callsign@,
            r@.selected_port == initial_port(texts_view(available_ports@), config.serial_port@),
            r@.available_ports == texts_view(available_ports@),
            r@.status_message == "Ready"@,
            !r@.is_connected,
            r@.last_purge_ms == now_ms,
            r@.last_port_refresh_ms == now_ms,
            r@.raw_data_log.len() == 0,
            r@.selected_spot is None,
            r@.radio_error is None,
    {
        let spot_store = SpotStore::new(config.min_snr, config.max_age_minutes);
        let mut vfd_display = VfdDisplay::new(now_ms);
        vfd_display.set_scroll_interval(config.scroll_interval_seconds);
        vfd_display.set_random_char_percent(config.random_char_percent);
        let selected_port = if has_port(&available_ports, &config.serial_port) {
            config.serial_port.clone()
        } else if available_ports.len() > 0 {
            available_ports[0].clone()
        } else {
            String::new()
        };
        RbnVfdApp {
            callsign_input: config.callsign.clone(),
            config,
            spot_store,
            vfd_display,
            selected_port,
            available_ports,
            status_message: String::from_str("Ready"),
            is_connected: false,
            last_purge_ms: now_ms,
            last_port_refresh_ms: now_ms,
            raw_data_log: Vec::new(),
            selected_spot: None,
            radio_error: None,
        }
    }

    /// A press of "Connect": see [`connect_request`]. The callsign handed
    /// back is the one to send to the feed client.
    pub fn connect_rbn(&mut self) -> (callsign: Option<String>)
        ensures
            final(self)@ == connect_request(old(self)@).0,
            callsign is Some <==> connect_request(old(self)@).1 is Some,
            callsign matches Some(text) ==> connect_request(old(self)@).1 == Some(text@),
    {
        let input = trim(&chars_of(self.callsign_input.as_str()));
        if input.len() == 0 {
            self.status_message = String::from_str("Please enter a callsign");
            return None;
        }
        let callsign = string_of(&input).as_str().to_uppercase();
        self.config.callsign = callsign.clone();
        self.is_connected = true;
        self.status_message = String::from_str("Connecting...");
        Some(callsign)
    }

    /// A press of "Disconnect".
    pub fn disconnect_rbn(&mut self)
        ensures
            final(self)@ == (RbnVfdAppView {
                is_connected: false,
                status_message: "Disconnected"@,
                ..old(self)@
            }),
    {
        self.is_connected = false;
        self.status_message = String::from_str("Disconnected");
    }

    /// Adds one line to the log of raw data.
    fn log_raw(&mut self, data: &String, received: bool)
        ensures
            final(self)@ == (RbnVfdAppView {
                raw_data_log: logged(old(self)@.raw_data_log, log_line(data@, received)),
                ..old(self)@
            }),
    {
        let mut line: Vec<char> = if received {
            chars_of("<<")
        } else {
            chars_of(">>")
        };
        push_str(&mut line, " ");
        let body = trim_end(&chars_of(data.as_str()));
        push_all(&mut line, &body);
        let ghost before = texts_view(self.raw_data_log@);
        let text = string_of(&line);
        self.raw_data_log.push(text);
        assert(texts_view(self.raw_data_log@) =~= before.push(log_line(data@, received)));
        if self.raw_data_log.len() > RAW_DATA_LOG_MAX_LINES {
            let ghost full = texts_view(self.raw_data_log@);
            self.raw_data_log.remove(0);
            assert(texts_view(self.raw_data_log@) =~= full.drop_first());
        }
    }

    /// Takes in one message of the feed client at `now_ms`.
    pub fn process_rbn_message(&mut self, message: RbnMessage, now_ms: u64)
        ensures
            final(self)@ == message_step(old(self)@, message@, now_ms),
    {
        match message {
            RbnMessage::Status(text) => {
                self.status_message = text;
            },
            RbnMessage::Spot(raw) => {
                self.spot_store.add_spot(raw, now_ms);
            },
            RbnMessage::Disconnected => {
                self.is_connected = false;
            },
            RbnMessage::RawData { data, received } => {
                self.log_raw(&data, received);
            },
        }
    }

    /// Takes in a run of messages of the feed client at `now_ms`, in their
    /// order, and tells whether the client reported the end of the
    /// connection among them.
    pub fn process_rbn_messages(&mut self, messages: Vec<RbnMessage>, now_ms: u64) -> (disconnected:
        bool)
        ensures
            final(self)@ == after_messages(old(self)@, messages_view(messages@), now_ms),
            disconnected == holds_disconnected(messages_view(messages@)),
    {
        let ghost all = messages_view(messages@);
        let mut disconnected: bool = false;
        let mut i: usize = 0;
        assert(all.take(0) =~= Seq::<RbnMessageView>::empty());
        while i < messages.len()
            invariant
                i <= messages.len(),
                all == messages_view(messages@),
                self@ == after_messages(old(self)@, all.take(i as int), now_ms),
                disconnected == holds_disconnected(all.take(i as int)),
            decreases messages.len() - i,
        {
            let message = messages[i].clone();
            proof {
                let run = all.take(i + 1);
                assert(run.drop_last() =~= all.take(i as int));
                assert(run.last() == message@);
                if holds_disconnected(run) {
                    let w = choose|w: int| 0 <= w < run.len() && (#[trigger] run[w]) is Disconnected;
                    if w < i {
                        assert(all.take(i as int)[w] == run[w]);
                    }
                }
                if holds_disconnected(all.take(i as int)) {
                    let w = choose|w: int|
                        0 <= w < i && (#[trigger] all.take(i as int)[w]) is Disconnected;
                    assert(run[w] == all.take(i as int)[w]);
                }
                if message@ is Disconnected {
                    assert(run[i as int] is Disconnected);
                }
            }
            match &message {
                RbnMessage::Disconnected => {
                    disconnected = true;
                },
                _ => {},
            }
            self.process_rbn_message(message, now_ms);
            i += 1;
        }
        assert(all.take(messages.len() as int) =~= all);
        disconnected
    }

    /// Takes the list of serial ports that was just read.
    pub fn set_available_ports(&mut self, ports: Vec<String>)
        ensures
            final(self)@ == (RbnVfdAppView { available_ports: texts_view(ports@), ..old(self)@ }),
    {
        self.available_ports = ports;
    }

    /// A press of "Open": `None` and a status line where no port is
    /// selected; else the bytes to write to the display that is attached now,
    /// before the selected port is opened in its place.
    pub fn open_vfd(&mut self) -> (bytes: Option<Vec<u8>>)
        ensures
            old(self)@.selected_port.len() == 0 ==> bytes is None && final(self)@
                == (RbnVfdAppView { status_message: "No serial port selected"@, ..old(self)@ }),
            old(self)@.selected_port.len() > 0 ==> bytes is Some && bytes->0@ == (if old(self)@.vfd_display.is_open {
                seq![CLEAR_DISPLAY]
            } else {
                Seq::<u8>::empty()
            }) && final(self)@ == (RbnVfdAppView {
                vfd_display: VfdDisplayView {
                    is_open: false,
                    port_name: Seq::empty(),
                    lines: if old(self)@.vfd_display.is_open {
                        (Seq::empty(), Seq::empty())
                    } else {
                        old(self)@.vfd_display.lines
                    },
                    ..old(self)@.vfd_display
                },
                ..old(self)@
            }),
    {
        if chars_of(self.selected_port.as_str()).len() == 0 {
            self.status_message = String::from_str("No serial port selected");
            return None;
        }
        Some(self.vfd_display.close())
    }

    /// The selected port was opened: the display is attached, the port is
    /// kept in the settings, and the bytes that clear the display are handed
    /// back.
    pub fn vfd_opened(&mut self) -> (bytes: Vec<u8>)
        ensures
            final(self)@ == (RbnVfdAppView {
                vfd_display: VfdDisplayView {
                    is_open: true,
                    port_name: old(self)@.selected_port,
                    lines: (Seq::empty(), Seq::empty()),
                    ..old(self)@.vfd_display
                },
                config: ConfigView { serial_port: old(self)@.selected_port, ..old(self)@.config },
                status_message: "VFD opened on "@ + old(self)@.selected_port,
                ..old(self)@
            }),
            bytes@ == seq![CLEAR_DISPLAY],
    {
        let bytes = self.vfd_display.open(self.selected_port.as_str());
        self.config.serial_port = self.selected_port.clone();
        let mut text: Vec<char> = chars_of("VFD opened on ");
        push_str(&mut text, self.selected_port.as_str());
        self.status_message = string_of(&text);
        bytes
    }

    /// The selected port could not be opened, for the given reason.
    pub fn vfd_open_failed(&mut self, reason: &str)
        ensures
            final(self)@ == (RbnVfdAppView {
                status_message: "Failed to open VFD: Failed to open "@ + old(self)@.selected_port
                    + ": "@ + reason@,
                ..old(self)@
            }),
    {
        let mut text: Vec<char> = chars_of("Failed to open VFD: Failed to open ");
        push_str(&mut text, self.selected_port.as_str());
        push_str(&mut text, ": ");
        push_str(&mut text, reason);
        self.status_message = string_of(&text);
    }

    /// A write to the display failed, for the given reason. The failure is
    /// told in the status line; what the scheduler holds stays as it is, so
    /// that the next tick goes on from there.
    pub fn vfd_write_failed(&mut self, reason: &str)
        ensures
            final(self)@ == (RbnVfdAppView {
                status_message: "Display write failed: "@ + reason@,
                ..old(self)@
            }),
    {
        let mut text: Vec<char> = chars_of("Display write failed: ");
        push_str(&mut text, reason);
        self.status_message = string_of(&text);
    }

    /// A press of "Close": hands back the bytes to write to the display
    /// before it is let go.
    pub fn close_vfd(&mut self) -> (bytes: Vec<u8>)
        ensures
            final(self)@ == (RbnVfdAppView {
                vfd_display: VfdDisplayView {
                    is_open: false,
                    port_name: Seq::empty(),
                    lines: if old(self)@.vfd_display.is_open {
                        (Seq::empty(), Seq::empty())
                    } else {
                        old(self)@.vfd_display.lines
                    },
                    ..old(self)@.vfd_display
                },
                status_message: "VFD closed"@,
                ..old(self)@
            }),
            bytes@ == if old(self)@.vfd_display.is_open {
                seq![CLEAR_DISPLAY]
            } else {
                Seq::<u8>::empty()
            },
    {
        let bytes = self.vfd_display.close();
        self.status_message = String::from_str("VFD closed");
        bytes
    }

    /// What the radio is to be tuned to: the frequency of the selected spot
    /// and the mode for its mode token. `None` where no spot is selected.
    pub fn tune_request(&self) -> (target: Option<(u64, RadioMode)>)
        ensures
            target == tune_target(self@),
    {
        match &self.selected_spot {
            Some(spot) => Some((spot.frequency_hz, RadioMode::from_rbn_mode(spot.mode.as_str()))),
            None => None,
        }
    }

    /// Takes in the outcome of a tuning attempt: see [`tuned`].
    pub fn tune_finished(&mut self, outcome: Result<(), RadioError>)
        ensures
            outcome is Ok ==> final(self)@ == tuned(old(self)@, Ok(())),
            outcome matches Err(e) ==> final(self)@ == tuned(old(self)@, Err(e@)),
    {
        let target = self.tune_request();
        match target {
            None => {},
            Some((frequency_hz, mode)) => match outcome {
                Ok(_) => {
                    let mut text: Vec<char> = chars_of("Tuned to ");
                    let frequency = frequency_chars(frequency_hz);
                    push_all(&mut text, &frequency);
                    push_str(&mut text, " kHz ");
                    push_str(&mut text, mode.to_rigctld_mode());
                    self.status_message = string_of(&text);
                },
                Err(error) => {
                    self.radio_error = Some(error.message());
                },
            },
        }
    }

    /// Tunes the radio behind `controller` to the selected spot. Without a
    /// selected spot the controller is left alone and nothing changes;
    /// else the outcome of the attempt is taken in as [`tuned`] says.
    pub fn tune_to_selected<C: RadioController>(&mut self, controller: &mut C)
        ensures
            old(self)@.selected_spot is None ==> final(self)@ == old(self)@,
            old(self)@.selected_spot is Some ==> final(self)@ == tuned(old(self)@, Ok(()))
                || exists|e: RadioErrorView| final(self)@ == tuned(old(self)@, Err(e)),
    {
        match self.tune_request() {
            None => {},
            Some((frequency_hz, mode)) => {
                let outcome = controller.tune(frequency_hz, mode);
                let ghost failed = outcome is Err;
                let ghost failure = outcome->Err_0@;
                self.tune_finished(outcome);
                proof {
                    if failed {
                        assert(self@ == tuned(old(self)@, Err(failure)));
                    }
                }
            },
        }
    }

    /// One pass of the loop at `now_ms` on the steady clock and `wall_ms`
    /// on the wall clock. The store takes the filters of the settings and is
    /// purged if the last purge is five seconds old; the display is given a
    /// tick over the snapshot by frequency; and the caller is told to read
    /// the serial ports again if the last look is five seconds old.
    pub fn update_periodic(&mut self, now_ms: u64, wall_ms: u64) -> (outcome: PassOutcome)
        ensures
            final(self)@.spot_store == store_after_pass(old(self)@, now_ms),
            final(self)@.last_purge_ms == if interval_passed(
                old(self)@.last_purge_ms,
                now_ms,
                HOUSEKEEPING_INTERVAL_MS,
            ) {
                now_ms
            } else {
                old(self)@.last_purge_ms
            },
            outcome.refresh_ports == interval_passed(
                old(self)@.last_port_refresh_ms,
                now_ms,
                HOUSEKEEPING_INTERVAL_MS,
            ),
            final(self)@.last_port_refresh_ms == if outcome.refresh_ports {
                now_ms
            } else {
                old(self)@.last_port_refresh_ms
            },
            exists|spots: Seq<AggregatedSpotView>|
                #![trigger is_frequency_snapshot(spots, final(self)@.spot_store, now_ms)]
                is_frequency_snapshot(spots, final(self)@.spot_store, now_ms) && final(self)@.vfd_display == tick_step(
                    old(self)@.vfd_display,
                    spots,
                    now_ms,
                    wall_ms,
                    final(self)@.vfd_display.glyph,
                ).0 && bytes_view(outcome.display_bytes) == tick_step(
                    old(self)@.vfd_display,
                    spots,
                    now_ms,
                    wall_ms,
                    final(self)@.vfd_display.glyph,
                ).1,
            final(self)@ == (RbnVfdAppView {
                spot_store: final(self)@.spot_store,
                vfd_display: final(self)@.vfd_display,
                last_purge_ms: final(self)@.last_purge_ms,
                last_port_refresh_ms: final(self)@.last_port_refresh_ms,
                ..old(self)@
            }),
    {
        self.spot_store.set_min_snr(self.config.min_snr);
        self.spot_store.set_max_age_minutes(self.config.max_age_minutes);
        if now_ms >= self.last_purge_ms && now_ms - self.last_purge_ms >= HOUSEKEEPING_INTERVAL_MS {
            self.spot_store.purge_old_spots(now_ms);
            self.last_purge_ms = now_ms;
        }
        let refresh_ports: bool = now_ms >= self.last_port_refresh_ms && now_ms
            - self.last_port_refresh_ms >= HOUSEKEEPING_INTERVAL_MS;
        if refresh_ports {
            self.last_port_refresh_ms = now_ms;
        }
        let spots = self.spot_store.get_spots_by_frequency(now_ms);
        let display_bytes = self.vfd_display.update(spots.as_slice(), now_ms, wall_ms);
        assert(is_frequency_snapshot(spot_views(spots@), self@.spot_store, now_ms));
        PassOutcome { display_bytes, refresh_ports }
    }
}

/// The log never outgrows its limit, and what goes when it is full is the
/// oldest line: the newest is always kept.
pub proof fn lemma_log_bounded(log: Seq<Seq<char>>, line: Seq<char>)
    requires
        log.len() <= RAW_DATA_LOG_MAX_LINES,
    ensures
        logged(log, line).len() <= RAW_DATA_LOG_MAX_LINES,
        logged(log, line).last() == line,
        log.len() < RAW_DATA_LOG_MAX_LINES ==> logged(log, line) == log.push(line),
        log.len() == RAW_DATA_LOG_MAX_LINES ==> logged(log, line) == log.drop_first().push(line),
{
    if log.len() == RAW_DATA_LOG_MAX_LINES {
        assert(log.push(line).drop_first() =~= log.drop_first().push(line));
    }
}

} // verus!
