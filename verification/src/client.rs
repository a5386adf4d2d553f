//! The feed client as a state machine without I/O of its own.
//!
//! The driver owns the socket. It tells the client what happened (a command
//! arrived, the connection came up, bytes were read, a write went through or
//! failed, the stream ended) and carries out the one [`LinkAction`] that
//! each call hands back. What the
//! client has to report is queued inside and taken out with
//! [`RbnClient::try_recv`], oldest first.

use crate::bytes::{
    bytes_occur, bytes_occur_at, contains_bytes, lower_bytes, lowered, lowered_byte, push_bytes,
    slice_bytes,
};
use crate::numeral::{decimal, push_decimal};
use crate::parser::{feed_spot, parse_spot_line};
use crate::spot::{RawSpot, RawSpotView};
use crate::text::{chars_of, push_str, string_of};
use vstd::prelude::*;
use vstd::utf8::{
    decode_utf8, encode_utf8, is_ascii_chars, is_ascii_chars_encode_utf8, valid_utf8,
};

verus! {

/// Host of the feed.
pub const RBN_HOST: &'static str = "rbn.telegraphy.de";

/// Port of the feed.
pub const RBN_PORT: u16 = 7000;

/// The words, in lower case, by which the server asks for the callsign.
pub const LOGIN_PROMPT: &'static str = "please enter your callsign";

/// The byte that ends a line of the feed.
pub const LINE_FEED: u8 = 0x0A;

/// The line ending of everything sent to the server.
pub const LINE_END: &'static str = "\r\n";

/// What `String::from_utf8_lossy` makes of bytes that are not well-formed
/// UTF-8: the text they hold, with U+FFFD in place of each ill-formed part.
pub uninterp spec fn lossy_decoded(bytes: Seq<u8>) -> Seq<char>;

/// The text that bytes are read as: what they encode where they are
/// well-formed UTF-8, else what is left of it with the ill-formed parts
/// replaced.
pub open spec fn text_of(bytes: Seq<u8>) -> Seq<char> {
    if valid_utf8(bytes) {
        decode_utf8(bytes)
    } else {
        lossy_decoded(bytes)
    }
}

/// Calls `String::from_utf8_lossy`, which hands back the text itself for
/// well-formed UTF-8 and, for anything else, a text that depends on the
/// bytes alone.
#[verifier::external_body]
fn lossy_text(bytes: &[u8]) -> (r: String)
    ensures
        valid_utf8(bytes@) ==> r@ == decode_utf8(bytes@),
        !valid_utf8(bytes@) ==> r@ == lossy_decoded(bytes@),
{
    String::from_utf8_lossy(bytes).into_owned()
}

/// What the client reports to its owner.
#[derive(Debug)]
pub enum RbnMessage {
    /// A line for the status bar.
    Status(String),
    /// A spot read from the feed.
    Spot(RawSpot),
    /// The connection is gone; the client is idle again.
    Disconnected,
    /// A line as it crossed the wire: `received` tells the direction.
    RawData { data: String, received: bool },
}

/// What an [`RbnMessage`] holds, as mathematical values.
pub enum RbnMessageView {
    Status(Seq<char>),
    Spot(RawSpotView),
    Disconnected,
    RawData { data: Seq<char>, received: bool },
}

impl View for RbnMessage {
    type V = RbnMessageView;

    open spec fn view(&self) -> RbnMessageView {
        match *self {
            RbnMessage::Status(text) => RbnMessageView::Status(text@),
            RbnMessage::Spot(spot) => RbnMessageView::Spot(spot@),
            RbnMessage::Disconnected => RbnMessageView::Disconnected,
            RbnMessage::RawData { data, received } => RbnMessageView::RawData {
                data: data@,
                received,
            },
        }
    }
}

impl Clone for RbnMessage {
    fn clone(&self) -> (r: Self)
        ensures
            r == *self,
    {
        match self {
            RbnMessage::Status(text) => RbnMessage::Status(text.clone()),
            RbnMessage::Spot(spot) => RbnMessage::Spot(spot.clone()),
            RbnMessage::Disconnected => RbnMessage::Disconnected,
            RbnMessage::RawData { data, received } => RbnMessage::RawData {
                data: data.clone(),
                received: *received,
            },
        }
    }
}

/// What the owner asks of the client.
#[derive(Debug)]
pub enum RbnCommand {
    /// Connect and log in under this callsign.
    Connect(String),
    /// Drop the connection.
    Disconnect,
}

/// Where the client stands in the life of a connection.
#[derive(Clone, Copy, Debug, PartialEq, Eq, Structural)]
pub enum ConnectionState {
    /// No connection and none asked for.
    Idle,
    /// The driver is opening the connection.
    Connecting,
    /// Connected; the server has not asked for the callsign yet.
    AwaitingLogin,
    /// The callsign was sent.
    LoggedIn,
}

/// What the driver has to do with the connection after a call.
#[derive(Debug)]
pub enum LinkAction {
    /// Nothing.
    Nothing,
    /// Open a connection to this host and port.
    Open { host: String, port: u16 },
    /// Write these bytes.
    Send(Vec<u8>),
    /// Close the connection, or give up opening it.
    Close,
}

/// What a [`LinkAction`] holds, as mathematical values.
pub enum LinkActionView {
    Nothing,
    Open { host: Seq<char>, port: u16 },
    Send(Seq<u8>),
    Close,
}

impl View for LinkAction {
    type V = LinkActionView;

    open spec fn view(&self) -> LinkActionView {
        match *self {
            LinkAction::Nothing => LinkActionView::Nothing,
            LinkAction::Open { host, port } => LinkActionView::Open { host: host@, port },
            LinkAction::Send(bytes) => LinkActionView::Send(bytes@),
            LinkAction::Close => LinkActionView::Close,
        }
    }
}

/// The views of a run of messages.
pub open spec fn messages_view(messages: Seq<RbnMessage>) -> Seq<RbnMessageView> {
    Seq::new(messages.len(), |i: int| messages[i]@)
}

/// The state of a client, as mathematical values.
pub struct RbnClientView {
    /// Where the connection stands.
    pub state: ConnectionState,
    /// The callsign of the latest `Connect`.
    pub callsign: Seq<char>,
    /// The bytes read after the last complete line.
    pub buffer: Seq<u8>,
    /// The messages not yet taken out, oldest first.
    pub outbox: Seq<RbnMessageView>,
    /// Whether the login line was handed to the driver and is not yet known
    /// to be written.
    pub login_pending: bool,
}

impl RbnClientView {
    /// This state with `messages` queued behind what is waiting.
    pub open spec fn with_messages(self, messages: Seq<RbnMessageView>) -> RbnClientView {
        RbnClientView { outbox: self.outbox + messages, ..self }
    }

    /// Whether a connection is up.
    pub open spec fn is_live(self) -> bool {
        self.state is AwaitingLogin || self.state is LoggedIn
    }

    /// This state, back to idle with an empty buffer.
    pub open spec fn dropped(self) -> RbnClientView {
        RbnClientView {
            state: ConnectionState::Idle,
            buffer: Seq::empty(),
            login_pending: false,
            ..self
        }
    }
}

/// Status text while the connection is being opened.
pub open spec fn connecting_text() -> Seq<char> {
    "Connecting to "@ + RBN_HOST@ + ":"@ + decimal(RBN_PORT as nat) + "..."@
}

/// A status message.
pub open spec fn status(text: Seq<char>) -> RbnMessageView {
    RbnMessageView::Status(text)
}

/// The messages that end a connection for the reason `text`.
pub open spec fn closing_messages(text: Seq<char>) -> Seq<RbnMessageView> {
    seq![status(text), RbnMessageView::Disconnected]
}

/// A `Connect` command: an idle client starts connecting, any other ignores
/// it.
pub open spec fn connect_step(c: RbnClientView, callsign: Seq<char>) -> (
    RbnClientView,
    LinkActionView,
) {
    if c.state is Idle {
        (
            RbnClientView {
                state: ConnectionState::Connecting,
                callsign,
                buffer: Seq::empty(),
                outbox: c.outbox.push(status(connecting_text())),
                login_pending: false,
            },
            LinkActionView::Open { host: RBN_HOST@, port: RBN_PORT },
        )
    } else {
        (c, LinkActionView::Nothing)
    }
}

/// A `Disconnect` command: an idle client ignores it, any other reports the
/// end and goes idle.
pub open spec fn disconnect_step(c: RbnClientView) -> (RbnClientView, LinkActionView) {
    if c.state is Idle {
        (c, LinkActionView::Nothing)
    } else {
        (c.dropped().with_messages(closing_messages("Disconnected"@)), LinkActionView::Close)
    }
}

/// The connection came up. A client that gave up meanwhile has it closed.
pub open spec fn connected_step(c: RbnClientView) -> (RbnClientView, LinkActionView) {
    if c.state is Connecting {
        (
            RbnClientView {
                state: ConnectionState::AwaitingLogin,
                buffer: Seq::empty(),
                ..c
            }.with_messages(seq![status("Connected, waiting for login prompt..."@)]),
            LinkActionView::Nothing,
        )
    } else if c.state is Idle {
        (c, LinkActionView::Close)
    } else {
        (c, LinkActionView::Nothing)
    }
}

/// The connection could not be opened, for the given reason.
pub open spec fn connect_failed_step(c: RbnClientView, reason: Seq<char>) -> RbnClientView {
    if c.state is Connecting {
        c.dropped().with_messages(closing_messages("Connection failed: "@ + reason))
    } else {
        c
    }
}

/// The server closed the stream.
pub open spec fn end_of_stream_step(c: RbnClientView) -> (RbnClientView, LinkActionView) {
    if c.is_live() {
        (
            c.dropped().with_messages(closing_messages("Connection closed by server"@)),
            LinkActionView::Close,
        )
    } else {
        (c, LinkActionView::Nothing)
    }
}

/// Reading failed, for the given reason.
pub open spec fn io_error_step(c: RbnClientView, reason: Seq<char>) -> (
    RbnClientView,
    LinkActionView,
) {
    if c.is_live() {
        (c.dropped().with_messages(closing_messages("Read error: "@ + reason)), LinkActionView::Close)
    } else {
        (c, LinkActionView::Nothing)
    }
}

/// How many bytes stand before the first line feed of `s`.
pub open spec fn line_run(s: Seq<u8>) -> nat
    decreases s.len(),
{
    if s.len() > 0 && s[0] != LINE_FEED {
        1 + line_run(s.drop_first())
    } else {
        0
    }
}

/// What a run of bytes is echoed as: the text that it is read as.
pub open spec fn echo(bytes: Seq<u8>) -> Seq<RbnMessageView> {
    seq![RbnMessageView::RawData { data: text_of(bytes), received: true }]
}

/// What one complete line gives rise to: its echo, then its spot if it
/// holds one.
pub open spec fn line_messages(line: Seq<u8>, now_ms: u64) -> Seq<RbnMessageView> {
    match feed_spot(text_of(line), now_ms) {
        Some(spot) => echo(line).push(RbnMessageView::Spot(spot)),
        None => echo(line),
    }
}

/// The messages of every complete line of `data`, in order. A line is
/// complete with its line feed, which it keeps.
pub open spec fn complete_line_messages(data: Seq<u8>, now_ms: u64) -> Seq<RbnMessageView>
    decreases data.len(),
{
    let n = line_run(data) as int;
    if n < data.len() {
        line_messages(data.subrange(0, n + 1), now_ms) + complete_line_messages(
            data.subrange(n + 1, data.len() as int),
            now_ms,
        )
    } else {
        Seq::empty()
    }
}

/// What follows the last line feed of `data`.
pub open spec fn unfinished_line(data: Seq<u8>) -> Seq<u8>
    decreases data.len(),
{
    let n = line_run(data) as int;
    if n < data.len() {
        unfinished_line(data.subrange(n + 1, data.len() as int))
    } else {
        data
    }
}

/// Whether the login prompt stands in `data`, its ASCII letters in either
/// case. The bytes need not be complete text.
pub open spec fn login_prompt_in(data: Seq<u8>) -> bool {
    bytes_occur(lowered(data), encode_utf8(LOGIN_PROMPT@))
}

/// The line that logs `callsign` in.
pub open spec fn login_line(callsign: Seq<char>) -> Seq<char> {
    callsign + LINE_END@
}

/// The echo of what is left when the prompt is found; nothing where
/// nothing is left.
pub open spec fn rest_echo(rest: Seq<u8>) -> Seq<RbnMessageView> {
    if rest.len() > 0 {
        echo(rest)
    } else {
        Seq::empty()
    }
}

/// What a login line that was written gives rise to: its echo, and the
/// status.
pub open spec fn login_report(callsign: Seq<char>) -> Seq<RbnMessageView> {
    seq![
        RbnMessageView::RawData { data: login_line(callsign), received: false },
        status("Logged in as "@ + callsign),
    ]
}

/// A chunk of bytes was read at `now_ms`. The bytes join the buffer; every
/// complete line is cut off at its line feed, echoed and read for a spot;
/// the bytes that are left stay in the buffer for the next read. A client
/// that still awaits the prompt looks for it in all the bytes at hand,
/// complete lines and unfinished line alike: where it finds the prompt, it
/// hands out the login line, echoes what is left and empties the buffer.
/// From then on it is logged in; the login is reported once the driver
/// tells that the line was written.
pub open spec fn data_step(c: RbnClientView, chunk: Seq<u8>, now_ms: u64) -> (
    RbnClientView,
    LinkActionView,
) {
    if c.is_live() {
        let data = c.buffer + chunk;
        let rest = unfinished_line(data);
        let read = c.with_messages(complete_line_messages(data, now_ms));
        if c.state is AwaitingLogin && login_prompt_in(data) {
            (
                RbnClientView {
                    state: ConnectionState::LoggedIn,
                    buffer: Seq::empty(),
                    login_pending: true,
                    ..read
                }.with_messages(rest_echo(rest)),
                LinkActionView::Send(encode_utf8(login_line(c.callsign))),
            )
        } else {
            (RbnClientView { buffer: rest, ..read }, LinkActionView::Nothing)
        }
    } else {
        (c, LinkActionView::Nothing)
    }
}

/// The driver wrote what it was handed. A login line that was pending is
/// echoed and reported; anything else changes nothing.
pub open spec fn sent_step(c: RbnClientView) -> RbnClientView {
    if c.login_pending {
        RbnClientView { login_pending: false, ..c }.with_messages(login_report(c.callsign))
    } else {
        c
    }
}

/// Writing failed, for the given reason.
pub open spec fn write_error_step(c: RbnClientView, reason: Seq<char>) -> (
    RbnClientView,
    LinkActionView,
) {
    if c.is_live() {
        (c.dropped().with_messages(closing_messages("Write error: "@ + reason)), LinkActionView::Close)
    } else {
        (c, LinkActionView::Nothing)
    }
}

/// Bytes without a line feed before position `i`, and with one at `i`, have
/// their first line end at `i`.
pub proof fn lemma_line_run(s: Seq<u8>, i: int)
    requires
        0 <= i <= s.len(),
        forall|j: int| 0 <= j < i ==> #[trigger] s[j] != LINE_FEED,
        i < s.len() ==> s[i] == LINE_FEED,
    ensures
        line_run(s) == i,
    decreases i,
{
    if i > 0 {
        let t = s.drop_first();
        assert forall|j: int| 0 <= j < i - 1 implies #[trigger] t[j] != LINE_FEED by {
            assert(t[j] == s[j + 1]);
        }
        lemma_line_run(t, i - 1);
    }
}

/// The first line of `s` ends where `line_run` says: no line feed stands
/// before that place, and one stands at it unless `s` ends there.
pub proof fn lemma_line_run_bounds(s: Seq<u8>)
    ensures
        line_run(s) <= s.len(),
        forall|j: int| 0 <= j < line_run(s) ==> #[trigger] s[j] != LINE_FEED,
        line_run(s) < s.len() ==> s[line_run(s) as int] == LINE_FEED,
    decreases s.len(),
{
    if s.len() > 0 && s[0] != LINE_FEED {
        let t = s.drop_first();
        lemma_line_run_bounds(t);
        assert forall|j: int| 0 <= j < line_run(s) implies #[trigger] s[j] != LINE_FEED by {
            if j > 0 {
                assert(s[j] == t[j - 1]);
            }
        }
        if line_run(s) < s.len() {
            assert(s[line_run(s) as int] == t[line_run(t) as int]);
        }
    }
}

/// Lines do not depend on where a read ends: the lines of `x` followed by
/// `y` are the lines of `x`, then the lines of what `x` left unfinished
/// followed by `y`; and the same bytes are left unfinished either way.
pub proof fn lemma_lines_split(x: Seq<u8>, y: Seq<u8>, now_ms: u64)
    ensures
        complete_line_messages(x + y, now_ms) == complete_line_messages(x, now_ms)
            + complete_line_messages(unfinished_line(x) + y, now_ms),
        unfinished_line(x + y) == unfinished_line(unfinished_line(x) + y),
    decreases x.len(),
{
    let n = line_run(x) as int;
    lemma_line_run_bounds(x);
    if n < x.len() {
        let whole = x + y;
        assert forall|j: int| 0 <= j < n implies #[trigger] whole[j] != LINE_FEED by {
            assert(whole[j] == x[j]);
        }
        assert(whole[n] == x[n]);
        lemma_line_run(whole, n);
        let later = x.subrange(n + 1, x.len() as int);
        assert(whole.subrange(0, n + 1) =~= x.subrange(0, n + 1));
        assert(whole.subrange(n + 1, whole.len() as int) =~= later + y);
        lemma_lines_split(later, y, now_ms);
        let first = line_messages(x.subrange(0, n + 1), now_ms);
        assert(first + (complete_line_messages(later, now_ms) + complete_line_messages(
            unfinished_line(later) + y,
            now_ms,
        )) =~= (first + complete_line_messages(later, now_ms)) + complete_line_messages(
            unfinished_line(later) + y,
            now_ms,
        ));
    } else {
        assert(complete_line_messages(x, now_ms) + complete_line_messages(x + y, now_ms)
            =~= complete_line_messages(x + y, now_ms));
    }
}

/// The feed client.
pub struct RbnClient {
    state: ConnectionState,
    callsign: String,
    buffer: Vec<u8>,
    outbox: Vec<RbnMessage>,
    login_pending: bool,
}

impl View for RbnClient {
    type V = RbnClientView;

    closed spec fn view(&self) -> RbnClientView {
        RbnClientView {
            state: self.state,
            callsign: self.callsign@,
            buffer: self.buffer@,
            outbox: messages_view(self.outbox@),
            login_pending: self.login_pending,
        }
    }
}

/// The message `Status(text)`.
fn status_message(text: &str) -> (m: RbnMessage)
    ensures
        m@ == status(text@),
{
    RbnMessage::Status(String::from_str(text))
}

/// The message `Status(head + tail)`.
fn status_message_with(head: &str, tail: &str) -> (m: RbnMessage)
    ensures
        m@ == status(head@ + tail@),
{
    let mut text: Vec<char> = chars_of(head);
    push_str(&mut text, tail);
    RbnMessage::Status(string_of(&text))
}

impl RbnClient {
    /// An idle client with nothing to report.
    pub fn new() -> (r: Self)
        ensures
            r@ == (RbnClientView {
                state: ConnectionState::Idle,
                callsign: Seq::empty(),
                buffer: Seq::empty(),
                outbox: Seq::empty(),
                login_pending: false,
            }),
    {
        let r = RbnClient {
            state: ConnectionState::Idle,
            callsign: String::new(),
            buffer: Vec::new(),
            outbox: Vec::new(),
            login_pending: false,
        };
        assert(r@.outbox =~= Seq::empty());
        r
    }

    /// Where the connection stands.
    pub fn state(&self) -> (s: ConnectionState)
        ensures
            s == self@.state,
    {
        self.state
    }

    /// How many messages wait to be taken out.
    pub fn pending(&self) -> (n: usize)
        ensures
            n == self@.outbox.len(),
    {
        self.outbox.len()
    }

    /// Queues one message.
    fn emit(&mut self, message: RbnMessage)
        ensures
            final(self)@ == old(self)@.with_messages(seq![message@]),
    {
        self.outbox.push(message);
        assert(self@.outbox =~= old(self)@.outbox + seq![message@]);
    }

    /// Queues the two messages that end a connection and goes idle.
    fn drop_link(&mut self, reason: RbnMessage)
        ensures
            final(self)@ == old(self)@.dropped().with_messages(
                seq![reason@, RbnMessageView::Disconnected],
            ),
    {
        self.state = ConnectionState::Idle;
        self.buffer = Vec::new();
        self.login_pending = false;
        self.emit(reason);
        self.emit(RbnMessage::Disconnected);
        assert(self@.outbox =~= old(self)@.outbox + seq![reason@, RbnMessageView::Disconnected]);
    }

    /// Takes a `Connect` command.
    pub fn connect(&mut self, callsign: String) -> (action: LinkAction)
        ensures
            final(self)@ == connect_step(old(self)@, callsign@).0,
            action@ == connect_step(old(self)@, callsign@).1,
    {
        if self.state != ConnectionState::Idle {
            return LinkAction::Nothing;
        }
        let mut text: Vec<char> = chars_of("Connecting to ");
        push_str(&mut text, RBN_HOST);
        push_str(&mut text, ":");
        push_decimal(&mut text, RBN_PORT as u64);
        push_str(&mut text, "...");
        self.state = ConnectionState::Connecting;
        self.callsign = callsign;
        self.buffer = Vec::new();
        self.login_pending = false;
        self.emit(RbnMessage::Status(string_of(&text)));
        assert(self@.outbox =~= old(self)@.outbox.push(status(connecting_text())));
        LinkAction::Open { host: String::from_str(RBN_HOST), port: RBN_PORT }
    }

    /// Takes a `Disconnect` command.
    pub fn disconnect(&mut self) -> (action: LinkAction)
        ensures
            final(self)@ == disconnect_step(old(self)@).0,
            action@ == disconnect_step(old(self)@).1,
    {
        if self.state == ConnectionState::Idle {
            return LinkAction::Nothing;
        }
        self.drop_link(status_message("Disconnected"));
        LinkAction::Close
    }

    /// Takes a command from the owner.
    pub fn handle_command(&mut self, command: RbnCommand) -> (action: LinkAction)
        ensures
            command matches RbnCommand::Connect(callsign) ==> final(self)@ == connect_step(
                old(self)@,
                callsign@,
            ).0 && action@ == connect_step(old(self)@, callsign@).1,
            command is Disconnect ==> final(self)@ == disconnect_step(old(self)@).0 && action@
                == disconnect_step(old(self)@).1,
    {
        match command {
            RbnCommand::Connect(callsign) => self.connect(callsign),
            RbnCommand::Disconnect => self.disconnect(),
        }
    }

    /// The driver reports that the connection is up.
    pub fn on_connected(&mut self) -> (action: LinkAction)
        ensures
            final(self)@ == connected_step(old(self)@).0,
            action@ == connected_step(old(self)@).1,
    {
        match self.state {
            ConnectionState::Connecting => {
                self.state = ConnectionState::AwaitingLogin;
                self.buffer = Vec::new();
                self.emit(status_message("Connected, waiting for login prompt..."));
                LinkAction::Nothing
            },
            ConnectionState::Idle => LinkAction::Close,
            _ => LinkAction::Nothing,
        }
    }

    /// The driver reports that the connection could not be opened.
    pub fn on_connect_failed(&mut self, reason: &str)
        ensures
            final(self)@ == connect_failed_step(old(self)@, reason@),
    {
        if self.state == ConnectionState::Connecting {
            self.drop_link(status_message_with("Connection failed: ", reason));
        }
    }

    /// The driver reports that the server closed the stream.
    pub fn on_end_of_stream(&mut self) -> (action: LinkAction)
        ensures
            final(self)@ == end_of_stream_step(old(self)@).0,
            action@ == end_of_stream_step(old(self)@).1,
    {
        if self.state == ConnectionState::AwaitingLogin || self.state == ConnectionState::LoggedIn {
            self.drop_link(status_message("Connection closed by server"));
            LinkAction::Close
        } else {
            LinkAction::Nothing
        }
    }

    /// The driver reports that it wrote what it was handed.
    pub fn on_sent(&mut self)
        ensures
            final(self)@ == sent_step(old(self)@),
    {
        if self.login_pending {
            self.login_pending = false;
            let mut line: Vec<char> = chars_of(self.callsign.as_str());
            push_str(&mut line, LINE_END);
            let logged_in = status_message_with("Logged in as ", self.callsign.as_str());
            self.emit(RbnMessage::RawData { data: string_of(&line), received: false });
            self.emit(logged_in);
            assert(self@.outbox =~= old(self)@.outbox + login_report(old(self)@.callsign));
        }
    }

    /// The driver reports that writing failed.
    pub fn on_write_error(&mut self, reason: &str) -> (action: LinkAction)
        ensures
            final(self)@ == write_error_step(old(self)@, reason@).0,
            action@ == write_error_step(old(self)@, reason@).1,
    {
        if self.state == ConnectionState::AwaitingLogin || self.state == ConnectionState::LoggedIn {
            self.drop_link(status_message_with("Write error: ", reason));
            LinkAction::Close
        } else {
            LinkAction::Nothing
        }
    }

    /// The driver reports that reading failed.
    pub fn on_io_error(&mut self, reason: &str) -> (action: LinkAction)
        ensures
            final(self)@ == io_error_step(old(self)@, reason@).0,
            action@ == io_error_step(old(self)@, reason@).1,
    {
        if self.state == ConnectionState::AwaitingLogin || self.state == ConnectionState::LoggedIn {
            self.drop_link(status_message_with("Read error: ", reason));
            LinkAction::Close
        } else {
            LinkAction::Nothing
        }
    }

    /// Queues what one complete line gives rise to.
    fn emit_line(&mut self, line: &Vec<u8>, now_ms: u64)
        ensures
            final(self)@ == old(self)@.with_messages(line_messages(line@, now_ms)),
    {
        let text = lossy_text(line.as_slice());
        let spot = parse_spot_line(text.as_str(), now_ms);
        self.emit(RbnMessage::RawData { data: text, received: true });
        match spot {
            Some(found) => {
                self.emit(RbnMessage::Spot(found));
            },
            None => {},
        }
        assert(self@.outbox =~= old(self)@.outbox + line_messages(line@, now_ms));
    }

    /// Echoes and reads every complete line of the buffer, and keeps what
    /// follows the last of them.
    fn take_lines(&mut self, now_ms: u64)
        ensures
            final(self)@ == (RbnClientView {
                buffer: unfinished_line(old(self)@.buffer),
                ..old(self)@
            }).with_messages(complete_line_messages(old(self)@.buffer, now_ms)),
    {
        let ghost data = self.buffer@;
        let ghost before = self@;
        let n: usize = self.buffer.len();
        let mut start: usize = 0;
        let mut i: usize = 0;
        assert(data.subrange(0, n as int) =~= data);
        assert(self@.outbox + complete_line_messages(data, now_ms) =~= before.outbox
            + complete_line_messages(data, now_ms));
        while i < n
            invariant
                start <= i <= n,
                n == data.len(),
                self.buffer@ == data,
                self@.state == before.state,
                self@.callsign == before.callsign,
                self@.login_pending == before.login_pending,
                forall|j: int| start <= j < i ==> #[trigger] data[j] != LINE_FEED,
                before.outbox + complete_line_messages(data, now_ms) == self@.outbox
                    + complete_line_messages(data.subrange(start as int, n as int), now_ms),
                unfinished_line(data) == unfinished_line(data.subrange(start as int, n as int)),
            decreases n - i,
        {
            if self.buffer[i] == LINE_FEED {
                let line = slice_bytes(&self.buffer, start, i + 1);
                let ghost waiting = self@.outbox;
                let ghost tail = data.subrange(start as int, n as int);
                let ghost later = data.subrange(i + 1, n as int);
                proof {
                    assert forall|j: int| 0 <= j < i - start implies #[trigger] tail[j]
                        != LINE_FEED by {
                        assert(tail[j] == data[start + j]);
                    }
                    lemma_line_run(tail, i - start);
                    assert(tail.subrange(0, i - start + 1) =~= line@);
                    assert(tail.subrange(i - start + 1, tail.len() as int) =~= later);
                    assert(complete_line_messages(tail, now_ms) == line_messages(line@, now_ms)
                        + complete_line_messages(later, now_ms));
                    assert(unfinished_line(tail) == unfinished_line(later));
                }
                self.emit_line(&line, now_ms);
                assert(self@.outbox + complete_line_messages(later, now_ms) =~= waiting + (
                line_messages(line@, now_ms) + complete_line_messages(later, now_ms)));
                start = i + 1;
            }
            i += 1;
        }
        let rest = slice_bytes(&self.buffer, start, n);
        proof {
            let tail = data.subrange(start as int, n as int);
            assert forall|j: int| 0 <= j < n - start implies #[trigger] tail[j] != LINE_FEED by {
                assert(tail[j] == data[start + j]);
            }
            lemma_line_run(tail, n - start);
            assert(self@.outbox + complete_line_messages(tail, now_ms) =~= self@.outbox);
        }
        self.buffer = rest;
    }

    /// The driver reports a chunk of bytes, read at `now_ms`.
    pub fn on_data(&mut self, chunk: &[u8], now_ms: u64) -> (action: LinkAction)
        ensures
            final(self)@ == data_step(old(self)@, chunk@, now_ms).0,
            action@ == data_step(old(self)@, chunk@, now_ms).1,
    {
        if !(self.state == ConnectionState::AwaitingLogin || self.state
            == ConnectionState::LoggedIn) {
            return LinkAction::Nothing;
        }
        push_bytes(&mut self.buffer, chunk);
        let due: bool = self.state == ConnectionState::AwaitingLogin && contains_bytes(
            &lower_bytes(&self.buffer),
            LOGIN_PROMPT.as_bytes(),
        );
        self.take_lines(now_ms);
        let ghost read = self@;
        if due {
            if self.buffer.len() > 0 {
                let text = lossy_text(self.buffer.as_slice());
                self.emit(RbnMessage::RawData { data: text, received: true });
            }
            self.buffer = Vec::new();
            let mut line: Vec<char> = chars_of(self.callsign.as_str());
            push_str(&mut line, LINE_END);
            let bytes = string_of(&line).as_str().as_bytes_vec();
            self.state = ConnectionState::LoggedIn;
            self.login_pending = true;
            assert(self@.outbox =~= read.outbox + rest_echo(read.buffer));
            return LinkAction::Send(bytes);
        }
        LinkAction::Nothing
    }

    /// Takes the oldest waiting message out, if there is one.
    pub fn try_recv(&mut self) -> (message: Option<RbnMessage>)
        ensures
            old(self)@.outbox.len() == 0 ==> message is None && final(self)@ == old(self)@,
            old(self)@.outbox.len() > 0 ==> message is Some && message->0@ == old(self)@.outbox[0]
                && final(self)@ == (RbnClientView {
                outbox: old(self)@.outbox.drop_first(),
                ..old(self)@
            }),
    {
        if self.outbox.len() == 0 {
            None
        } else {
            let message = self.outbox.remove(0);
            assert(self@.outbox =~= old(self)@.outbox.drop_first());
            Some(message)
        }
    }
}

/// Once logged in, no chunk of bytes makes the client send anything or
/// leave the logged-in state: the login line goes out once per connection.
pub proof fn lemma_login_sent_once(c: RbnClientView, chunk: Seq<u8>, now_ms: u64)
    requires
        c.state is LoggedIn,
    ensures
        data_step(c, chunk, now_ms).1 is Nothing,
        data_step(c, chunk, now_ms).0.state is LoggedIn,
{
}

/// A chunk of bytes makes the client send something only while it awaits the
/// prompt and the prompt stands in the bytes at hand, whether or not a line
/// feed follows it; what it sends is the callsign and a line end, and it is
/// logged in afterwards. Once the line is written, the login is reported,
/// and that once.
pub proof fn lemma_login_handshake(c: RbnClientView, chunk: Seq<u8>, now_ms: u64)
    ensures
        !(data_step(c, chunk, now_ms).1 is Nothing) <==> c.state is AwaitingLogin
            && login_prompt_in(c.buffer + chunk),
        !(data_step(c, chunk, now_ms).1 is Nothing) ==> ({
            let after = data_step(c, chunk, now_ms).0;
            &&& data_step(c, chunk, now_ms).1 == LinkActionView::Send(
                encode_utf8(c.callsign + LINE_END@),
            )
            &&& after.state is LoggedIn
            &&& after.buffer.len() == 0
            &&& after.login_pending
            &&& sent_step(after).outbox == after.outbox + login_report(c.callsign)
            &&& sent_step(sent_step(after)) == sent_step(after)
        }),
{
}

/// Every way in which a live connection ends comes to the same: the driver
/// is told to close, the client is idle again, and the last thing it
/// reports, after a status line, is `Disconnected`.
pub proof fn lemma_terminations_converge(c: RbnClientView, reason: Seq<char>)
    requires
        c.is_live(),
    ensures
        disconnect_step(c).1 is Close,
        end_of_stream_step(c).1 is Close,
        io_error_step(c, reason).1 is Close,
        write_error_step(c, reason).1 is Close,
        write_error_step(c, reason).0.state is Idle,
        write_error_step(c, reason).0.outbox == c.outbox + closing_messages(
            "Write error: "@ + reason,
        ),
        write_error_step(c, reason).0.outbox.last() is Disconnected,
        disconnect_step(c).0.state is Idle,
        end_of_stream_step(c).0.state is Idle,
        io_error_step(c, reason).0.state is Idle,
        disconnect_step(c).0.outbox == c.outbox + closing_messages("Disconnected"@),
        end_of_stream_step(c).0.outbox == c.outbox + closing_messages(
            "Connection closed by server"@,
        ),
        io_error_step(c, reason).0.outbox == c.outbox + closing_messages("Read error: "@ + reason),
        disconnect_step(c).0.outbox.last() is Disconnected,
        end_of_stream_step(c).0.outbox.last() is Disconnected,
        io_error_step(c, reason).0.outbox.last() is Disconnected,
{
}

/// An idle client does nothing on `Disconnect`, and a client that is not
/// idle does nothing on `Connect`.
pub proof fn lemma_redundant_commands(c: RbnClientView, callsign: Seq<char>)
    ensures
        c.state is Idle ==> disconnect_step(c) == (c, LinkActionView::Nothing),
        !(c.state is Idle) ==> connect_step(c, callsign) == (c, LinkActionView::Nothing),
{
}

/// No byte of the login prompt is a line feed.
pub proof fn lemma_prompt_has_no_line_feed()
    ensures
        forall|i: int|
            0 <= i < encode_utf8(LOGIN_PROMPT@).len() ==> #[trigger] encode_utf8(LOGIN_PROMPT@)[i]
                != LINE_FEED,
{
    reveal_strlit("please enter your callsign");
    let text = LOGIN_PROMPT@;
    assert(text.len() == 26);
    assert forall|i: int| 0 <= i < text.len() implies '\0' <= #[trigger] text[i] <= '\u{7f}'
        && text[i] != '\n' by {
        assert(text[i] == ' ' || ('a' <= text[i] <= 'z'));
    }
    assert(is_ascii_chars(text));
    is_ascii_chars_encode_utf8(text);
    assert forall|i: int| 0 <= i < encode_utf8(text).len() implies #[trigger] encode_utf8(text)[i]
        != LINE_FEED by {
        assert(text[i] as u8 == encode_utf8(text)[i]);
        assert(text[i] != '\n');
    }
}

/// What is left unfinished is the tail of the bytes, and what stands just
/// before it, if anything, is a line feed.
pub proof fn lemma_unfinished_is_tail(x: Seq<u8>)
    ensures
        unfinished_line(x).len() <= x.len(),
        unfinished_line(x) == x.subrange(x.len() - unfinished_line(x).len(), x.len() as int),
        unfinished_line(x).len() < x.len() ==> x[x.len() - unfinished_line(x).len() - 1]
            == LINE_FEED,
    decreases x.len(),
{
    let n = line_run(x) as int;
    lemma_line_run_bounds(x);
    if n < x.len() {
        let later = x.subrange(n + 1, x.len() as int);
        lemma_unfinished_is_tail(later);
        let u = unfinished_line(later);
        assert(later.subrange(later.len() - u.len(), later.len() as int) =~= x.subrange(
            x.len() - u.len(),
            x.len() as int,
        ));
        if u.len() < later.len() {
            assert(later[later.len() - u.len() - 1] == x[x.len() - u.len() - 1]);
        }
    } else {
        assert(x.subrange(0, x.len() as int) =~= x);
    }
}

/// A pattern without a line feed that does not stand in `x` stands in `x`
/// followed by `y` exactly where it stands in the unfinished line of `x`
/// followed by `y`: it cannot reach back over a line feed.
pub proof fn lemma_occurrence_after_last_line(x: Seq<u8>, y: Seq<u8>, pattern: Seq<u8>)
    requires
        forall|i: int| 0 <= i < pattern.len() ==> #[trigger] pattern[i] != LINE_FEED,
        !bytes_occur(lowered(x), pattern),
    ensures
        bytes_occur(lowered(x + y), pattern) <==> bytes_occur(
            lowered(unfinished_line(x) + y),
            pattern,
        ),
{
    lemma_unfinished_is_tail(x);
    let u = unfinished_line(x);
    let k = x.len() - u.len();
    let whole = lowered(x + y);
    let tail = lowered(u + y);
    let len = pattern.len() as int;
    assert forall|j: int| 0 <= j < tail.len() implies #[trigger] tail[j] == whole[k + j] by {
        if j < u.len() {
            assert((u + y)[j] == x[k + j]);
            assert((x + y)[k + j] == x[k + j]);
        } else {
            assert((u + y)[j] == y[j - u.len()]);
            assert((x + y)[k + j] == y[k + j - x.len()]);
        }
    }
    if bytes_occur(tail, pattern) {
        let a = choose|a: int| bytes_occur_at(tail, pattern, a);
        assert(whole.subrange(k + a, k + a + len) =~= tail.subrange(a, a + len));
        assert(bytes_occur_at(whole, pattern, k + a));
    }
    if bytes_occur(whole, pattern) {
        let at = choose|at: int| bytes_occur_at(whole, pattern, at);
        if at + len <= x.len() {
            let inside = lowered(x).subrange(at, at + len);
            assert forall|j: int| 0 <= j < len implies #[trigger] inside[j] == whole.subrange(
                at,
                at + len,
            )[j] by {
                assert((x + y)[at + j] == x[at + j]);
            }
            assert(inside =~= whole.subrange(at, at + len));
            assert(bytes_occur_at(lowered(x), pattern, at));
            assert(false);
        }
        if at < k {
            let j = k - 1 - at;
            assert(whole.subrange(at, at + len)[j] == pattern[j]);
            assert((x + y)[k - 1] == x[k - 1]);
            assert(whole[k - 1] == lowered_byte(x[k - 1]));
            assert(false);
        }
        assert(tail.subrange(at - k, at - k + len) =~= whole.subrange(at, at + len));
        assert(bytes_occur_at(tail, pattern, at - k));
    }
}

/// How the bytes of the feed are cut into reads makes no difference: two
/// reads one after the other leave the client where one read of the same
/// bytes leaves it, with the same messages in the same order and the same
/// bytes kept for the next read. This holds unless the first read already
/// brought the login prompt, in which case the login comes between the two.
pub proof fn lemma_reads_join(c: RbnClientView, first: Seq<u8>, second: Seq<u8>, now_ms: u64)
    requires
        !(c.state is AwaitingLogin && login_prompt_in(c.buffer + first)),
    ensures
        data_step(c, first, now_ms).1 is Nothing,
        data_step(data_step(c, first, now_ms).0, second, now_ms) == data_step(
            c,
            first + second,
            now_ms,
        ),
{
    if c.is_live() {
        let x = c.buffer + first;
        lemma_lines_split(x, second, now_ms);
        assert(c.buffer + (first + second) =~= x + second);
        let mid = data_step(c, first, now_ms).0;
        assert(mid.buffer == unfinished_line(x));
        assert(mid.outbox + complete_line_messages(unfinished_line(x) + second, now_ms)
            =~= c.outbox + (complete_line_messages(x, now_ms) + complete_line_messages(
            unfinished_line(x) + second,
            now_ms,
        )));
        assert(mid.outbox + complete_line_messages(mid.buffer + second, now_ms) == c.outbox
            + complete_line_messages(x + second, now_ms));
        assert(mid.state == c.state && mid.callsign == c.callsign);
        if c.state is AwaitingLogin {
            lemma_prompt_has_no_line_feed();
            lemma_occurrence_after_last_line(x, second, encode_utf8(LOGIN_PROMPT@));
        }
    }
}

} // verus!
