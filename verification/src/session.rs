//! The server's decisions: how a line from a client is answered, and which
//! clients are kept alive by their UDP pings.

use vstd::hash_map::StringHashMap;
use vstd::prelude::*;
use vstd::utf8::{decode_utf8, valid_utf8};

use crate::command::{Command, CommandView, spec_parse};
use crate::errors::{ServerError, ServerErrorView};
use crate::text::{chars_of, eq_ignore_ascii_case, range_eq_ignore_ascii_case, trim, trim_range, trim_str, views};
use crate::command::owned;
use crate::generator::{QuoteGenerator, has_ticker};
use crate::quote::{QuoteView, StockQuote};

verus! {

/// The text of a byte string decoded as UTF-8, each invalid sequence
/// replaced by U+FFFD (`String::from_utf8_lossy`).
pub uninterp spec fn utf8_lossy(bytes: Seq<u8>) -> Seq<char>;

/// `String::from_utf8_lossy`, made owned. Its contract claims that the result
/// is a function of the bytes alone and that valid UTF-8 is decoded as is;
/// how invalid sequences are replaced is not stated.
#[verifier::external_body]
pub(crate) fn decode_lossy(bytes: &[u8]) -> (s: String)
    ensures
        s@ == utf8_lossy(bytes@),
        valid_utf8(bytes@) ==> s@ == decode_utf8(bytes@),
{
    String::from_utf8_lossy(bytes).into_owned()
}

/// The greeting sent to a client that connects.
pub fn greeting() -> (s: &'static str)
    ensures
        s@ == "Welcome to streamer!\nWhat stock do you intrested in?"@,
{
    "Welcome to streamer!\nWhat stock do you intrested in?"
}

/// The answer to the help command.
pub open spec fn help_text() -> Seq<char> {
    "To start streaming write STREAM udp://{host}:{port} {comma separated tickets}\nExample: STREAM udp://127.0.0.1:34562 AAPL,MSFT\n\nSend UDP PING packets from the client to keep the stream alive. The stream stops when pings stop."@
}

/// What the server does with one line from a client.
pub enum ConnectionAction {
    /// The line is blank: nothing is answered.
    Ignore,
    /// Answer with this text.
    Reply(String),
    /// Start streaming `tickets` to `stream_addr`, then answer with `reply`.
    Stream { tickets: Vec<String>, stream_addr: String, reply: String },
    /// Answer with the error's `Debug` rendering.
    Error(ServerError),
}

/// What a `ConnectionAction` says.
pub enum ConnectionActionView {
    Ignore,
    Reply(Seq<char>),
    Stream { tickets: Seq<Seq<char>>, stream_addr: Seq<char>, reply: Seq<char> },
    Error(ServerErrorView),
}

impl View for ConnectionAction {
    type V = ConnectionActionView;

    open spec fn view(&self) -> ConnectionActionView {
        match self {
            ConnectionAction::Ignore => ConnectionActionView::Ignore,
            ConnectionAction::Reply(s) => ConnectionActionView::Reply(s@),
            ConnectionAction::Stream { tickets, stream_addr, reply } => ConnectionActionView::Stream {
                tickets: views(tickets@),
                stream_addr: stream_addr@,
                reply: reply@,
            },
            ConnectionAction::Error(e) => ConnectionActionView::Error(e@),
        }
    }
}

/// The server's answer to `line`: a blank line is ignored; otherwise the
/// trimmed line is parsed as a command.
pub open spec fn spec_handle_line(line: Seq<char>) -> ConnectionActionView {
    let c = trim(line);
    if c.len() == 0 {
        ConnectionActionView::Ignore
    } else {
        match spec_parse(c) {
            Ok(CommandView::Help) => ConnectionActionView::Reply(help_text()),
            Ok(CommandView::UdpSend { tickets, stream_addr }) => ConnectionActionView::Stream {
                tickets,
                stream_addr,
                reply: "Streaming started"@,
            },
            Err(e) => ConnectionActionView::Error(e),
        }
    }
}

/// Decides what the server does with one line read from a client.
pub fn handle_line(line: &str) -> (a: ConnectionAction)
    ensures
        a@ == spec_handle_line(line@),
{
    let command = trim_str(line);
    if command.as_str().is_empty() {
        return ConnectionAction::Ignore;
    }
    match Command::parse(command.as_str()) {
        Ok(Command::HelpCommand) => ConnectionAction::Reply(
            owned(
                "To start streaming write STREAM udp://{host}:{port} {comma separated tickets}\nExample: STREAM udp://127.0.0.1:34562 AAPL,MSFT\n\nSend UDP PING packets from the client to keep the stream alive. The stream stops when pings stop.",
            ),
        ),
        Ok(Command::UdpSendCommand { tickets, stream_addr }) => ConnectionAction::Stream {
            tickets,
            stream_addr,
            reply: owned("Streaming started"),
        },
        Err(e) => ConnectionAction::Error(e),
    }
}

/// The registry after the server answered `line` at `now`: a stream request
/// counts as its target being heard from at `now`.
pub open spec fn registry_after_line(reg: Map<Seq<char>, u64>, line: Seq<char>, now: u64) -> Map<Seq<char>, u64> {
    match stream_target(spec_handle_line(line)) {
        Some(t) => reg.insert(t, now),
        None => reg,
    }
}

/// The address a stream is to be sent to, if the action starts one.
pub open spec fn stream_target(a: ConnectionActionView) -> Option<Seq<char>> {
    match a {
        ConnectionActionView::Stream { stream_addr, .. } => Some(stream_addr),
        _ => None,
    }
}

/// Decides what the server does with one line read from a client at `now`,
/// as `handle_line` does; a stream's target counts as alive from the moment
/// the stream is requested, so that it lives until its pings stop.
pub fn answer_line(registry: &mut PingRegistry, line: &str, now: u64) -> (a: ConnectionAction)
    ensures
        a@ == spec_handle_line(line@),
        final(registry)@ == registry_after_line(old(registry)@, line@, now),
        stream_target(a@) is Some ==> alive(final(registry)@, stream_target(a@)->0, now),
{
    let a = handle_line(line);
    match &a {
        ConnectionAction::Stream { stream_addr, .. } => {
            registry.keep_alive(stream_addr.clone(), now);
        },
        _ => {},
    }
    a
}

/// How long a client may stay silent before its stream stops: five seconds,
/// in nanoseconds.
pub const PING_TIMEOUT_NANOS: u64 = 5_000_000_000;

/// The time from `last` to `now`, zero if `now` is earlier.
pub open spec fn elapsed(last: u64, now: u64) -> nat {
    if now >= last {
        (now - last) as nat
    } else {
        0
    }
}

/// Whether a datagram with this text is a keep-alive ping: `PING` in any
/// letter case, surrounded by any white space.
pub open spec fn is_ping(text: Seq<char>) -> bool {
    eq_ignore_ascii_case(trim(text), "PING"@)
}

/// What a datagram did to the registry.
#[derive(PartialEq, Eq, Structural, Debug, Clone, Copy)]
pub enum PingEvent {
    /// A ping: the sender's time was set to now.
    Refreshed,
    /// Not a ping, from a sender silent for longer than the timeout: the sender was dropped.
    Expired,
    /// Not a ping, and nothing to drop.
    Ignored,
}

/// The clients that keep a stream alive, each with the time of its last ping.
pub struct PingRegistry {
    last_ping: StringHashMap<u64>,
}

impl View for PingRegistry {
    type V = Map<Seq<char>, u64>;

    closed spec fn view(&self) -> Map<Seq<char>, u64> {
        self.last_ping@
    }
}

impl PingRegistry {
    /// A registry without clients.
    pub fn new() -> (r: Self)
        ensures
            r@ == Map::<Seq<char>, u64>::empty(),
    {
        PingRegistry { last_ping: StringHashMap::new() }
    }

    /// Whether `addr` is kept alive at `now`: it was heard from no longer
    /// than the timeout ago.
    pub fn is_active(&self, addr: &str, now: u64) -> (b: bool)
        ensures
            b == alive(self@, addr@, now),
    {
        match self.last_ping.get(addr) {
            Some(last) => {
                let last = *last;
                let silent = if now >= last {
                    now - last
                } else {
                    0
                };
                silent <= PING_TIMEOUT_NANOS
            },
            None => false,
        }
    }

    /// Counts `addr` as heard from at `now`: by a ping, or by the request
    /// that opens its stream.
    pub fn keep_alive(&mut self, addr: String, now: u64)
        ensures
            final(self)@ == old(self)@.insert(addr@, now),
    {
        self.last_ping.insert(addr, now);
    }

    /// Stops keeping `addr` alive.
    pub fn forget(&mut self, addr: &str)
        ensures
            final(self)@ == old(self)@.remove(addr@),
    {
        self.last_ping.remove(addr);
    }

    /// Takes a datagram from `addr` received at `now`, as `on_message` does
    /// with its text decoded as UTF-8, invalid sequences replaced.
    pub fn on_datagram(&mut self, payload: &[u8], addr: String, now: u64) -> (e: PingEvent)
        ensures
            e == spec_on_message(old(self)@, utf8_lossy(payload@), addr@, now).0,
            final(self)@ == spec_on_message(old(self)@, utf8_lossy(payload@), addr@, now).1,
    {
        let text = decode_lossy(payload);
        self.on_message(text.as_str(), addr, now)
    }

    /// Takes a message with text `text` from `addr` received at `now`: a ping
    /// refreshes the sender; anything else drops the sender if it has been
    /// silent for longer than the timeout.
    pub fn on_message(&mut self, text: &str, addr: String, now: u64) -> (e: PingEvent)
        ensures
            e == spec_on_message(old(self)@, text@, addr@, now).0,
            final(self)@ == spec_on_message(old(self)@, text@, addr@, now).1,
    {
        let c = chars_of(text);
        let (a, b) = trim_range(&c, 0, c.len());
        assert(c@.subrange(0, c.len() as int) =~= c@);
        if range_eq_ignore_ascii_case(&c, a, b, "PING") {
            self.last_ping.insert(addr, now);
            return PingEvent::Refreshed;
        }
        match self.last_ping.get(addr.as_str()) {
            Some(last) => {
                let last = *last;
                let silent = if now >= last {
                    now - last
                } else {
                    0
                };
                if silent > PING_TIMEOUT_NANOS {
                    self.last_ping.remove(addr.as_str());
                    PingEvent::Expired
                } else {
                    PingEvent::Ignored
                }
            },
            None => PingEvent::Ignored,
        }
    }
}

/// Whether `addr` is kept alive at `now` by the registry `reg`: it was
/// heard from no longer than the timeout before `now`.
pub open spec fn alive(reg: Map<Seq<char>, u64>, addr: Seq<char>, now: u64) -> bool {
    reg.contains_key(addr) && elapsed(reg[addr], now) <= PING_TIMEOUT_NANOS
}

/// What one round of a stream does.
pub enum StreamStep {
    /// The client is no longer alive: the stream ends.
    Stop,
    /// The quote of each ticker, in order, or `None` where a ticker has none.
    Send(Vec<Option<StockQuote>>),
}

/// Whether `r` is what `get_quote` may give for `ticker` in `book`.
pub open spec fn quote_lookup(book: Seq<QuoteView>, ticker: Seq<char>, r: Option<StockQuote>) -> bool {
    match r {
        Some(q) => q@.ticker == ticker && exists|i: int| 0 <= i < book.len() && book[i] == q@,
        None => !has_ticker(book, ticker),
    }
}

/// One round of streaming `tickets` to `target` at `now`: stop if the target
/// is no longer alive, otherwise the quotes to send.
pub fn stream_round(
    registry: &PingRegistry,
    generator: &QuoteGenerator,
    target: &str,
    tickets: &Vec<String>,
    now: u64,
) -> (step: StreamStep)
    ensures
        step is Stop <==> !alive(registry@, target@, now),
        step matches StreamStep::Send(quotes) ==> quotes.len() == tickets.len() && forall|i: int|
            0 <= i < tickets.len() ==> quote_lookup(generator@, tickets@[i]@, #[trigger] quotes@[i]),
{
    if !registry.is_active(target, now) {
        return StreamStep::Stop;
    }
    let mut quotes: Vec<Option<StockQuote>> = Vec::new();
    let mut i: usize = 0;
    while i < tickets.len()
        invariant
            i <= tickets.len(),
            quotes.len() == i,
            forall|k: int| 0 <= k < i ==> quote_lookup(generator@, tickets@[k]@, #[trigger] quotes@[k]),
        decreases tickets.len() - i,
    {
        let q = generator.get_quote(tickets[i].as_str());
        quotes.push(q);
        i += 1;
    }
    StreamStep::Send(quotes)
}

/// What a message does: the event, and the registry afterwards.
pub open spec fn spec_on_message(reg: Map<Seq<char>, u64>, text: Seq<char>, addr: Seq<char>, now: u64) -> (PingEvent, Map<Seq<char>, u64>) {
    if is_ping(text) {
        (PingEvent::Refreshed, reg.insert(addr, now))
    } else if reg.contains_key(addr) && elapsed(reg[addr], now) > PING_TIMEOUT_NANOS {
        (PingEvent::Expired, reg.remove(addr))
    } else {
        (PingEvent::Ignored, reg)
    }
}

} // verus!
