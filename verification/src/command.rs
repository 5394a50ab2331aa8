//! The commands that a client sends to the quote server over TCP.

use vstd::prelude::*;

use crate::errors::{ServerError, ServerErrorView};
use crate::text::{
    chars_of, range_equals, ranges_hold, split_on, split_ranges, string_of, trim, trim_range,
    trim_each, views, word_ranges, words,
};

verus! {

/// A command of the quote server's TCP protocol.
#[derive(Debug)]
pub enum Command {
    HelpCommand,
    UdpSendCommand { tickets: Vec<String>, stream_addr: String },
}

/// What a `Command` asks for.
pub enum CommandView {
    Help,
    UdpSend { tickets: Seq<Seq<char>>, stream_addr: Seq<char> },
}

impl View for Command {
    type V = CommandView;

    open spec fn view(&self) -> CommandView {
        match self {
            Command::HelpCommand => CommandView::Help,
            Command::UdpSendCommand { tickets, stream_addr } => CommandView::UdpSend {
                tickets: views(tickets@),
                stream_addr: stream_addr@,
            },
        }
    }
}

/// The spellings of the help command.
pub open spec fn is_help_word(w: Seq<char>) -> bool {
    ||| w == "HELP"@
    ||| w == "-H"@
    ||| w == "-h"@
    ||| w == "help"@
    ||| w == "--help"@
}

/// `s` without the prefix `p`, if it starts with `p` (`str::strip_prefix`).
pub open spec fn strip_prefix(s: Seq<char>, p: Seq<char>) -> Option<Seq<char>> {
    if s.len() >= p.len() && s.take(p.len() as int) == p {
        Some(s.skip(p.len() as int))
    } else {
        None
    }
}

/// The tickets of a comma separated list: its pieces, each trimmed.
pub open spec fn ticket_list(s: Seq<char>) -> Seq<Seq<char>> {
    trim_each(split_on(s, ','))
}

/// The outcome of parsing `c`, in terms of its white-space separated words:
/// the first names the command; `STREAM` takes a `udp://` address and a
/// comma separated ticket list, and further words are ignored.
pub open spec fn spec_parse(c: Seq<char>) -> Result<CommandView, ServerErrorView> {
    let w = words(c);
    if w.len() == 0 {
        Err(ServerErrorView::UnknownCommandError(
            "Unknown command! Use help or -h flag for description"@,
        ))
    } else if is_help_word(w[0]) {
        Ok(CommandView::Help)
    } else if w[0] == "STREAM"@ {
        if w.len() >= 3 {
            match strip_prefix(w[1], "udp://"@) {
                Some(addr) => Ok(CommandView::UdpSend { tickets: ticket_list(w[2]), stream_addr: addr }),
                None => Err(ServerErrorView::UDPAddrParsingError("Invalid UDP address format"@)),
            }
        } else if w.len() == 2 {
            Err(ServerErrorView::UDPTicketParsingError("Ticket is not provided"@))
        } else {
            Err(ServerErrorView::UDPAddrParsingError("Address and ticket are not provided"@))
        }
    } else {
        Err(ServerErrorView::UnknownCommandError(
            "Unknown command! Use help or -h flag for description"@,
        ))
    }
}

/// The view of a parse result.
pub open spec fn parse_result_view(r: Result<Command, ServerError>) -> Result<CommandView, ServerErrorView> {
    match r {
        Ok(c) => Ok(c@),
        Err(e) => Err(e@),
    }
}

/// An owned copy of `s`.
pub fn owned(s: &str) -> (r: String)
    ensures
        r@ == s@,
{
    let mut r = String::new();
    r.push_str(s);
    r
}

/// Where `v[lo..hi]` goes on after the prefix `p`, if it starts with `p`.
pub fn strip_prefix_range(v: &Vec<char>, lo: usize, hi: usize, p: &str) -> (r: Option<usize>)
    requires
        lo <= hi <= v.len(),
    ensures
        match strip_prefix(v@.subrange(lo as int, hi as int), p@) {
            Some(rest) => r matches Some(m) && lo <= m <= hi && v@.subrange(m as int, hi as int)
                == rest,
            None => r is None,
        },
{
    let w = chars_of(p);
    if hi - lo < w.len() {
        return None;
    }
    let m = lo + w.len();
    let same = range_equals(v, lo, m, p);
    let ghost s = v@.subrange(lo as int, hi as int);
    assert(s.take(p@.len() as int) =~= v@.subrange(lo as int, m as int));
    assert(s.skip(p@.len() as int) =~= v@.subrange(m as int, hi as int));
    if same {
        Some(m)
    } else {
        None
    }
}

impl Command {
    /// Parses one line of the protocol.
    pub fn parse(command: &str) -> (r: Result<Self, ServerError>)
        ensures
            parse_result_view(r) == spec_parse(command@),
    {
        let v = chars_of(command);
        let w = word_ranges(&v);
        let ghost ws = words(v@);
        if w.len() == 0 {
            return Err(
                ServerError::UnknownCommandError(
                    owned("Unknown command! Use help or -h flag for description"),
                ),
            );
        }
        let (a0, b0) = w[0];
        if range_equals(&v, a0, b0, "HELP") || range_equals(&v, a0, b0, "-H") || range_equals(
            &v,
            a0,
            b0,
            "-h",
        ) || range_equals(&v, a0, b0, "help") || range_equals(&v, a0, b0, "--help") {
            return Ok(Command::HelpCommand);
        }
        if !range_equals(&v, a0, b0, "STREAM") {
            return Err(
                ServerError::UnknownCommandError(
                    owned("Unknown command! Use help or -h flag for description"),
                ),
            );
        }
        if w.len() == 1 {
            return Err(
                ServerError::UDPAddrParsingError(owned("Address and ticket are not provided")),
            );
        }
        if w.len() == 2 {
            return Err(ServerError::UDPTicketParsingError(owned("Ticket is not provided")));
        }
        let (a1, b1) = w[1];
        let (a2, b2) = w[2];
        let tickets = ticket_strings(&v, a2, b2);
        match strip_prefix_range(&v, a1, b1, "udp://") {
            Some(m) => Ok(Command::UdpSendCommand { tickets, stream_addr: string_of(&v, m, b1) }),
            None => Err(ServerError::UDPAddrParsingError(owned("Invalid UDP address format"))),
        }
    }
}

/// The trimmed pieces of `v[lo..hi]` between commas.
pub fn ticket_strings(v: &Vec<char>, lo: usize, hi: usize) -> (t: Vec<String>)
    requires
        lo <= hi <= v.len(),
    ensures
        views(t@) == ticket_list(v@.subrange(lo as int, hi as int)),
{
    let pieces = split_ranges(v, lo, hi, ',');
    let ghost ps = split_on(v@.subrange(lo as int, hi as int), ',');
    let mut t: Vec<String> = Vec::new();
    let mut k: usize = 0;
    while k < pieces.len()
        invariant
            k <= pieces.len(),
            ranges_hold(v@, pieces@, ps),
            views(t@) == trim_each(ps.take(k as int)),
        decreases pieces.len() - k,
    {
        let (a, b) = pieces[k];
        assert(v@.subrange(a as int, b as int) == ps[k as int]);
        let (c, d) = trim_range(v, a, b);
        let s = string_of(v, c, d);
        assert(s@ == trim(ps[k as int]));
        let ghost before = t@;
        assert(views(before).len() == before.len());
        assert(ps.take(k as int).len() == k);
        assert(before.len() == k);
        t.push(s);
        assert(t@ =~= before.push(s));
        assert forall|i: int| 0 <= i < k + 1 implies #[trigger] views(t@)[i] == trim_each(
            ps.take(k + 1),
        )[i] by {
            if i < k {
                assert(views(before)[i] == trim_each(ps.take(k as int))[i]);
            }
        }
        assert(views(t@) =~= trim_each(ps.take(k + 1)));
        k += 1;
    }
    assert(ps.take(pieces.len() as int) =~= ps);
    t
}

} // verus!
