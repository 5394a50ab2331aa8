//! Properties that span several functions of the library.

use vstd::prelude::*;

use crate::client::{clean_ticker, non_empty, spec_parse_tickers, stream_command};
use crate::errors::ServerErrorView;
use crate::command::{CommandView, is_help_word, spec_parse, strip_prefix, ticket_list};
use crate::generator::{volume_base, volume_in_range, volume_span};
use crate::quote::{QuoteFieldsView, quote_line, spec_quote_fields};
use crate::session::{
    ConnectionActionView, PING_TIMEOUT_NANOS, alive, is_ping, spec_handle_line, spec_on_message,
};
use crate::text::{
    decimal, is_digit, is_ws, join, lemma_decimal, lemma_join_no_ws, lemma_parse_decimal,
    lemma_split_join, lemma_trim_no_ws, lemma_words_single, lemma_words_split, no_ws, split_on,
    trim, trim_each, unsigned_part, valid_float_text, valid_mantissa, words,
};

verus! {

/// Trimming leaves trimmed pieces as they are.
proof fn lemma_trim_each_fixed(ts: Seq<Seq<char>>)
    requires
        forall|i: int| 0 <= i < ts.len() ==> trim(#[trigger] ts[i]) == ts[i],
    ensures
        trim_each(ts) == ts,
{
    assert(trim_each(ts) =~= ts);
}

/// Dropping empty pieces leaves a list without empty pieces as it is.
proof fn lemma_non_empty_fixed(ts: Seq<Seq<char>>)
    requires
        forall|i: int| 0 <= i < ts.len() ==> (#[trigger] ts[i]).len() > 0,
    ensures
        non_empty(ts) == ts,
    decreases ts.len(),
{
    if ts.len() > 0 {
        let p = ts.drop_last();
        assert forall|i: int| 0 <= i < p.len() implies (#[trigger] p[i]).len() > 0 by {
            assert(p[i] == ts[i]);
        }
        lemma_non_empty_fixed(p);
        assert(ts[ts.len() - 1].len() > 0);
        assert(p.push(ts.last()) =~= ts);
    }
}

/// A successful parse of a stream command for `tickers` and `host`.
pub open spec fn stream_request(tickers: Seq<Seq<char>>, host: Seq<char>) -> Result<CommandView, ServerErrorView> {
    Ok(CommandView::UdpSend { tickets: tickers, stream_addr: host })
}

/// The server understands the stream command that the client builds: for a
/// host and a non-empty list of tickers, none of them holding white space
/// and no ticker empty or holding a comma, the server's answer to the line
/// `STREAM udp://<host> <tickers joined by commas>` is to stream exactly those
/// tickers to that host.
pub proof fn law_server_accepts_client_command(host: Seq<char>, tickers: Seq<Seq<char>>)
    requires
        no_ws(host),
        tickers.len() >= 1,
        forall|i: int|
            0 <= i < tickers.len() ==> (#[trigger] tickers[i]).len() > 0 && no_ws(tickers[i])
                && !tickers[i].contains(','),
    ensures
        spec_parse(stream_command("udp://"@ + host, tickers)) == stream_request(tickers, host),
        spec_handle_line(stream_command("udp://"@ + host, tickers)) == (ConnectionActionView::Stream {
            tickets: tickers,
            stream_addr: host,
            reply: "Streaming started"@,
        }),
{
    reveal_strlit("STREAM");
    reveal_strlit("udp://");
    reveal_strlit("HELP");
    reveal_strlit("-H");
    reveal_strlit("-h");
    reveal_strlit("help");
    reveal_strlit("--help");
    let s = "STREAM"@;
    let a = "udp://"@ + host;
    let j = join(tickers, seq![',']);
    assert(no_ws(s));
    assert(no_ws(a)) by {
        assert forall|i: int| 0 <= i < a.len() implies !is_ws(#[trigger] a[i]) by {
            if i >= 6 {
                assert(a[i] == host[i - 6]);
            }
        }
    }
    assert(no_ws(seq![','])) by {
        assert(seq![','][0] == ',');
    }
    assert forall|i: int| 0 <= i < tickers.len() implies no_ws(#[trigger] tickers[i]) by {}
    lemma_join_no_ws(tickers, seq![',']);
    // the joined list ends with the last ticker, so it is not empty
    assert(j.len() > 0) by {
        assert(tickers[tickers.len() - 1].len() > 0);
        if tickers.len() >= 2 {
            assert(j == join(tickers.drop_last(), seq![',']) + seq![','] + tickers.last());
        }
    }
    let line = stream_command(a, tickers);
    assert(line =~= s.push(' ') + (a.push(' ') + j));
    lemma_words_split(s, ' ', a.push(' ') + j);
    lemma_words_split(a, ' ', j);
    lemma_words_single(s);
    lemma_words_single(a);
    lemma_words_single(j);
    let w = words(line);
    assert(w =~= seq![s, a, j]);
    assert(strip_prefix(a, "udp://"@) == Some(host)) by {
        assert(a.take(6) =~= "udp://"@);
        assert(a.skip(6) =~= host);
    }
    lemma_split_join(tickers, ',');
    assert forall|i: int| 0 <= i < tickers.len() implies trim(#[trigger] tickers[i])
        == tickers[i] by {
        lemma_trim_no_ws(tickers[i]);
    }
    lemma_trim_each_fixed(tickers);
    assert(ticket_list(j) == tickers);
    // the line has no white space at either end
    assert(trim(line) == line) by {
        assert(line[0] == 'S');
        assert(line.last() == j.last());
        assert(!is_ws(j[j.len() - 1]));
    }
}

/// Reading back a joined ticker list gives the tickers, when each is
/// non-empty, trimmed and free of commas, as `parse_tickers` gives them.
pub proof fn law_ticker_list_round_trip(tickers: Seq<Seq<char>>)
    requires
        forall|i: int| 0 <= i < tickers.len() ==> clean_ticker(#[trigger] tickers[i]),
    ensures
        spec_parse_tickers(join(tickers, seq![','])) == tickers,
{
    if tickers.len() == 0 {
        assert(split_on(Seq::<char>::empty(), ',') == seq![Seq::<char>::empty()]);
        assert(trim(Seq::<char>::empty()) == Seq::<char>::empty());
        assert(trim_each(seq![Seq::<char>::empty()]) =~= seq![Seq::<char>::empty()]);
        assert(non_empty(seq![Seq::<char>::empty()]) =~= non_empty(
            seq![Seq::<char>::empty()].drop_last(),
        ));
        assert(seq![Seq::<char>::empty()].drop_last() =~= Seq::<Seq<char>>::empty());
        assert(join(tickers, seq![',']) =~= Seq::<char>::empty());
    } else {
        lemma_split_join(tickers, ',');
        lemma_trim_each_fixed(tickers);
        lemma_non_empty_fixed(tickers);
    }
}

/// Reading back a quote line gives its fields, when neither the ticker nor
/// the price text holds a `|` and the price text is a number.
pub proof fn law_quote_line_round_trip(ticker: Seq<char>, price_text: Seq<char>, volume: u32, timestamp: u64)
    requires
        !ticker.contains('|'),
        !price_text.contains('|'),
        valid_float_text(price_text),
    ensures
        spec_quote_fields(quote_line(ticker, price_text, volume, timestamp)) == Some(
            (QuoteFieldsView { ticker, price_text, volume, timestamp }),
        ),
{
    let dv = decimal(volume as nat);
    let dt = decimal(timestamp as nat);
    let parts = seq![ticker, price_text, dv, dt];
    lemma_decimal(volume as nat);
    lemma_decimal(timestamp as nat);
    assert(!dv.contains('|')) by {
        if dv.contains('|') {
            let k = choose|k: int| 0 <= k < dv.len() && dv[k] == '|';
            assert(is_digit(dv[k]));
        }
    }
    assert(!dt.contains('|')) by {
        if dt.contains('|') {
            let k = choose|k: int| 0 <= k < dt.len() && dt[k] == '|';
            assert(is_digit(dt[k]));
        }
    }
    assert(join(parts, seq!['|']) =~= quote_line(ticker, price_text, volume, timestamp)) by {
        let p1 = seq![ticker];
        let p2 = seq![ticker, price_text];
        let p3 = seq![ticker, price_text, dv];
        assert(p2.drop_last() =~= p1);
        assert(p3.drop_last() =~= p2);
        assert(parts.drop_last() =~= p3);
        assert(join(p1, seq!['|']) == ticker);
        assert(join(p2, seq!['|']) == ticker + seq!['|'] + price_text);
        assert(join(p3, seq!['|']) == ticker + seq!['|'] + price_text + seq!['|'] + dv);
    }
    assert forall|i: int| 0 <= i < parts.len() implies !(#[trigger] parts[i]).contains('|') by {}
    lemma_split_join(parts, '|');
    lemma_parse_decimal(volume as nat, u32::MAX as nat);
    lemma_parse_decimal(timestamp as nat, u64::MAX as nat);
}

/// The registry after messages `msgs`, each a text, its sender and the time
/// it arrived, taken in order.
pub open spec fn after_messages(reg: Map<Seq<char>, u64>, msgs: Seq<(Seq<char>, Seq<char>, u64)>) -> Map<Seq<char>, u64>
    decreases msgs.len(),
{
    if msgs.len() == 0 {
        reg
    } else {
        let m = msgs.last();
        spec_on_message(after_messages(reg, msgs.drop_last()), m.0, m.1, m.2).1
    }
}

/// Pings keep a stream alive: after a ping from `addr` at `t`, the client is
/// alive at every time from `t` to the end of the timeout.
pub proof fn law_ping_keeps_stream_alive(
    reg: Map<Seq<char>, u64>,
    text: Seq<char>,
    addr: Seq<char>,
    t: u64,
    now: u64,
)
    requires
        is_ping(text),
        t <= now <= t + PING_TIMEOUT_NANOS,
    ensures
        alive(spec_on_message(reg, text, addr, t).1, addr, now),
{
}

/// The stream stops when pings stop: if `addr` was last heard from at `t0`
/// (or not at all) and no later message is a ping from it, whatever else
/// arrives, it is no longer alive at any time after `t0` plus the timeout.
pub proof fn law_stream_stops_when_pings_stop(
    reg: Map<Seq<char>, u64>,
    addr: Seq<char>,
    t0: u64,
    msgs: Seq<(Seq<char>, Seq<char>, u64)>,
    now: u64,
)
    requires
        reg.contains_key(addr) ==> reg[addr] == t0,
        forall|i: int| 0 <= i < msgs.len() ==> !((#[trigger] msgs[i]).1 == addr && is_ping(msgs[i].0)),
        now > t0 + PING_TIMEOUT_NANOS,
    ensures
        !alive(after_messages(reg, msgs), addr, now),
{
    lemma_last_heard_kept(reg, addr, t0, msgs);
}

/// Messages that are not pings from `addr` never move the time `addr` was
/// last heard from.
proof fn lemma_last_heard_kept(
    reg: Map<Seq<char>, u64>,
    addr: Seq<char>,
    t0: u64,
    msgs: Seq<(Seq<char>, Seq<char>, u64)>,
)
    requires
        reg.contains_key(addr) ==> reg[addr] == t0,
        forall|i: int| 0 <= i < msgs.len() ==> !((#[trigger] msgs[i]).1 == addr && is_ping(msgs[i].0)),
    ensures
        after_messages(reg, msgs).contains_key(addr) ==> after_messages(reg, msgs)[addr] == t0,
    decreases msgs.len(),
{
    if msgs.len() > 0 {
        let p = msgs.drop_last();
        assert forall|i: int| 0 <= i < p.len() implies !((#[trigger] p[i]).1 == addr && is_ping(
            p[i].0,
        )) by {
            assert(p[i] == msgs[i]);
        }
        lemma_last_heard_kept(reg, addr, t0, p);
        assert(msgs[msgs.len() - 1] == msgs.last());
    }
}

/// A message changes the entry of its sender only: every other address is
/// kept alive exactly as before. A ping sets its sender's time to the time it
/// arrived.
pub proof fn law_message_touches_only_its_sender(
    reg: Map<Seq<char>, u64>,
    text: Seq<char>,
    addr: Seq<char>,
    now: u64,
    other: Seq<char>,
)
    requires
        other != addr,
    ensures
        spec_on_message(reg, text, addr, now).1.contains_key(other) == reg.contains_key(other),
        reg.contains_key(other) ==> spec_on_message(reg, text, addr, now).1[other] == reg[other],
        forall|t: u64| alive(spec_on_message(reg, text, addr, now).1, other, t) == alive(reg, other, t),
        is_ping(text) ==> spec_on_message(reg, text, addr, now).1.contains_key(addr)
            && spec_on_message(reg, text, addr, now).1[addr] == now,
{
}

/// Any decimal number written with digits and at most one `.`, and at least
/// one digit, is a valid price text, however long it is.
pub proof fn law_decimal_price_text_is_valid(d: Seq<char>)
    requires
        forall|i: int| 0 <= i < d.len() ==> is_digit(#[trigger] d[i]) || d[i] == '.',
        forall|i: int, j: int|
            0 <= i < d.len() && 0 <= j < d.len() && #[trigger] d[i] == '.' && #[trigger] d[j] == '.'
                ==> i == j,
        exists|i: int| 0 <= i < d.len() && is_digit(#[trigger] d[i]),
    ensures
        valid_float_text(d),
{
    let k = choose|i: int| 0 <= i < d.len() && is_digit(#[trigger] d[i]);
    assert(d.len() > 0);
    assert(is_digit(d[0]) || d[0] == '.');
    assert(unsigned_part(d) == d);
    assert(valid_mantissa(d));
}

/// A quote line whose price is such a decimal number reads back to its
/// fields, whatever the length of the price.
pub proof fn law_decimal_price_line_round_trip(ticker: Seq<char>, d: Seq<char>, volume: u32, timestamp: u64)
    requires
        !ticker.contains('|'),
        forall|i: int| 0 <= i < d.len() ==> is_digit(#[trigger] d[i]) || d[i] == '.',
        forall|i: int, j: int|
            0 <= i < d.len() && 0 <= j < d.len() && #[trigger] d[i] == '.' && #[trigger] d[j] == '.'
                ==> i == j,
        exists|i: int| 0 <= i < d.len() && is_digit(#[trigger] d[i]),
    ensures
        spec_quote_fields(quote_line(ticker, d, volume, timestamp)) == Some(
            (QuoteFieldsView { ticker, price_text: d, volume, timestamp }),
        ),
{
    law_decimal_price_text_is_valid(d);
    assert(!d.contains('|')) by {
        if d.contains('|') {
            let k = choose|k: int| 0 <= k < d.len() && d[k] == '|';
            assert(is_digit(d[k]) || d[k] == '.');
        }
    }
    law_quote_line_round_trip(ticker, d, volume, timestamp);
}

/// Only AAPL, MSFT and TSLA trade in large volumes: every other ticker gets
/// a volume from 100 to 1099, and those three from 1000 to 5999.
pub proof fn law_volume_classes(ticker: Seq<char>, volume: u32)
    ensures
        ticker != "AAPL"@ && ticker != "MSFT"@ && ticker != "TSLA"@ ==> volume_base(ticker) == 100
            && volume_span(ticker) == 1000 && (volume_in_range(ticker, volume) <==> 100 <= volume
            < 1100),
        ticker == "AAPL"@ || ticker == "MSFT"@ || ticker == "TSLA"@ ==> volume_base(ticker)
            == 1000 && volume_span(ticker) == 5000 && (volume_in_range(ticker, volume) <==> 1000
            <= volume < 6000),
{
}

/// Every help command is answered with the usage text: streaming is asked
/// for with `STREAM udp://{host}:{port}` and a comma separated ticker list.
pub proof fn law_help_reply(line: Seq<char>)
    requires
        words(trim(line)).len() > 0,
        is_help_word(words(trim(line))[0]),
    ensures
        spec_handle_line(line) == ConnectionActionView::Reply(
            "To start streaming write STREAM udp://{host}:{port} {comma separated tickets}\nExample: STREAM udp://127.0.0.1:34562 AAPL,MSFT\n\nSend UDP PING packets from the client to keep the stream alive. The stream stops when pings stop."@,
        ),
{
    if trim(line).len() == 0 {
        assert(trim(line) =~= Seq::<char>::empty());
    }
}

/// The example in the usage text is a command the server accepts, and it
/// streams the two tickers of its comma separated list.
pub proof fn law_help_example_is_accepted()
    ensures
        spec_parse("STREAM udp://127.0.0.1:34562 AAPL,MSFT"@) == stream_request(
            seq!["AAPL"@, "MSFT"@],
            "127.0.0.1:34562"@,
        ),
{
    reveal_strlit("STREAM udp://127.0.0.1:34562 AAPL,MSFT");
    reveal_strlit("STREAM");
    reveal_strlit("udp://");
    reveal_strlit("127.0.0.1:34562");
    reveal_strlit("AAPL");
    reveal_strlit("MSFT");
    let host = "127.0.0.1:34562"@;
    let ts = seq!["AAPL"@, "MSFT"@];
    assert(ts.drop_last() =~= seq!["AAPL"@]);
    assert(join(seq!["AAPL"@], seq![',']) == "AAPL"@);
    assert(join(ts, seq![',']) == "AAPL"@ + seq![','] + "MSFT"@);
    assert(stream_command("udp://"@ + host, ts) =~= "STREAM udp://127.0.0.1:34562 AAPL,MSFT"@);
    assert(no_ws(host));
    assert forall|i: int| 0 <= i < ts.len() implies (#[trigger] ts[i]).len() > 0 && no_ws(ts[i])
        && !ts[i].contains(',') by {
        if i == 0 {
            assert(ts[i] == "AAPL"@);
        } else {
            assert(ts[i] == "MSFT"@);
        }
    }
    law_server_accepts_client_command(host, ts);
}

} // verus!
