//! The client side of the protocol: the ticker list the user gives and the
//! stream command sent to the server.

use vstd::prelude::*;

use crate::session::{decode_lossy, utf8_lossy};
use crate::text::{trim_end, trim_end_range, lemma_trim_edges, chars_of, join, split_on, split_ranges, string_of, trim, trim_each, trim_range, views, ranges_hold};

verus! {

/// The non-empty entries of a ticker list.
pub open spec fn non_empty(s: Seq<Seq<char>>) -> Seq<Seq<char>>
    decreases s.len(),
{
    if s.len() == 0 {
        s
    } else if s.last().len() > 0 {
        non_empty(s.drop_last()).push(s.last())
    } else {
        non_empty(s.drop_last())
    }
}

/// A ticker as `parse_tickers` gives them: not empty, its own trim, and
/// without commas.
pub open spec fn clean_ticker(t: Seq<char>) -> bool {
    t.len() > 0 && trim(t) == t && !t.contains(',')
}

/// The tickers of a comma separated list, trimmed, empty entries left out.
pub open spec fn spec_parse_tickers(s: Seq<char>) -> Seq<Seq<char>> {
    non_empty(trim_each(split_on(s, ',')))
}

/// The stream command that asks the server to send `tickers` to `local_udp_addr`.
pub open spec fn stream_command(local_udp_addr: Seq<char>, tickers: Seq<Seq<char>>) -> Seq<char> {
    "STREAM"@ + seq![' '] + local_udp_addr + seq![' '] + join(tickers, seq![','])
}

/// Splits a comma separated ticker list into trimmed, non-empty tickers.
pub fn parse_tickers(tickers: &str) -> (r: Vec<String>)
    ensures
        views(r@) == spec_parse_tickers(tickers@),
        forall|i: int| 0 <= i < r.len() ==> clean_ticker(#[trigger] r@[i]@),
{
    let v = chars_of(tickers);
    let pieces = split_ranges(&v, 0, v.len(), ',');
    assert(v@.subrange(0, v.len() as int) =~= v@);
    let ghost ps = split_on(v@, ',');
    let mut r: Vec<String> = Vec::new();
    let mut k: usize = 0;
    while k < pieces.len()
        invariant
            k <= pieces.len(),
            ranges_hold(v@, pieces@, ps),
            views(r@) == non_empty(trim_each(ps).take(k as int)),
            forall|i: int| 0 <= i < r.len() ==> clean_ticker(#[trigger] r@[i]@),
            forall|m: int, j: int|
                0 <= m < pieces.len() && (#[trigger] pieces@[m]).0 <= j < pieces@[m].1
                    ==> #[trigger] v@[j] != ',',
        decreases pieces.len() - k,
    {
        let (a, b) = pieces[k];
        assert(v@.subrange(a as int, b as int) == ps[k as int]);
        let (c, d) = trim_range(&v, a, b);
        let ghost te = trim_each(ps);
        assert(te.take(k + 1).drop_last() =~= te.take(k as int));
        assert(te.take(k + 1).last() == te[k as int]);
        assert(te[k as int] == trim(ps[k as int]));
        if c < d {
            let s = string_of(&v, c, d);
            proof {
                lemma_trim_edges(s@);
                assert(!s@.contains(',')) by {
                    if s@.contains(',') {
                        let j = choose|j: int| 0 <= j < s@.len() && s@[j] == ',';
                        assert(s@[j] == v@[c + j]);
                        assert(pieces@[k as int].0 <= c + j < pieces@[k as int].1);
                    }
                }
            }
            let ghost before = r@;
            r.push(s);
            assert(views(r@) =~= views(before).push(s@));
        }
        k += 1;
    }
    assert(trim_each(ps).take(pieces.len() as int) =~= trim_each(ps));
    r
}

/// The stream command for `local_udp_addr` and `tickers`:
/// `STREAM <address> <ticker>,<ticker>,...`.
pub fn build_stream_command(local_udp_addr: &str, tickers: &[String]) -> (r: String)
    ensures
        r@ == stream_command(local_udp_addr@, views(tickers@)),
{
    let mut r = String::new();
    r.push_str("STREAM");
    r.push(' ');
    r.push_str(local_udp_addr);
    r.push(' ');
    let ghost head = r@;
    let ghost ts = views(tickers@);
    let mut i: usize = 0;
    while i < tickers.len()
        invariant
            i <= tickers.len(),
            ts == views(tickers@),
            r@ == head + join(ts.take(i as int), seq![',']),
        decreases tickers.len() - i,
    {
        let ghost before = r@;
        assert(ts.take(i + 1).drop_last() =~= ts.take(i as int));
        if i > 0 {
            r.push(',');
        }
        r.push_str(tickers[i].as_str());
        proof {
            if i == 0 {
                assert(join(ts.take(0), seq![',']) =~= Seq::<char>::empty());
            }
            assert(r@ =~= head + join(ts.take(i + 1), seq![',']));
        }
        i += 1;
    }
    assert(ts.take(tickers.len() as int) =~= ts);
    r
}

/// The tickers of a comma separated list, or the error the client reports
/// when there are none.
pub fn require_tickers(tickers: &str) -> (r: Result<Vec<String>, String>)
    ensures
        match r {
            Ok(v) => views(v@) == spec_parse_tickers(tickers@) && v.len() > 0,
            Err(m) => spec_parse_tickers(tickers@).len() == 0 && m@ == "Tickers list is empty"@,
        },
{
    let v = parse_tickers(tickers);
    if v.len() == 0 {
        let mut m = String::new();
        m.push_str("Tickers list is empty");
        Err(m)
    } else {
        Ok(v)
    }
}

/// The line the client prints for a datagram from `src_addr` whose text is
/// `text`: the address in brackets, a space, and the text without trailing
/// white space.
pub fn received_line_text(src_addr: &str, text: &str) -> (r: String)
    ensures
        r@ == seq!['['] + src_addr@ + seq![']', ' '] + trim_end(text@),
{
    let c = chars_of(text);
    let e = trim_end_range(&c, 0, c.len());
    assert(c@.subrange(0, c.len() as int) =~= c@);
    let mut r = String::new();
    r.push('[');
    r.push_str(src_addr);
    r.push(']');
    r.push(' ');
    let t = string_of(&c, 0, e);
    r.push_str(t.as_str());
    assert(r@ =~= seq!['['] + src_addr@ + seq![']', ' '] + trim_end(text@));
    r
}

/// The line the client prints for a datagram from `src_addr` with bytes
/// `payload`, decoded as UTF-8 with invalid sequences replaced.
pub fn received_line(src_addr: &str, payload: &[u8]) -> (r: String)
    ensures
        r@ == seq!['['] + src_addr@ + seq![']', ' '] + trim_end(utf8_lossy(payload@)),
{
    let text = decode_lossy(payload);
    received_line_text(src_addr, text.as_str())
}

} // verus!
