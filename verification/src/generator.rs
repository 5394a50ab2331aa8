//! The quote book: one quote per ticker, loaded from a ticker list and
//! changed at random, one quote at a time.

use vstd::prelude::*;

use crate::quote::{QuoteView, StockQuote};
use crate::text::{chars_of, range_equals, string_of, trim, trim_range, trim_str, views};

verus! {

/// `rand::random_range` on the range `low..high`: a value drawn at random
/// from it. Its contract claims that the value lies in the range; `low < high`
/// is required because the function panics on an empty range.
#[verifier::external_body]
fn random_in(low: usize, high: usize) -> (r: usize)
    requires
        low < high,
    ensures
        low <= r < high,
{
    rand::random_range(low..high)
}

/// The tickers that trade in large volumes.
pub open spec fn is_major(ticker: Seq<char>) -> bool {
    ||| ticker == "AAPL"@
    ||| ticker == "MSFT"@
    ||| ticker == "TSLA"@
}

/// The volumes a quote of `ticker` is given: 1000 to 5999 for the major
/// tickers, 100 to 1099 for the others.
pub open spec fn volume_in_range(ticker: Seq<char>, volume: u32) -> bool {
    if is_major(ticker) {
        1000 <= volume < 6000
    } else {
        100 <= volume < 1100
    }
}

/// Whether no ticker occurs twice.
pub open spec fn distinct_tickers(q: Seq<QuoteView>) -> bool {
    forall|i: int, j: int|
        0 <= i < q.len() && 0 <= j < q.len() && i != j ==> (#[trigger] q[i]).ticker != (
        #[trigger] q[j]).ticker
}

/// Whether `ticker` has a quote in `q`.
pub open spec fn has_ticker(q: Seq<QuoteView>, ticker: Seq<char>) -> bool {
    exists|i: int| 0 <= i < q.len() && (#[trigger] q[i]).ticker == ticker
}

/// Whether `ticker` is the trimmed text of one of `lines`, and not empty.
pub open spec fn listed(lines: Seq<Seq<char>>, ticker: Seq<char>) -> bool {
    ticker.len() > 0 && exists|i: int| 0 <= i < lines.len() && trim(#[trigger] lines[i]) == ticker
}

/// Whether line `i` is the first of `lines` whose trimmed text is `ticker`.
pub open spec fn first_listing(lines: Seq<Seq<char>>, i: int, ticker: Seq<char>) -> bool {
    &&& 0 <= i < lines.len()
    &&& trim(lines[i]) == ticker
    &&& forall|k: int| 0 <= k < i ==> trim(#[trigger] lines[k]) != ticker
}

/// Whether `q` is the quote that loading `lines` gives to a ticker not in
/// `before`: the first line that lists it supplies its price and timestamp,
/// and its volume is in range.
pub open spec fn loaded_quote(
    before: Seq<QuoteView>,
    lines: Seq<Seq<char>>,
    prices: Seq<u64>,
    timestamps: Seq<u64>,
    q: QuoteView,
) -> bool {
    &&& !has_ticker(before, q.ticker)
    &&& volume_in_range(q.ticker, q.volume)
    &&& exists|i: int|
        first_listing(lines, i, q.ticker) && q.price_bits == prices[i] && q.timestamp
            == #[trigger] timestamps[i]
}

/// `q` with a new volume.
pub open spec fn with_volume(q: QuoteView, volume: u32) -> QuoteView {
    QuoteView { volume, ..q }
}

/// `q` with a new price.
pub open spec fn with_price(q: QuoteView, price_bits: u64) -> QuoteView {
    QuoteView { price_bits, ..q }
}

/// The least volume a quote of `ticker` is given.
pub open spec fn volume_base(ticker: Seq<char>) -> u32 {
    if is_major(ticker) {
        1000
    } else {
        100
    }
}

/// How many volumes, counting up from the base, a quote of `ticker` may be given.
pub open spec fn volume_span(ticker: Seq<char>) -> u32 {
    if is_major(ticker) {
        5000
    } else {
        1000
    }
}

/// The base and the span of the volumes of `ticker`.
pub fn volume_base_and_span(ticker: &str) -> (r: (u32, u32))
    ensures
        r == (volume_base(ticker@), volume_span(ticker@)),
{
    let c = chars_of(ticker);
    let n = c.len();
    assert(c@.subrange(0, n as int) =~= c@);
    if range_equals(&c, 0, n, "AAPL") || range_equals(&c, 0, n, "MSFT") || range_equals(
        &c,
        0,
        n,
        "TSLA",
    ) {
        (1000, 5000)
    } else {
        (100, 1000)
    }
}

/// The volume `offset` above the base of `ticker`.
pub fn volume_for(ticker: &str, offset: u32) -> (v: u32)
    requires
        offset < volume_span(ticker@),
    ensures
        v == volume_base(ticker@) + offset,
        volume_in_range(ticker@, v),
{
    let (base, _) = volume_base_and_span(ticker);
    base + offset
}

/// A random volume for a quote of `ticker`: its base plus an offset drawn
/// from its span.
pub fn draw_volume(ticker: &str) -> (v: u32)
    ensures
        volume_in_range(ticker@, v),
{
    let (_, span) = volume_base_and_span(ticker);
    let offset = random_in(0, span as usize) as u32;
    volume_for(ticker, offset)
}

/// The quotes of the traded tickers, in the order their tickers came.
///
/// They are held in a `Vec` whose tickers are distinct, rather than in a
/// map keyed by ticker: `generate` draws the quote at a random position, and
/// vstd's `StringHashMap` offers neither positions nor iteration.
pub struct QuoteGenerator {
    quotes: Vec<StockQuote>,
}

impl View for QuoteGenerator {
    type V = Seq<QuoteView>;

    closed spec fn view(&self) -> Seq<QuoteView> {
        self.quotes@.map_values(|q: StockQuote| q@)
    }
}

impl QuoteGenerator {
    /// Every ticker has one quote.
    pub open spec fn wf(&self) -> bool {
        distinct_tickers(self@)
    }

    /// A generator without quotes.
    pub fn new() -> (g: Self)
        ensures
            g.wf(),
            g@ == Seq::<QuoteView>::empty(),
    {
        let g = QuoteGenerator { quotes: Vec::new() };
        assert(g@ =~= Seq::<QuoteView>::empty());
        g
    }

    /// The number of quotes.
    pub fn len(&self) -> (n: usize)
        ensures
            n == self@.len(),
    {
        self.quotes.len()
    }

    /// Where `ticker` stands, if it has a quote.
    fn find(&self, ticker: &Vec<char>) -> (r: Option<usize>)
        ensures
            match r {
                Some(i) => i < self@.len() && self@[i as int].ticker == ticker@,
                None => !has_ticker(self@, ticker@),
            },
    {
        let mut i: usize = 0;
        while i < self.quotes.len()
            invariant
                i <= self.quotes.len(),
                forall|k: int| 0 <= k < i ==> (#[trigger] self@[k]).ticker != ticker@,
            decreases self.quotes.len() - i,
        {
            let t = chars_of(self.quotes[i].ticker.as_str());
            assert(self@[i as int] == self.quotes@[i as int]@);
            if t.len() == ticker.len() && same_chars(&t, ticker) {
                return Some(i);
            }
            i += 1;
        }
        None
    }

    /// The quote of `ticket`, if it has one.
    pub fn get_quote(&self, ticket: &str) -> (r: Option<StockQuote>)
        ensures
            match r {
                Some(q) => q@.ticker == ticket@ && exists|i: int|
                    0 <= i < self@.len() && self@[i] == q@,
                None => !has_ticker(self@, ticket@),
            },
    {
        let t = chars_of(ticket);
        match self.find(&t) {
            Some(i) => {
                let q = self.quotes[i].clone();
                assert(self@[i as int] == self.quotes@[i as int]@);
                Some(q)
            },
            None => None,
        }
    }

    /// Takes one line of a ticker list: the line trimmed is a ticker, and a
    /// ticker that has no quote yet gets one with the given price, volume and
    /// timestamp. Blank lines and tickers already quoted leave the generator
    /// unchanged. Returns whether a quote was added.
    pub fn insert_line(&mut self, line: &str, price_bits: u64, volume: u32, timestamp: u64) -> (added: bool)
        requires
            old(self).wf(),
        ensures
            final(self).wf(),
            added == (trim(line@).len() > 0 && !has_ticker(old(self)@, trim(line@))),
            trim(line@).len() > 0 ==> has_ticker(final(self)@, trim(line@)),
            final(self)@ == if added {
                old(self)@.push(QuoteView { ticker: trim(line@), price_bits, volume, timestamp })
            } else {
                old(self)@
            },
    {
        let c = chars_of(line);
        let (a, b) = trim_range(&c, 0, c.len());
        assert(c@.subrange(0, c.len() as int) =~= c@);
        if a == b {
            return false;
        }
        let ticker_chars = slice_copy(&c, a, b);
        if self.find(&ticker_chars).is_some() {
            return false;
        }
        let ticker = string_of(&c, a, b);
        let ghost before = self@;
        self.quotes.push(StockQuote { ticker, price_bits, volume, timestamp });
        assert(self@ =~= before.push(
            QuoteView { ticker: trim(line@), price_bits, volume, timestamp },
        ));
        assert(self@[before.len() as int].ticker == trim(line@));
        true
    }

    /// Takes one line of a ticker list, as `insert_line` does, with a random
    /// volume for the new quote.
    pub fn add_ticker_line(&mut self, line: &str, price_bits: u64, timestamp: u64) -> (added: bool)
        requires
            old(self).wf(),
        ensures
            final(self).wf(),
            added == (trim(line@).len() > 0 && !has_ticker(old(self)@, trim(line@))),
            trim(line@).len() > 0 ==> has_ticker(final(self)@, trim(line@)),
            !added ==> final(self)@ == old(self)@,
            added ==> exists|v: u32|
                volume_in_range(trim(line@), v) && final(self)@ == old(self)@.push(
                    QuoteView { ticker: trim(line@), price_bits, volume: v, timestamp },
                ),
    {
        let ticker = trim_str(line);
        let volume = draw_volume(ticker.as_str());
        self.insert_line(line, price_bits, volume, timestamp)
    }

    /// Takes every line of a ticker list in order, as `add_ticker_line`
    /// does, line `i` with price `prices[i]` and timestamp `timestamps[i]`.
    /// Afterwards the tickers quoted are those quoted before and those listed;
    /// the quotes there were stay, and each new one comes from the first line
    /// that lists its ticker.
    pub fn add_ticker_lines(&mut self, lines: &Vec<String>, prices: &Vec<u64>, timestamps: &Vec<u64>)
        requires
            old(self).wf(),
            prices.len() == lines.len(),
            timestamps.len() == lines.len(),
        ensures
            final(self).wf(),
            old(self)@.len() <= final(self)@.len(),
            forall|j: int| 0 <= j < old(self)@.len() ==> #[trigger] final(self)@[j] == old(self)@[j],
            forall|t: Seq<char>|
                #[trigger] has_ticker(final(self)@, t) == (has_ticker(old(self)@, t) || listed(
                    views(lines@),
                    t,
                )),
            forall|j: int|
                old(self)@.len() <= j < final(self)@.len() ==> loaded_quote(
                    old(self)@,
                    views(lines@),
                    prices@,
                    timestamps@,
                    #[trigger] final(self)@[j],
                ),
    {
        let ghost start = self@;
        let ghost ls = views(lines@);
        let mut n: usize = 0;
        while n < lines.len()
            invariant
                n <= lines.len(),
                prices.len() == lines.len(),
                timestamps.len() == lines.len(),
                ls == views(lines@),
                self.wf(),
                start.len() <= self@.len(),
                forall|j: int| 0 <= j < start.len() ==> #[trigger] self@[j] == start[j],
                forall|t: Seq<char>|
                    #[trigger] has_ticker(self@, t) == (has_ticker(start, t) || listed(
                        ls.take(n as int),
                        t,
                    )),
                forall|j: int|
                    start.len() <= j < self@.len() ==> loaded_quote(
                        start,
                        ls,
                        prices@,
                        timestamps@,
                        #[trigger] self@[j],
                    ),
            decreases lines.len() - n,
        {
            let ghost before = self@;
            let ghost t = trim(ls[n as int]);
            assert(ls[n as int] == lines@[n as int]@);
            let added = self.add_ticker_line(lines[n].as_str(), prices[n], timestamps[n]);
            let ghost after = self@;
            assert(ls.take(n + 1) =~= ls.take(n as int).push(ls[n as int]));
            assert forall|u: Seq<char>| #[trigger] has_ticker(after, u) == (has_ticker(start, u)
                || listed(ls.take(n + 1), u)) by {
                if u == t && t.len() > 0 {
                    assert(trim(ls.take(n + 1)[n as int]) == u);
                } else {
                    if has_ticker(after, u) {
                        let j = choose|j: int| 0 <= j < after.len() && (#[trigger] after[j]).ticker == u;
                        if j < before.len() {
                            assert(before[j].ticker == u);
                        }
                    }
                    if has_ticker(before, u) {
                        let j = choose|j: int| 0 <= j < before.len() && (#[trigger] before[j]).ticker == u;
                        assert(after[j].ticker == u);
                    }
                    if listed(ls.take(n + 1), u) {
                        let i = choose|i: int| 0 <= i < n + 1 && trim(#[trigger] ls.take(n + 1)[i]) == u;
                        assert(ls.take(n as int)[i] == ls.take(n + 1)[i]);
                    }
                    if listed(ls.take(n as int), u) {
                        let i = choose|i: int| 0 <= i < n && trim(#[trigger] ls.take(n as int)[i]) == u;
                        assert(ls.take(n + 1)[i] == ls.take(n as int)[i]);
                    }
                }
            }
            if added {
                let ghost q = after[before.len() as int];
                assert(q.ticker == t);
                assert forall|k: int| 0 <= k < n implies trim(#[trigger] ls[k]) != t by {
                    if trim(ls[k]) == t {
                        assert(ls.take(n as int)[k] == ls[k]);
                        assert(listed(ls.take(n as int), t));
                    }
                }
                assert(first_listing(ls, n as int, t));
                assert(loaded_quote(start, ls, prices@, timestamps@, q)) by {
                    assert(!has_ticker(start, t));
                    assert(timestamps@[n as int] == q.timestamp);
                }
            }
            assert forall|j: int| start.len() <= j < after.len() implies loaded_quote(
                start,
                ls,
                prices@,
                timestamps@,
                #[trigger] after[j],
            ) by {
                if j < before.len() {
                    assert(after[j] == before[j]);
                }
            }
            n += 1;
        }
        assert(ls.take(lines.len() as int) =~= ls);
    }

    /// Gives the quote at `i` a new volume.
    pub fn set_volume(&mut self, i: usize, volume: u32)
        requires
            old(self).wf(),
            i < old(self)@.len(),
        ensures
            final(self).wf(),
            final(self)@ == old(self)@.update(i as int, with_volume(old(self)@[i as int], volume)),
    {
        let ghost before = self@;
        assert(before[i as int] == self.quotes@[i as int]@);
        let mut q = self.quotes[i].clone();
        q.volume = volume;
        self.quotes.set(i, q);
        assert(self@ =~= before.update(i as int, with_volume(before[i as int], volume)));
    }

    /// Draws one quote at random and gives it a random volume; returns where
    /// it stands, for its price to be moved by `set_price_bits`.
    pub fn generate(&mut self) -> (i: usize)
        requires
            old(self).wf(),
            old(self)@.len() > 0,
        ensures
            final(self).wf(),
            i < old(self)@.len(),
            forall|t: Seq<char>| #[trigger] has_ticker(final(self)@, t) == has_ticker(old(self)@, t),
            exists|v: u32|
                volume_in_range(old(self)@[i as int].ticker, v) && final(self)@ == old(self)@.update(
                    i as int,
                    with_volume(old(self)@[i as int], v),
                ),
    {
        let i = random_in(0, self.quotes.len());
        let ghost before = self@;
        assert(self@[i as int] == self.quotes@[i as int]@);
        let volume = draw_volume(self.quotes[i].ticker.as_str());
        self.set_volume(i, volume);
        assert forall|t: Seq<char>| #[trigger] has_ticker(self@, t) == has_ticker(before, t) by {
            if has_ticker(self@, t) {
                let j = choose|j: int| 0 <= j < self@.len() && (#[trigger] self@[j]).ticker == t;
                assert(before[j].ticker == t);
            }
            if has_ticker(before, t) {
                let j = choose|j: int| 0 <= j < before.len() && (#[trigger] before[j]).ticker == t;
                assert(self@[j].ticker == t);
            }
        }
        i
    }

    /// The price of the quote at `i`.
    pub fn price_bits(&self, i: usize) -> (p: u64)
        requires
            i < self@.len(),
        ensures
            p == self@[i as int].price_bits,
    {
        assert(self@[i as int] == self.quotes@[i as int]@);
        self.quotes[i].price_bits
    }

    /// Gives the quote at `i` a new price.
    pub fn set_price_bits(&mut self, i: usize, price_bits: u64)
        requires
            old(self).wf(),
            i < old(self)@.len(),
        ensures
            final(self).wf(),
            final(self)@ == old(self)@.update(i as int, with_price(old(self)@[i as int], price_bits)),
    {
        let ghost before = self@;
        assert(before[i as int] == self.quotes@[i as int]@);
        let mut q = self.quotes[i].clone();
        q.price_bits = price_bits;
        self.quotes.set(i, q);
        assert(self@ =~= before.update(i as int, with_price(before[i as int], price_bits)));
    }
}

/// Whether two equally long character vectors are equal.
fn same_chars(a: &Vec<char>, b: &Vec<char>) -> (r: bool)
    requires
        a.len() == b.len(),
    ensures
        r == (a@ == b@),
{
    let mut i: usize = 0;
    while i < a.len()
        invariant
            a.len() == b.len(),
            i <= a.len(),
            forall|k: int| 0 <= k < i ==> a@[k] == b@[k],
        decreases a.len() - i,
    {
        if a[i] != b[i] {
            return false;
        }
        i += 1;
    }
    assert(a@ =~= b@);
    true
}

/// A copy of `v[lo..hi]`.
fn slice_copy(v: &Vec<char>, lo: usize, hi: usize) -> (r: Vec<char>)
    requires
        lo <= hi <= v.len(),
    ensures
        r@ == v@.subrange(lo as int, hi as int),
{
    let mut r: Vec<char> = Vec::new();
    let mut i = lo;
    while i < hi
        invariant
            lo <= i <= hi <= v.len(),
            r@ == v@.subrange(lo as int, i as int),
        decreases hi - i,
    {
        r.push(v[i]);
        assert(v@.subrange(lo as int, i + 1) =~= v@.subrange(lo as int, i as int).push(v@[i as int]));
        i += 1;
    }
    r
}

} // verus!
