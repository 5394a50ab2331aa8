//! Stock quotes and their wire format `ticker|price|volume|timestamp`.
//!
//! The price is a binary floating-point number. The library carries it
//! through as its 64-bit pattern and checks the syntax of its text; turning
//! the number into text and text into the number is left to the caller.

use vstd::prelude::*;
use vstd::utf8::encode_utf8;

use crate::text::{float_text_range, valid_float_text, chars_of, decimal, parse_unsigned, parse_unsigned_range, push_decimal, split_on, split_ranges, string_of, ranges_hold};

verus! {

/// The quote of one ticker.
#[derive(Debug)]
pub struct StockQuote {
    pub ticker: String,
    /// The bit pattern of the binary64 price.
    pub price_bits: u64,
    pub volume: u32,
    /// Milliseconds since the Unix epoch.
    pub timestamp: u64,
}

/// What a `StockQuote` holds.
pub struct QuoteView {
    pub ticker: Seq<char>,
    pub price_bits: u64,
    pub volume: u32,
    pub timestamp: u64,
}

impl View for StockQuote {
    type V = QuoteView;

    open spec fn view(&self) -> QuoteView {
        QuoteView {
            ticker: self.ticker@,
            price_bits: self.price_bits,
            volume: self.volume,
            timestamp: self.timestamp,
        }
    }
}

impl Clone for StockQuote {
    fn clone(&self) -> (r: Self)
        ensures
            r@ == self@,
    {
        StockQuote {
            ticker: self.ticker.clone(),
            price_bits: self.price_bits,
            volume: self.volume,
            timestamp: self.timestamp,
        }
    }
}

/// The fields of a quote line, the price still as text.
#[derive(Debug)]
pub struct QuoteFields {
    pub ticker: String,
    pub price_text: String,
    pub volume: u32,
    pub timestamp: u64,
}

/// What a `QuoteFields` holds.
pub struct QuoteFieldsView {
    pub ticker: Seq<char>,
    pub price_text: Seq<char>,
    pub volume: u32,
    pub timestamp: u64,
}

impl View for QuoteFields {
    type V = QuoteFieldsView;

    open spec fn view(&self) -> QuoteFieldsView {
        QuoteFieldsView {
            ticker: self.ticker@,
            price_text: self.price_text@,
            volume: self.volume,
            timestamp: self.timestamp,
        }
    }
}

/// The text of a quote: ticker, price, volume and timestamp separated by `|`,
/// the integers in decimal.
pub open spec fn quote_line(ticker: Seq<char>, price_text: Seq<char>, volume: u32, timestamp: u64) -> Seq<char> {
    ticker + seq!['|'] + price_text + seq!['|'] + decimal(volume as nat) + seq!['|'] + decimal(
        timestamp as nat,
    )
}

/// The fields of a quote line: exactly four `|`-separated pieces, the second
/// a number as `FromStr` reads a binary64 one, the third a `u32` and the
/// fourth a `u64` in decimal.
pub open spec fn spec_quote_fields(s: Seq<char>) -> Option<QuoteFieldsView> {
    let p = split_on(s, '|');
    if p.len() == 4 && valid_float_text(p[1]) && parse_unsigned(p[2], u32::MAX as nat) is Some && parse_unsigned(
        p[3],
        u64::MAX as nat,
    ) is Some {
        Some(
            QuoteFieldsView {
                ticker: p[0],
                price_text: p[1],
                volume: parse_unsigned(p[2], u32::MAX as nat)->0 as u32,
                timestamp: parse_unsigned(p[3], u64::MAX as nat)->0 as u64,
            },
        )
    } else {
        None
    }
}

/// The view of an optional `QuoteFields`.
pub open spec fn fields_view(r: Option<QuoteFields>) -> Option<QuoteFieldsView> {
    match r {
        Some(f) => Some(f@),
        None => None,
    }
}

impl StockQuote {
    /// The quote as text, given the text of its price.
    pub fn to_string(&self, price_text: &str) -> (s: String)
        ensures
            s@ == quote_line(self.ticker@, price_text@, self.volume, self.timestamp),
    {
        let mut s = String::new();
        s.push_str(self.ticker.as_str());
        s.push('|');
        s.push_str(price_text);
        s.push('|');
        push_decimal(&mut s, self.volume as u64);
        s.push('|');
        push_decimal(&mut s, self.timestamp);
        assert(s@ =~= quote_line(self.ticker@, price_text@, self.volume, self.timestamp));
        s
    }

    /// The quote as UTF-8 bytes, given the text of its price.
    pub fn to_bytes(&self, price_text: &str) -> (b: Vec<u8>)
        ensures
            b@ == encode_utf8(quote_line(self.ticker@, price_text@, self.volume, self.timestamp)),
    {
        let s = self.to_string(price_text);
        let bytes = s.as_str().as_bytes();
        let mut b: Vec<u8> = Vec::new();
        let mut i: usize = 0;
        while i < bytes.len()
            invariant
                i <= bytes@.len(),
                b@ == bytes@.take(i as int),
            decreases bytes@.len() - i,
        {
            b.push(bytes[i]);
            assert(bytes@.take(i + 1) =~= bytes@.take(i as int).push(bytes@[i as int]));
            i += 1;
        }
        assert(bytes@.take(bytes@.len() as int) =~= bytes@);
        b
    }

    /// Splits a quote line into its fields. The price is checked to be a
    /// number and left as text, for the caller to read its value.
    pub fn from_string(s: &str) -> (r: Option<QuoteFields>)
        ensures
            fields_view(r) == spec_quote_fields(s@),
    {
        let v = chars_of(s);
        let p = split_ranges(&v, 0, v.len(), '|');
        assert(v@.subrange(0, v.len() as int) =~= v@);
        if p.len() != 4 {
            return None;
        }
        let (a2, b2) = p[2];
        let (a3, b3) = p[3];
        let volume = parse_unsigned_range(&v, a2, b2, u32::MAX as u64);
        let timestamp = parse_unsigned_range(&v, a3, b3, u64::MAX);
        let (a1, b1) = p[1];
        let price_ok = float_text_range(&v, a1, b1);
        match (volume, timestamp) {
            (Some(vol), Some(ts)) if price_ok => {
                let (a0, b0) = p[0];
                Some(
                    QuoteFields {
                        ticker: string_of(&v, a0, b0),
                        price_text: string_of(&v, a1, b1),
                        volume: vol as u32,
                        timestamp: ts,
                    },
                )
            },
            _ => None,
        }
    }
}

} // verus!
