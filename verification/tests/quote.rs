use stock_streamer::quote::StockQuote;

fn quote(ticker: &str, price: f64, volume: u32, timestamp: u64) -> StockQuote {
    StockQuote { ticker: ticker.to_string(), price_bits: price.to_bits(), volume, timestamp }
}

fn price_text(q: &StockQuote) -> String {
    f64::from_bits(q.price_bits).to_string()
}

#[test]
fn stock_quote_to_bytes_and_from_string_roundtrip() {
    let quote = quote("AAPL", 123.45, 1000, 1);

    let bytes = quote.to_bytes(&price_text(&quote));
    assert_eq!(bytes, b"AAPL|123.45|1000|1".to_vec());

    let parsed = StockQuote::from_string("AAPL|123.45|1000|1").expect("failed to parse quote");
    assert_eq!(parsed.ticker, "AAPL");
    let price: f64 = parsed.price_text.parse().expect("failed to parse price");
    assert!((price - 123.45).abs() < f64::EPSILON);
    assert_eq!(parsed.volume, 1000);
    assert_eq!(parsed.timestamp, 1);
}

#[test]
fn to_string_renders_integers_in_decimal() {
    let q = quote("MSFT", 5234.5, 4294967295, 18446744073709551615);
    assert_eq!(q.to_string("5234.5"), "MSFT|5234.5|4294967295|18446744073709551615");
    let z = quote("Z", 0.0, 0, 0);
    assert_eq!(z.to_string("0"), "Z|0|0|0");
}

#[test]
fn to_bytes_is_utf8() {
    let q = quote("ÄÖ", 1.5, 7, 10);
    assert_eq!(q.to_bytes("1.5"), "ÄÖ|1.5|7|10".as_bytes().to_vec());
}

#[test]
fn line_round_trip() {
    let q = quote("TSLA", 9999.125, 5999, 1700000000000);
    let line = q.to_string(&price_text(&q));
    let f = StockQuote::from_string(&line).expect("line should parse");
    assert_eq!(f.ticker, "TSLA");
    assert_eq!(f.price_text, "9999.125");
    assert_eq!(f.volume, 5999);
    assert_eq!(f.timestamp, 1700000000000);
}

#[test]
fn from_string_needs_exactly_four_fields() {
    assert!(StockQuote::from_string("AAPL|1|2").is_none());
    assert!(StockQuote::from_string("AAPL|1|2|3|4").is_none());
    assert!(StockQuote::from_string("").is_none());
}

#[test]
fn from_string_reads_integers_as_from_str_does() {
    assert_eq!(StockQuote::from_string("A|1|+5|007").unwrap().volume, 5);
    assert_eq!(StockQuote::from_string("A|1|+5|007").unwrap().timestamp, 7);
    assert!(StockQuote::from_string("A|1|-5|1").is_none());
    assert!(StockQuote::from_string("A|1|+|1").is_none());
    assert!(StockQuote::from_string("A|1||1").is_none());
    assert!(StockQuote::from_string("A|1|4294967296|1").is_none());
    assert!(StockQuote::from_string("A|1|1|18446744073709551616").is_none());
    assert!(StockQuote::from_string("A|1| 1|1").is_none());
    assert_eq!(StockQuote::from_string("A|1|4294967295|0").unwrap().volume, u32::MAX);
}

#[test]
fn from_string_rejects_what_the_original_rejects() {
    assert!(StockQuote::from_string("AAPL|1.5|10").is_none());
    assert!(StockQuote::from_string("AAPL|1.5|10|1|2").is_none());
    assert!(StockQuote::from_string("AAPL|abc|10|1").is_none());
    assert!(StockQuote::from_string("AAPL|1.5|-10|1").is_none());
    assert!(StockQuote::from_string("AAPL|1.5|4294967296|1").is_none());
}

#[test]
fn price_text_is_checked_as_from_str_reads_numbers() {
    let texts = [
        "0", "123.45", "1.", ".5", ".", "", "+", "-", "-0.0", "+7", "1e5", "1E-5", "1e+05", "1e",
        "e5", "1e5.0", "1.2.3", "inf", "-Infinity", "+INF", "NaN", "-nan", "in", "infinit", "nanx",
        "1_0", " 1", "1 ", "0x10", "١", "12e999", "--1", "+-1", "1e--1", ".e1", "5.e1",
    ];
    for t in texts {
        let line = format!("A|{}|1|1", t);
        assert_eq!(
            StockQuote::from_string(&line).is_some(),
            t.parse::<f64>().is_ok(),
            "price text {:?}",
            t
        );
    }
}

#[test]
fn from_string_leaves_the_price_value_to_the_caller() {
    let f = StockQuote::from_string("A|-1.25e2|1|2").unwrap();
    assert_eq!(f.price_text, "-1.25e2");
    assert_eq!(f.price_text.parse::<f64>().unwrap(), -125.0);
}

#[test]
fn clone_keeps_every_field() {
    let q = quote("AAPL", 1.25, 3, 4);
    let c = q.clone();
    assert_eq!(c.ticker, "AAPL");
    assert_eq!(c.price_bits, q.price_bits);
    assert_eq!(c.volume, 3);
    assert_eq!(c.timestamp, 4);
}
