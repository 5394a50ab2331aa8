use stock_streamer::generator::{draw_volume, volume_base_and_span, volume_for, QuoteGenerator};

#[test]
fn lines_become_quotes_once_per_ticker() {
    let mut g = QuoteGenerator::new();
    assert!(g.add_ticker_line("AAPL\n", 11, 100));
    assert!(g.add_ticker_line("  MSFT ", 12, 101));
    assert!(!g.add_ticker_line("   ", 13, 102));
    assert!(!g.add_ticker_line("AAPL", 14, 103));
    assert!(g.add_ticker_line("TSLA", 15, 104));
    assert_eq!(g.len(), 3);

    let a = g.get_quote("AAPL").expect("AAPL is quoted");
    assert_eq!(a.ticker, "AAPL");
    assert_eq!(a.price_bits, 11);
    assert_eq!(a.timestamp, 100);
    let m = g.get_quote("MSFT").expect("MSFT is quoted");
    assert_eq!(m.price_bits, 12);
    assert!(g.get_quote("GOOG").is_none());
    assert!(g.get_quote(" MSFT").is_none());
}

#[test]
fn volumes_follow_the_ticker_class() {
    let mut g = QuoteGenerator::new();
    g.add_ticker_line("AAPL", 0, 0);
    g.add_ticker_line("GOOG", 0, 0);
    let a = g.get_quote("AAPL").unwrap().volume;
    let o = g.get_quote("GOOG").unwrap().volume;
    assert!((1000..6000).contains(&a), "{a}");
    assert!((100..1100).contains(&o), "{o}");
    for _ in 0..200 {
        let v = draw_volume("TSLA");
        assert!((1000..6000).contains(&v));
        let w = draw_volume("tsla");
        assert!((100..1100).contains(&w));
    }
}

#[test]
fn generate_changes_one_volume_and_keeps_the_rest() {
    let mut g = QuoteGenerator::new();
    g.add_ticker_line("AAPL", 1, 10);
    g.add_ticker_line("XYZ", 2, 20);
    for _ in 0..100 {
        let before_a = g.get_quote("AAPL").unwrap();
        let before_x = g.get_quote("XYZ").unwrap();
        let i = g.generate();
        assert!(i < 2);
        let a = g.get_quote("AAPL").unwrap();
        let x = g.get_quote("XYZ").unwrap();
        assert_eq!(a.price_bits, 1);
        assert_eq!(x.price_bits, 2);
        assert_eq!(a.timestamp, 10);
        assert_eq!(x.timestamp, 20);
        assert!((1000..6000).contains(&a.volume));
        assert!((100..1100).contains(&x.volume));
        if i == 0 {
            assert_eq!(x.volume, before_x.volume);
        } else {
            assert_eq!(a.volume, before_a.volume);
        }
    }
    assert_eq!(g.len(), 2);
}

#[test]
fn generate_then_price_update_within_three_percent() {
    let mut g = QuoteGenerator::new();
    g.add_ticker_line("AAPL", 2500.0f64.to_bits(), 0);
    g.add_ticker_line("TSLA", 7000.0f64.to_bits(), 0);
    let original = f64::from_bits(g.get_quote("AAPL").unwrap().price_bits);
    let i = g.generate();
    let factor = 1.0 + rand::random_range(-0.03..=0.03);
    let moved = f64::from_bits(g.price_bits(i)) * factor;
    g.set_price_bits(i, moved.to_bits());
    let updated = f64::from_bits(g.get_quote("AAPL").unwrap().price_bits);
    let ratio = updated / original;
    assert!((0.97 - 1e-12..=1.03 + 1e-12).contains(&ratio), "price changed more than 3%: {ratio}");
}

#[test]
fn insert_line_keeps_the_given_values() {
    let mut g = QuoteGenerator::new();
    assert!(g.insert_line("\tGOOG\r\n", 42, 777, 9));
    assert!(!g.insert_line("GOOG", 43, 778, 10));
    assert!(!g.insert_line("", 43, 778, 10));
    let q = g.get_quote("GOOG").unwrap();
    assert_eq!((q.price_bits, q.volume, q.timestamp), (42, 777, 9));
    g.set_volume(0, 5);
    assert_eq!(g.get_quote("GOOG").unwrap().volume, 5);
    g.set_price_bits(0, 8);
    assert_eq!(g.price_bits(0), 8);
}

#[test]
fn random_draws_vary() {
    let volumes: std::collections::HashSet<u32> = (0..200).map(|_| draw_volume("AAPL")).collect();
    assert!(volumes.len() > 1);
    let mut g = QuoteGenerator::new();
    g.add_ticker_line("A", 0, 0);
    g.add_ticker_line("B", 0, 0);
    let picks: std::collections::HashSet<usize> = (0..200).map(|_| g.generate()).collect();
    assert_eq!(picks.len(), 2);
}

#[test]
fn a_ticker_file_gives_one_quote_per_listed_ticker() {
    let mut g = QuoteGenerator::new();
    let lines: Vec<String> = ["AAPL", "", "  MSFT ", "AAPL", "\t", "XYZ"]
        .iter()
        .map(|s| s.to_string())
        .collect();
    let prices = vec![1, 2, 3, 4, 5, 6];
    let timestamps = vec![10, 20, 30, 40, 50, 60];
    g.add_ticker_lines(&lines, &prices, &timestamps);
    assert_eq!(g.len(), 3);
    let a = g.get_quote("AAPL").unwrap();
    assert_eq!((a.price_bits, a.timestamp), (1, 10));
    let m = g.get_quote("MSFT").unwrap();
    assert_eq!((m.price_bits, m.timestamp), (3, 30));
    let x = g.get_quote("XYZ").unwrap();
    assert_eq!((x.price_bits, x.timestamp), (6, 60));
    assert!((100..1100).contains(&x.volume));
    assert!(g.get_quote("").is_none());
}

#[test]
fn volume_bounds_follow_the_ticker_class() {
    assert_eq!(volume_base_and_span("AAPL"), (1000, 5000));
    assert_eq!(volume_base_and_span("MSFT"), (1000, 5000));
    assert_eq!(volume_base_and_span("TSLA"), (1000, 5000));
    assert_eq!(volume_base_and_span("GOOG"), (100, 1000));
    assert_eq!(volume_base_and_span(" AAPL"), (100, 1000));
    assert_eq!(volume_for("TSLA", 4999), 5999);
    assert_eq!(volume_for("X", 0), 100);
    let draws: std::collections::HashSet<u32> = (0..500).map(|_| draw_volume("X")).collect();
    assert!(draws.iter().all(|v| (100..1100).contains(v)));
    assert!(draws.len() > 100);
}
