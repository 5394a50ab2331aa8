use stock_streamer::errors::ServerError;
use stock_streamer::generator::QuoteGenerator;
use stock_streamer::session::{
    answer_line, greeting, handle_line, stream_round, ConnectionAction, PingEvent, PingRegistry, StreamStep,
    PING_TIMEOUT_NANOS,
};

#[test]
fn blank_lines_are_ignored() {
    assert!(matches!(handle_line(""), ConnectionAction::Ignore));
    assert!(matches!(handle_line("  \r\n"), ConnectionAction::Ignore));
}

#[test]
fn help_is_answered_with_the_usage() {
    match handle_line("help\n") {
        ConnectionAction::Reply(text) => {
            assert!(text.starts_with("To start streaming write STREAM udp://{host}:{port}"));
            assert!(text.contains("Example: STREAM udp://127.0.0.1:34562 AAPL,MSFT"));
            assert!(text.ends_with("The stream stops when pings stop."));
        }
        _ => panic!("expected a reply"),
    }
}

#[test]
fn stream_command_starts_a_stream() {
    match handle_line("STREAM udp://127.0.0.1:5000 AAPL,MSFT\r\n") {
        ConnectionAction::Stream { tickets, stream_addr, reply } => {
            assert_eq!(tickets, vec!["AAPL", "MSFT"]);
            assert_eq!(stream_addr, "127.0.0.1:5000");
            assert_eq!(reply, "Streaming started");
        }
        _ => panic!("expected a stream"),
    }
}

#[test]
fn bad_commands_are_answered_with_the_error() {
    match handle_line("BUY AAPL") {
        ConnectionAction::Error(ServerError::UnknownCommandError(_)) => {}
        _ => panic!("expected an error"),
    }
    match handle_line("STREAM udp://h:1\n") {
        ConnectionAction::Error(e) => {
            assert_eq!(format!("{:?}", e), "UDPTicketParsingError(\"Ticket is not provided\")")
        }
        _ => panic!("expected an error"),
    }
}

#[test]
fn greeting_text() {
    assert_eq!(greeting(), "Welcome to streamer!\nWhat stock do you intrested in?");
}

#[test]
fn ping_keeps_a_client_alive() {
    let mut r = PingRegistry::new();
    assert!(!r.is_active("1.2.3.4:5", 0));
    assert!(matches!(r.on_datagram(b"PING", "1.2.3.4:5".to_string(), 10), PingEvent::Refreshed));
    assert!(r.is_active("1.2.3.4:5", 10 + PING_TIMEOUT_NANOS));
    assert!(!r.is_active("1.2.3.4:5", 11 + PING_TIMEOUT_NANOS));
    assert!(matches!(r.on_datagram(b" ping\n", "9.9.9.9:1".to_string(), 10), PingEvent::Refreshed));
    assert!(matches!(r.on_datagram(b"PiNg", "9.9.9.9:1".to_string(), 11), PingEvent::Refreshed));
    assert!(r.is_active("9.9.9.9:1", 11 + PING_TIMEOUT_NANOS));
}

#[test]
fn other_datagrams_drop_silent_clients_only() {
    let mut r = PingRegistry::new();
    r.on_datagram(b"PING", "a".to_string(), 1_000);
    let t = 1_000 + PING_TIMEOUT_NANOS;
    assert!(matches!(r.on_datagram(b"hello", "a".to_string(), t), PingEvent::Ignored));
    assert!(r.is_active("a", t));
    assert!(matches!(r.on_datagram(b"PONG", "b".to_string(), t + 1), PingEvent::Ignored));
    assert!(!r.is_active("b", t + 1));
    assert!(!r.is_active("a", t + 1));
    assert!(matches!(r.on_datagram(b"hello", "a".to_string(), t + 1), PingEvent::Expired));
    assert!(!r.is_active("a", t));
}

#[test]
fn clock_going_back_counts_as_no_time() {
    let mut r = PingRegistry::new();
    r.on_datagram(b"PING", "a".to_string(), u64::MAX);
    assert!(matches!(r.on_datagram(b"x", "a".to_string(), 0), PingEvent::Ignored));
    assert!(r.is_active("a", 0));
}

#[test]
fn invalid_utf8_is_not_a_ping() {
    let mut r = PingRegistry::new();
    assert!(matches!(
        r.on_datagram(&[0x50, 0xff, 0x49, 0x4e, 0x47], "a".to_string(), 0),
        PingEvent::Ignored
    ));
    assert!(!r.is_active("a", 0));
}

#[test]
fn record_and_forget() {
    let mut r = PingRegistry::new();
    r.keep_alive("x".to_string(), 5);
    assert!(r.is_active("x", 5));
    r.forget("x");
    assert!(!r.is_active("x", 5));
}

#[test]
fn messages_are_judged_by_their_text() {
    let mut r = PingRegistry::new();
    assert_eq!(r.on_message("\u{3000}PING\u{a0}", "a".to_string(), 3), PingEvent::Refreshed);
    assert!(r.is_active("a", 3));
    assert_eq!(r.on_message("PINGS", "a".to_string(), 4), PingEvent::Ignored);
    assert_eq!(
        r.on_message("PI NG", "a".to_string(), 4 + PING_TIMEOUT_NANOS),
        PingEvent::Expired
    );
    assert!(!r.is_active("a", 4 + PING_TIMEOUT_NANOS));
}

#[test]
fn datagram_text_is_decoded_before_judging() {
    let mut r = PingRegistry::new();
    assert_eq!(r.on_datagram(" PING \r\n".as_bytes(), "a".to_string(), 0), PingEvent::Refreshed);
    assert_eq!(
        r.on_datagram(&[0xff, b'P', b'I', b'N', b'G'], "a".to_string(), PING_TIMEOUT_NANOS + 1),
        PingEvent::Expired
    );
}

#[test]
fn stream_stops_when_pings_stop() {
    let mut r = PingRegistry::new();
    let mut g = QuoteGenerator::new();
    g.insert_line("AAPL", 7, 1000, 1);
    let tickets = vec!["AAPL".to_string(), "GOOG".to_string()];
    r.keep_alive("h:1".to_string(), 100);
    match stream_round(&r, &g, "h:1", &tickets, 100 + PING_TIMEOUT_NANOS) {
        StreamStep::Send(quotes) => {
            assert_eq!(quotes.len(), 2);
            assert_eq!(quotes[0].as_ref().unwrap().price_bits, 7);
            assert!(quotes[1].is_none());
        }
        StreamStep::Stop => panic!("the client is still alive"),
    }
    r.on_datagram(b"PING", "other:2".to_string(), 200 + PING_TIMEOUT_NANOS);
    assert!(matches!(
        stream_round(&r, &g, "h:1", &tickets, 101 + PING_TIMEOUT_NANOS),
        StreamStep::Stop
    ));
    r.on_datagram(b"PING", "h:1".to_string(), 300 + PING_TIMEOUT_NANOS);
    assert!(matches!(
        stream_round(&r, &g, "h:1", &tickets, 301 + PING_TIMEOUT_NANOS),
        StreamStep::Send(_)
    ));
}

#[test]
fn unknown_target_gets_no_stream() {
    let r = PingRegistry::new();
    let g = QuoteGenerator::new();
    assert!(matches!(stream_round(&r, &g, "h:1", &vec![], 0), StreamStep::Stop));
}

#[test]
fn a_requested_stream_lives_until_its_pings_stop() {
    let mut r = PingRegistry::new();
    let mut g = QuoteGenerator::new();
    g.insert_line("AAPL", 1, 1000, 1);
    let tickets = vec!["AAPL".to_string()];
    match answer_line(&mut r, "STREAM udp://h:1 AAPL\n", 50) {
        ConnectionAction::Stream { stream_addr, .. } => assert_eq!(stream_addr, "h:1"),
        _ => panic!("expected a stream"),
    }
    assert!(r.is_active("h:1", 50));
    assert!(matches!(stream_round(&r, &g, "h:1", &tickets, 50), StreamStep::Send(_)));
    r.on_datagram(b"PING", "h:1".to_string(), 2_000_000_050);
    assert!(matches!(
        stream_round(&r, &g, "h:1", &tickets, 2_000_000_050 + PING_TIMEOUT_NANOS),
        StreamStep::Send(_)
    ));
    assert!(matches!(
        stream_round(&r, &g, "h:1", &tickets, 2_000_000_051 + PING_TIMEOUT_NANOS),
        StreamStep::Stop
    ));
}

#[test]
fn other_lines_leave_the_registry_alone() {
    let mut r = PingRegistry::new();
    assert!(matches!(answer_line(&mut r, "help", 5), ConnectionAction::Reply(_)));
    assert!(matches!(answer_line(&mut r, "STREAM h:1 AAPL", 5), ConnectionAction::Error(_)));
    assert!(!r.is_active("h:1", 5));
}
