use stock_streamer::client::{
    build_stream_command, parse_tickers, received_line, received_line_text, require_tickers,
};
use stock_streamer::command::Command;

#[test]
fn build_stream_command_generates_expected_string() {
    let cmd = build_stream_command("udp://127.0.0.1:34562", &["AAPL".into(), "TSLA".into()]);
    assert_eq!(cmd, "STREAM udp://127.0.0.1:34562 AAPL,TSLA");
}

#[test]
fn parse_tickers_parses_comma_separated_values() {
    let tickers = parse_tickers("AAPL, GOOG ,TSLA,, MSFT ");
    assert_eq!(tickers, vec!["AAPL", "GOOG", "TSLA", "MSFT"]);
}

#[test]
fn parse_tickers_of_nothing_is_empty() {
    assert!(parse_tickers("").is_empty());
    assert!(parse_tickers(" , ,\t").is_empty());
}

#[test]
fn build_stream_command_with_no_tickers() {
    assert_eq!(build_stream_command("udp://h:1", &[]), "STREAM udp://h:1 ");
}

#[test]
fn server_accepts_the_command_the_client_builds() {
    let tickers = parse_tickers("AAPL, GOOG,MSFT");
    let cmd = build_stream_command("udp://10.0.0.7:34562", &tickers);
    match Command::parse(&cmd).expect("command should parse") {
        Command::UdpSendCommand { tickets, stream_addr } => {
            assert_eq!(tickets, tickers);
            assert_eq!(stream_addr, "10.0.0.7:34562");
        }
        _ => panic!("expected UdpSendCommand"),
    }
}

#[test]
fn ticker_list_round_trip() {
    let tickers: Vec<String> = vec!["AAPL".into(), "BRK B".into(), "X".into()];
    assert_eq!(parse_tickers(&tickers.join(",")), tickers);
}

#[test]
fn an_empty_ticker_list_is_refused() {
    assert_eq!(require_tickers(" , ").unwrap_err(), "Tickers list is empty");
    assert_eq!(require_tickers("").unwrap_err(), "Tickers list is empty");
    assert_eq!(require_tickers("AAPL, MSFT").unwrap(), vec!["AAPL", "MSFT"]);
}

#[test]
fn received_datagrams_are_printed_trimmed_at_the_end() {
    assert_eq!(
        received_line_text("127.0.0.1:34562", "  AAPL|1.5|1000|1\r\n"),
        "[127.0.0.1:34562]   AAPL|1.5|1000|1"
    );
    assert_eq!(received_line("h:1", b"TSLA|2|3|4\n"), "[h:1] TSLA|2|3|4");
    assert_eq!(received_line("h:1", &[b'A', 0xff, b' ']), "[h:1] A\u{fffd}");
}
