use stock_streamer::command::Command;
use stock_streamer::errors::ServerError;

fn stream_parts(command: &str) -> (Vec<String>, String) {
    match Command::parse(command).expect("expected a command") {
        Command::UdpSendCommand { tickets, stream_addr } => (tickets, stream_addr),
        _ => panic!("expected UdpSendCommand"),
    }
}

#[test]
fn command_parse_stream_command() {
    let command = Command::parse("STREAM udp://127.0.0.1:34562 AAPL,MSFT")
        .expect("failed to parse stream command");

    match command {
        Command::UdpSendCommand {
            tickets,
            stream_addr,
        } => {
            assert_eq!(tickets, vec!["AAPL".to_string(), "MSFT".to_string()]);
            assert_eq!(stream_addr, "127.0.0.1:34562");
        }
        _ => panic!("expected UdpSendCommand"),
    }
}

#[test]
fn command_parse_invalid_udp_address_returns_error() {
    let err =
        Command::parse("STREAM http://127.0.0.1:34562 AAPL").expect_err("expected parse error");

    match err {
        ServerError::UDPAddrParsingError(_) => {}
        _ => panic!("expected UDPAddrParsingError"),
    }
}

#[test]
fn every_help_spelling_is_the_help_command() {
    for word in ["HELP", "-H", "-h", "help", "--help"] {
        assert!(matches!(Command::parse(word), Ok(Command::HelpCommand)), "{word}");
    }
    assert!(matches!(Command::parse("  help extra words"), Ok(Command::HelpCommand)));
}

#[test]
fn help_spelling_is_case_sensitive_apart_from_the_listed_forms() {
    match Command::parse("Help") {
        Err(ServerError::UnknownCommandError(m)) => {
            assert_eq!(m, "Unknown command! Use help or -h flag for description")
        }
        other => panic!("expected UnknownCommandError, got {other:?}"),
    }
}

#[test]
fn empty_and_blank_commands_are_unknown() {
    for line in ["", "   ", "\t\n"] {
        match Command::parse(line) {
            Err(ServerError::UnknownCommandError(m)) => {
                assert_eq!(m, "Unknown command! Use help or -h flag for description")
            }
            other => panic!("expected UnknownCommandError, got {other:?}"),
        }
    }
}

#[test]
fn stream_without_ticket_list_reports_missing_ticket() {
    match Command::parse("STREAM udp://127.0.0.1:1") {
        Err(ServerError::UDPTicketParsingError(m)) => assert_eq!(m, "Ticket is not provided"),
        other => panic!("expected UDPTicketParsingError, got {other:?}"),
    }
}

#[test]
fn stream_alone_reports_missing_address_and_ticket() {
    match Command::parse("STREAM") {
        Err(ServerError::UDPAddrParsingError(m)) => {
            assert_eq!(m, "Address and ticket are not provided")
        }
        other => panic!("expected UDPAddrParsingError, got {other:?}"),
    }
}

#[test]
fn invalid_address_message() {
    match Command::parse("STREAM 127.0.0.1:1 AAPL") {
        Err(ServerError::UDPAddrParsingError(m)) => assert_eq!(m, "Invalid UDP address format"),
        other => panic!("expected UDPAddrParsingError, got {other:?}"),
    }
}

#[test]
fn stream_keeps_empty_pieces_and_ignores_extra_words() {
    let (tickets, addr) = stream_parts("STREAM udp://h:9 A,,B, extra words");
    assert_eq!(tickets, vec!["A", "", "B", ""]);
    assert_eq!(addr, "h:9");
}

#[test]
fn stream_accepts_bare_scheme_and_unicode_white_space() {
    let (tickets, addr) = stream_parts("\u{3000}STREAM\u{a0}udp://\u{2003}TSLA ");
    assert_eq!(tickets, vec!["TSLA"]);
    assert_eq!(addr, "");
}

#[test]
fn scheme_must_be_lower_case() {
    assert!(matches!(
        Command::parse("STREAM UDP://h:1 AAPL"),
        Err(ServerError::UDPAddrParsingError(_))
    ));
}
