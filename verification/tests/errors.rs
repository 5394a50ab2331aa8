use std::io;
use stock_streamer::errors::{ServerError, StockGeneratorError};

#[test]
fn io_errors_become_missing_file_errors() {
    let e = StockGeneratorError::from(io::Error::new(io::ErrorKind::NotFound, "gone"));
    match e {
        StockGeneratorError::NoSuchFile(inner) => assert_eq!(inner.kind(), io::ErrorKind::NotFound),
    }
}

#[test]
fn io_errors_become_tcp_binding_errors() {
    let e = ServerError::from(io::Error::new(io::ErrorKind::AddrInUse, "busy"));
    match e {
        ServerError::TCPBindingFailed(inner) => assert_eq!(inner.kind(), io::ErrorKind::AddrInUse),
        _ => panic!("expected TCPBindingFailed"),
    }
}
