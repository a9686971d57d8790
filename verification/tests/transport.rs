use lro::transport::{
    dispatch, not_ready, parse_timeout, route, Compression, Dispatch, Method, TIMEOUT_DIGITS,
};
use lro::types::Duration;

#[test]
fn methods_have_their_paths() {
    assert_eq!(Method::ListOperations.path(), "/google.longrunning.Operations/ListOperations");
    assert_eq!(Method::GetOperation.path(), "/google.longrunning.Operations/GetOperation");
    assert_eq!(Method::DeleteOperation.path(), "/google.longrunning.Operations/DeleteOperation");
    assert_eq!(Method::CancelOperation.path(), "/google.longrunning.Operations/CancelOperation");
    assert_eq!(Method::WaitOperation.path(), "/google.longrunning.Operations/WaitOperation");
}

#[test]
fn paths_lead_to_their_methods() {
    for method in [
        Method::ListOperations,
        Method::GetOperation,
        Method::DeleteOperation,
        Method::CancelOperation,
        Method::WaitOperation,
    ] {
        assert_eq!(route(method.path()), Some(method));
        assert_eq!(dispatch(method.path()), Dispatch::Call(method));
    }
}

#[test]
fn unknown_paths_are_refused_as_unimplemented() {
    for path in [
        "",
        "/",
        "/google.longrunning.Operations/",
        "/google.longrunning.Operations/getOperation",
        "/google.longrunning.Operations/GetOperation/",
        "google.longrunning.Operations/GetOperation",
        "/google.longrunning.Operations/PurgeOperations",
    ] {
        assert_eq!(route(path), None);
        assert_eq!(dispatch(path), Dispatch::Refuse { http_status: 200, grpc_status: 12 });
    }
}

#[test]
fn not_ready_reports_unknown_with_the_reason() {
    let status = not_ready("connection refused");
    assert_eq!(status.code, 2);
    assert_eq!(status.message, "Service was not ready: connection refused");
    assert!(status.details.is_empty());
    assert_eq!(not_ready("").message, "Service was not ready: ");
}

#[test]
fn compression_is_switched_on_per_direction() {
    let none = Compression::none();
    assert_eq!(none, Compression { accept: false, send: false });
    assert_eq!(none.accept_gzip(), Compression { accept: true, send: false });
    assert_eq!(none.send_gzip(), Compression { accept: false, send: true });
    assert_eq!(none.send_gzip().accept_gzip(), Compression { accept: true, send: true });
    assert_eq!(none.accept_gzip().accept_gzip(), none.accept_gzip());
}

#[test]
fn timeout_headers_are_read_in_every_unit() {
    assert_eq!(parse_timeout("2H"), Some(Duration::new(7200, 0)));
    assert_eq!(parse_timeout("3M"), Some(Duration::new(180, 0)));
    assert_eq!(parse_timeout("45S"), Some(Duration::new(45, 0)));
    assert_eq!(parse_timeout("1500m"), Some(Duration::new(1, 500_000_000)));
    assert_eq!(parse_timeout("100m"), Some(Duration::new(0, 100_000_000)));
    assert_eq!(parse_timeout("2500000u"), Some(Duration::new(2, 500_000_000)));
    assert_eq!(parse_timeout("7u"), Some(Duration::new(0, 7000)));
    assert_eq!(parse_timeout("99999999n"), Some(Duration::new(0, 99_999_999)));
    assert_eq!(parse_timeout("0S"), Some(Duration::new(0, 0)));
}

#[test]
fn timeout_headers_take_up_to_eight_digits() {
    assert_eq!(TIMEOUT_DIGITS, 8);
    assert_eq!(parse_timeout("99999999H"), Some(Duration::new(359_999_996_400, 0)));
    assert_eq!(parse_timeout("00000001S"), Some(Duration::new(1, 0)));
    assert_eq!(parse_timeout("100000000S"), None);
    assert_eq!(parse_timeout("000000001S"), None);
}

#[test]
fn malformed_timeout_headers_grant_nothing() {
    for text in ["", "S", "5", "5s", "5 S", " 5S", "+5S", "-5S", "5.0S", "5SS", "fiveS", "5\u{00b5}"] {
        assert_eq!(parse_timeout(text), None);
    }
}
