use servofetch::error::{invalid_timeout, map_error, map_extract_error, ExceptionKind, FetchErrorKind};

#[test]
fn fetch_errors_map_to_python_exceptions() {
    let cases = [
        (FetchErrorKind::InvalidUrl, ExceptionKind::ValueError),
        (FetchErrorKind::Timeout, ExceptionKind::TimeoutError),
        (FetchErrorKind::AddressNotAllowed, ExceptionKind::PermissionError),
        (FetchErrorKind::Io, ExceptionKind::OSError),
        (FetchErrorKind::Other, ExceptionKind::RuntimeError),
    ];
    for (kind, exception) in cases {
        let failure = map_error(kind, "boom".to_string());
        assert_eq!(failure.kind, exception);
        assert_eq!(failure.message, "boom");
    }
}

#[test]
fn extract_errors_are_runtime_errors() {
    let failure = map_extract_error("bad selector".to_string());
    assert_eq!(failure.kind, ExceptionKind::RuntimeError);
    assert_eq!(failure.message, "bad selector");
}

#[test]
fn invalid_timeout_is_a_value_error() {
    let failure = invalid_timeout();
    assert_eq!(failure.kind, ExceptionKind::ValueError);
    assert_eq!(failure.message, "timeout must be a positive finite number within u64 seconds");
}
