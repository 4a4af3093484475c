use tape_machine::error::Error;
use tape_machine::text::decimal_string;

#[test]
fn numbers_are_written_in_base_ten() {
    assert_eq!(decimal_string(0), "0");
    assert_eq!(decimal_string(7), "7");
    assert_eq!(decimal_string(10), "10");
    assert_eq!(decimal_string(109), "109");
    assert_eq!(decimal_string(65535), "65535");
    assert_eq!(decimal_string(u64::MAX), "18446744073709551615");
}

#[test]
fn each_error_has_its_sentence() {
    assert_eq!(
        Error::OutsideBounds(12).message(),
        "pointer went outside of bounds (instruction 12)"
    );
    assert_eq!(
        Error::ExpectedLoopStart(0).message(),
        "missing loop start (instruction 0)"
    );
    assert_eq!(Error::Io.message(), "io error: unexpected end of file");
    assert_eq!(Error::WatchdogError.message(), "watchdog stopped execution");
}

#[test]
fn errors_compare_by_kind_and_address() {
    assert_eq!(Error::OutsideBounds(3), Error::OutsideBounds(3));
    assert_ne!(Error::OutsideBounds(3), Error::OutsideBounds(4));
    assert_eq!(Error::ExpectedLoopStart(3), Error::ExpectedLoopStart(3));
    assert_ne!(Error::ExpectedLoopStart(3), Error::OutsideBounds(3));
    assert_eq!(Error::Io, Error::Io);
    assert_ne!(Error::Io, Error::WatchdogError);
}

#[test]
fn watchdog_stop_equals_nothing() {
    assert!(Error::WatchdogError != Error::WatchdogError);
    assert!(Error::WatchdogError != Error::Io);
    assert!(matches!(Error::WatchdogError, Error::WatchdogError));
}
