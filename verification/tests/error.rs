use pereprava::error::{Error, MtpFailure};

#[test]
fn mtp_msg_formats_display() {
    let e = Error::mtp_msg("boom 42");
    assert!(matches!(e, Error::Mtp(ref s) if s == "boom 42"));
}

#[test]
fn not_found_carries_path() {
    let e = Error::NotFound("/a/b".into());
    assert!(e.to_string().contains("/a/b"));
}

#[test]
fn stale_handle_is_not_a_disconnect() {
    let e: Error = mtp_rs::Error::StaleHandle.into();
    assert!(e.is_stale(), "must be recoverable by re-listing");
    assert!(!e.is_disconnect(), "the phone is still connected");
    assert!(!e.is_retryable(), "an unchanged retry will not help");
}

#[test]
fn disconnect_is_a_disconnect_only() {
    let e: Error = mtp_rs::Error::Disconnected.into();
    assert!(e.is_disconnect());
    assert!(!e.is_stale());
}

#[test]
fn session_reset_is_neither_disconnect_nor_stale() {
    // The phone is plugged in and the session was merely reset: reopen it.
    let e: Error = mtp_rs::Error::DeviceReset.into();
    assert!(!e.is_disconnect());
    assert!(!e.is_stale());
    assert!(matches!(e, Error::SessionReset));
}

#[test]
fn not_found_maps_to_not_found() {
    let e: Error = mtp_rs::Error::NotFound.into();
    assert!(matches!(e, Error::NotFound(_)));
}

#[test]
fn busy_and_timeout_are_retryable() {
    let busy: Error = mtp_rs::Error::Busy.into();
    let timeout: Error = mtp_rs::Error::Timeout.into();
    assert!(busy.is_retryable());
    assert!(timeout.is_retryable());
}

#[test]
fn terminal_errors_are_not_retryable() {
    for e in [
        Error::StorageFull(String::new()),
        Error::AccessDenied(String::new()),
        Error::Disconnected,
        Error::NotFound(String::new()),
    ] {
        assert!(!e.is_retryable(), "{e:?} must not be retried blindly");
    }
}

#[test]
fn unclassified_variants_keep_their_detail() {
    let e: Error = mtp_rs::Error::Other {
        detail: "0x2002 GeneralError".into(),
    }
    .into();
    match e {
        Error::Mtp(s) => assert!(s.contains("GeneralError")),
        other => panic!("expected Mtp, got {other:?}"),
    }
}

#[test]
fn every_classified_failure_has_its_error() {
    assert!(matches!(
        MtpFailure::AccessDenied.into_error(),
        Error::AccessDenied(ref s) if s.is_empty()
    ));
    assert!(matches!(
        MtpFailure::StorageFull.into_error(),
        Error::StorageFull(ref s) if s.is_empty()
    ));
    assert!(matches!(
        MtpFailure::Unsupported.into_error(),
        Error::Unsupported(ref s) if s.is_empty()
    ));
    assert!(matches!(
        MtpFailure::ExclusiveAccess.into_error(),
        Error::ExclusiveAccess
    ));
    let e: Error = mtp_rs::Error::ExclusiveAccess.into();
    assert!(matches!(e, Error::ExclusiveAccess));
}

#[test]
fn error_texts_are_the_documented_ones() {
    let d = || "x".to_string();
    let cases = [
        (Error::Mtp(d()), "mtp: x"),
        (Error::NotFound(d()), "not found on device: x"),
        (
            Error::StaleHandle(d()),
            "stale object handle (device re-keyed it; re-list and retry): x",
        ),
        (Error::InvalidArgument(d()), "invalid argument: x"),
        (Error::WrongKind(d()), "wrong object kind: x"),
        (Error::AccessDenied(d()), "access denied by device: x"),
        (Error::StorageFull(d()), "device storage is full: x"),
        (Error::Busy(d()), "device busy: x"),
        (Error::Unsupported(d()), "unsupported by device: x"),
        (
            Error::ExclusiveAccess,
            "device is held exclusively by another process",
        ),
        (Error::Io(d()), "io: x"),
        (Error::ActorClosed, "device actor is not running"),
        (Error::Disconnected, "device disconnected"),
        (
            Error::SessionReset,
            "device session was reset; reopen the device",
        ),
        (Error::Timeout, "device operation timed out"),
    ];
    for (e, text) in cases {
        assert_eq!(e.to_string(), text);
        assert_eq!(e.clone().to_string(), text);
    }
}
