//! The error type of the library.
//!
//! Failures of the device are told apart by meaning, never by their text: "the
//! object is gone", "the phone was unplugged", "Android re-keyed this handle"
//! and "the disk is full" call for different reactions, so each has a variant
//! of its own.

use mtp_rs::Error as LibraryError;
use vstd::prelude::*;

use crate::text::owned;

verus! {

/// Errors produced by the device session and the helpers.
#[derive(Debug)]
pub enum Error {
    /// A protocol or transport failure that has no variant of its own.
    Mtp(String),
    /// The requested object or directory does not exist on the device.
    NotFound(String),
    /// The handle is no longer valid because the device re-keyed it. The
    /// session is healthy: list the parent again, resolve the name, try once
    /// more.
    StaleHandle(String),
    /// The caller supplied an invalid argument (bad path shape, bad storage).
    InvalidArgument(String),
    /// The operation needs a directory but found a file, or the reverse.
    WrongKind(String),
    /// The object or storage is write-protected, or access was refused.
    AccessDenied(String),
    /// The target storage is full.
    StorageFull(String),
    /// The device is busy for now; the same call may succeed shortly.
    Busy(String),
    /// The device does not implement the requested operation.
    Unsupported(String),
    /// Another process holds the device exclusively.
    ExclusiveAccess,
    /// Local file I/O failed.
    Io(String),
    /// The task that owns the device is not running.
    ActorClosed,
    /// The USB link is gone: the phone must be connected again.
    Disconnected,
    /// The session died but the phone is still plugged in; reopening is enough.
    SessionReset,
    /// An operation exceeded its deadline.
    Timeout,
}

/// What an [`Error`] says, with its detail as a sequence of characters.
pub enum ErrorView {
    Mtp(Seq<char>),
    NotFound(Seq<char>),
    StaleHandle(Seq<char>),
    InvalidArgument(Seq<char>),
    WrongKind(Seq<char>),
    AccessDenied(Seq<char>),
    StorageFull(Seq<char>),
    Busy(Seq<char>),
    Unsupported(Seq<char>),
    ExclusiveAccess,
    Io(Seq<char>),
    ActorClosed,
    Disconnected,
    SessionReset,
    Timeout,
}

impl View for Error {
    type V = ErrorView;

    open spec fn view(&self) -> ErrorView {
        match *self {
            Error::Mtp(s) => ErrorView::Mtp(s@),
            Error::NotFound(s) => ErrorView::NotFound(s@),
            Error::StaleHandle(s) => ErrorView::StaleHandle(s@),
            Error::InvalidArgument(s) => ErrorView::InvalidArgument(s@),
            Error::WrongKind(s) => ErrorView::WrongKind(s@),
            Error::AccessDenied(s) => ErrorView::AccessDenied(s@),
            Error::StorageFull(s) => ErrorView::StorageFull(s@),
            Error::Busy(s) => ErrorView::Busy(s@),
            Error::Unsupported(s) => ErrorView::Unsupported(s@),
            Error::ExclusiveAccess => ErrorView::ExclusiveAccess,
            Error::Io(s) => ErrorView::Io(s@),
            Error::ActorClosed => ErrorView::ActorClosed,
            Error::Disconnected => ErrorView::Disconnected,
            Error::SessionReset => ErrorView::SessionReset,
            Error::Timeout => ErrorView::Timeout,
        }
    }
}

/// The text shown to the user for an error.
pub open spec fn error_text(e: ErrorView) -> Seq<char> {
    match e {
        ErrorView::Mtp(s) => "mtp: "@ + s,
        ErrorView::NotFound(s) => "not found on device: "@ + s,
        ErrorView::StaleHandle(s) =>
            "stale object handle (device re-keyed it; re-list and retry): "@ + s,
        ErrorView::InvalidArgument(s) => "invalid argument: "@ + s,
        ErrorView::WrongKind(s) => "wrong object kind: "@ + s,
        ErrorView::AccessDenied(s) => "access denied by device: "@ + s,
        ErrorView::StorageFull(s) => "device storage is full: "@ + s,
        ErrorView::Busy(s) => "device busy: "@ + s,
        ErrorView::Unsupported(s) => "unsupported by device: "@ + s,
        ErrorView::ExclusiveAccess => "device is held exclusively by another process"@,
        ErrorView::Io(s) => "io: "@ + s,
        ErrorView::ActorClosed => "device actor is not running"@,
        ErrorView::Disconnected => "device disconnected"@,
        ErrorView::SessionReset => "device session was reset; reopen the device"@,
        ErrorView::Timeout => "device operation timed out"@,
    }
}

fn labelled(label: &str, detail: &String) -> (r: String)
    ensures
        r@ == label@ + detail@,
{
    let mut out = owned(label);
    out.push_str(detail.as_str());
    out
}

impl Error {
    /// Builds [`Error::Mtp`] from the text of an MTP failure.
    pub fn mtp_msg(msg: &str) -> (r: Self)
        ensures
            r@ == ErrorView::Mtp(msg@),
    {
        Error::Mtp(owned(msg))
    }

    /// True when the operation may succeed if it is tried again unchanged.
    #[must_use]
    pub fn is_retryable(&self) -> (r: bool)
        ensures
            r == (self@ is Busy || self@ is Timeout),
    {
        match self {
            Error::Busy(_) => true,
            Error::Timeout => true,
            _ => false,
        }
    }

    /// True when the USB link itself is gone.
    #[must_use]
    pub fn is_disconnect(&self) -> (r: bool)
        ensures
            r == (self@ is Disconnected),
    {
        match self {
            Error::Disconnected => true,
            _ => false,
        }
    }

    /// True when the handle can be recovered by resolving the name again.
    #[must_use]
    pub fn is_stale(&self) -> (r: bool)
        ensures
            r == (self@ is StaleHandle),
    {
        match self {
            Error::StaleHandle(_) => true,
            _ => false,
        }
    }

    /// The text shown to the user.
    pub fn to_string(&self) -> (r: String)
        ensures
            r@ == error_text(self@),
    {
        match self {
            Error::Mtp(s) => labelled("mtp: ", s),
            Error::NotFound(s) => labelled("not found on device: ", s),
            Error::StaleHandle(s) => labelled(
                "stale object handle (device re-keyed it; re-list and retry): ",
                s,
            ),
            Error::InvalidArgument(s) => labelled("invalid argument: ", s),
            Error::WrongKind(s) => labelled("wrong object kind: ", s),
            Error::AccessDenied(s) => labelled("access denied by device: ", s),
            Error::StorageFull(s) => labelled("device storage is full: ", s),
            Error::Busy(s) => labelled("device busy: ", s),
            Error::Unsupported(s) => labelled("unsupported by device: ", s),
            Error::ExclusiveAccess => owned("device is held exclusively by another process"),
            Error::Io(s) => labelled("io: ", s),
            Error::ActorClosed => owned("device actor is not running"),
            Error::Disconnected => owned("device disconnected"),
            Error::SessionReset => owned("device session was reset; reopen the device"),
            Error::Timeout => owned("device operation timed out"),
        }
    }
}

impl Clone for Error {
    fn clone(&self) -> (r: Self)
        ensures
            r == *self,
    {
        match self {
            Error::Mtp(s) => Error::Mtp(s.clone()),
            Error::NotFound(s) => Error::NotFound(s.clone()),
            Error::StaleHandle(s) => Error::StaleHandle(s.clone()),
            Error::InvalidArgument(s) => Error::InvalidArgument(s.clone()),
            Error::WrongKind(s) => Error::WrongKind(s.clone()),
            Error::AccessDenied(s) => Error::AccessDenied(s.clone()),
            Error::StorageFull(s) => Error::StorageFull(s.clone()),
            Error::Busy(s) => Error::Busy(s.clone()),
            Error::Unsupported(s) => Error::Unsupported(s.clone()),
            Error::ExclusiveAccess => Error::ExclusiveAccess,
            Error::Io(s) => Error::Io(s.clone()),
            Error::ActorClosed => Error::ActorClosed,
            Error::Disconnected => Error::Disconnected,
            Error::SessionReset => Error::SessionReset,
            Error::Timeout => Error::Timeout,
        }
    }
}

/// Convenience alias used across the library.
pub type Result<T> = std::result::Result<T, Error>;

// ---------------------------------------------------------------------------
// Failures of the MTP library
// ---------------------------------------------------------------------------

/// The error type of the MTP library.
#[verifier::external_type_specification]
#[verifier::external_body]
pub struct ExMtpError(LibraryError);

/// A failure of the MTP library as plain values: its variant where the session
/// reacts to it, and the text of every other one.
#[derive(Debug)]
pub enum MtpFailure {
    NotFound,
    StaleHandle,
    AccessDenied,
    StorageFull,
    Busy,
    Unsupported,
    ExclusiveAccess,
    Disconnected,
    DeviceReset,
    Timeout,
    Other(String),
}

/// What an [`MtpFailure`] says.
pub enum MtpFailureView {
    NotFound,
    StaleHandle,
    AccessDenied,
    StorageFull,
    Busy,
    Unsupported,
    ExclusiveAccess,
    Disconnected,
    DeviceReset,
    Timeout,
    Other(Seq<char>),
}

impl View for MtpFailure {
    type V = MtpFailureView;

    open spec fn view(&self) -> MtpFailureView {
        match *self {
            MtpFailure::NotFound => MtpFailureView::NotFound,
            MtpFailure::StaleHandle => MtpFailureView::StaleHandle,
            MtpFailure::AccessDenied => MtpFailureView::AccessDenied,
            MtpFailure::StorageFull => MtpFailureView::StorageFull,
            MtpFailure::Busy => MtpFailureView::Busy,
            MtpFailure::Unsupported => MtpFailureView::Unsupported,
            MtpFailure::ExclusiveAccess => MtpFailureView::ExclusiveAccess,
            MtpFailure::Disconnected => MtpFailureView::Disconnected,
            MtpFailure::DeviceReset => MtpFailureView::DeviceReset,
            MtpFailure::Timeout => MtpFailureView::Timeout,
            MtpFailure::Other(s) => MtpFailureView::Other(s@),
        }
    }
}

/// The variant of an error of the MTP library, or its text.
pub uninterp spec fn mtp_failure_of(e: LibraryError) -> MtpFailureView;

/// Reads the variant of an `mtp_rs::Error`. The variants that carry no data
/// and have a counterpart in [`MtpFailure`] are handed on as that counterpart;
/// every other one as the text that `mtp_rs::Error` prints.
#[verifier::external_body]
fn mtp_failure(e: LibraryError) -> (r: MtpFailure)
    ensures
        r@ == mtp_failure_of(e),
{
    match e {
        LibraryError::NotFound => MtpFailure::NotFound,
        LibraryError::StaleHandle => MtpFailure::StaleHandle,
        LibraryError::AccessDenied => MtpFailure::AccessDenied,
        LibraryError::StorageFull => MtpFailure::StorageFull,
        LibraryError::Busy => MtpFailure::Busy,
        LibraryError::Unsupported => MtpFailure::Unsupported,
        LibraryError::ExclusiveAccess => MtpFailure::ExclusiveAccess,
        LibraryError::Disconnected => MtpFailure::Disconnected,
        LibraryError::DeviceReset => MtpFailure::DeviceReset,
        LibraryError::Timeout => MtpFailure::Timeout,
        other => MtpFailure::Other(other.to_string()),
    }
}

/// The error that stands for a failure of the MTP library.
pub open spec fn failure_error(f: MtpFailureView) -> ErrorView {
    match f {
        MtpFailureView::NotFound => ErrorView::NotFound(Seq::empty()),
        MtpFailureView::StaleHandle => ErrorView::StaleHandle(Seq::empty()),
        MtpFailureView::AccessDenied => ErrorView::AccessDenied(Seq::empty()),
        MtpFailureView::StorageFull => ErrorView::StorageFull(Seq::empty()),
        MtpFailureView::Busy => ErrorView::Busy(Seq::empty()),
        MtpFailureView::Unsupported => ErrorView::Unsupported(Seq::empty()),
        MtpFailureView::ExclusiveAccess => ErrorView::ExclusiveAccess,
        MtpFailureView::Disconnected => ErrorView::Disconnected,
        MtpFailureView::DeviceReset => ErrorView::SessionReset,
        MtpFailureView::Timeout => ErrorView::Timeout,
        MtpFailureView::Other(s) => ErrorView::Mtp(s),
    }
}

impl MtpFailure {
    /// The error that stands for this failure. A re-keyed handle and a reset
    /// session are not a lost connection.
    pub fn into_error(self) -> (r: Error)
        ensures
            r@ == failure_error(self@),
    {
        match self {
            MtpFailure::NotFound => Error::NotFound(String::new()),
            MtpFailure::StaleHandle => Error::StaleHandle(String::new()),
            MtpFailure::AccessDenied => Error::AccessDenied(String::new()),
            MtpFailure::StorageFull => Error::StorageFull(String::new()),
            MtpFailure::Busy => Error::Busy(String::new()),
            MtpFailure::Unsupported => Error::Unsupported(String::new()),
            MtpFailure::ExclusiveAccess => Error::ExclusiveAccess,
            MtpFailure::Disconnected => Error::Disconnected,
            MtpFailure::DeviceReset => Error::SessionReset,
            MtpFailure::Timeout => Error::Timeout,
            MtpFailure::Other(s) => Error::Mtp(s),
        }
    }
}

impl From<LibraryError> for Error {
    fn from(e: LibraryError) -> (r: Self)
        ensures
            r@ == failure_error(mtp_failure_of(e)),
    {
        mtp_failure(e).into_error()
    }
}

/// The contract of `from` stands at the function itself: it speaks of the view
/// of the result.
impl vstd::std_specs::convert::FromSpecImpl<LibraryError> for Error {
    open spec fn obeys_from_spec() -> bool {
        false
    }

    open spec fn from_spec(e: LibraryError) -> Self {
        arbitrary()
    }
}

/// A re-keyed handle, a lost connection, a reset session and a passing failure
/// are four different things: no failure counts as two of them.
pub proof fn law_reactions_are_disjoint(f: MtpFailureView)
    ensures
        failure_error(f) is StaleHandle <==> f is StaleHandle,
        failure_error(f) is Disconnected <==> f is Disconnected,
        failure_error(f) is SessionReset <==> f is DeviceReset,
        (failure_error(f) is Busy || failure_error(f) is Timeout) <==> (f is Busy || f is Timeout),
        failure_error(f) is StorageFull <==> f is StorageFull,
        failure_error(f) is NotFound <==> f is NotFound,
{
}

/// What a failure is turned into keeps its kind; one without a counterpart keeps
/// its text.
pub proof fn law_failures_keep_their_kind(f: MtpFailureView)
    ensures
        failure_error(f) is AccessDenied <==> f is AccessDenied,
        failure_error(f) is Busy <==> f is Busy,
        failure_error(f) is Timeout <==> f is Timeout,
        failure_error(f) is Unsupported <==> f is Unsupported,
        failure_error(f) is ExclusiveAccess <==> f is ExclusiveAccess,
        failure_error(f) is Mtp <==> f is Other,
        f matches MtpFailureView::Other(s) ==> failure_error(f) == ErrorView::Mtp(s),
{
}

/// The text of an error says what went wrong, and ends with what it went wrong
/// with.
pub proof fn law_error_text_ends_with_its_detail(s: Seq<char>)
    ensures
        error_text(ErrorView::Mtp(s)) == "mtp: "@ + s,
        error_text(ErrorView::NotFound(s)) == "not found on device: "@ + s,
        error_text(ErrorView::StaleHandle(s))
            == "stale object handle (device re-keyed it; re-list and retry): "@ + s,
        error_text(ErrorView::InvalidArgument(s)) == "invalid argument: "@ + s,
        error_text(ErrorView::WrongKind(s)) == "wrong object kind: "@ + s,
        error_text(ErrorView::AccessDenied(s)) == "access denied by device: "@ + s,
        error_text(ErrorView::StorageFull(s)) == "device storage is full: "@ + s,
        error_text(ErrorView::Busy(s)) == "device busy: "@ + s,
        error_text(ErrorView::Unsupported(s)) == "unsupported by device: "@ + s,
        error_text(ErrorView::Io(s)) == "io: "@ + s,
{
}

} // verus!
