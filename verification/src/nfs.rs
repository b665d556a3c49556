//! NFS statuses, file attributes and the generation of file handles.

use vstd::prelude::*;

use crate::error::{Error, ErrorView};

verus! {

/// An NFSv3 status other than success.
#[derive(Debug, Clone, Copy, PartialEq, Eq, Structural)]
pub enum NfsStat {
    Noent,
    Io,
    Acces,
    Exist,
    Notdir,
    Isdir,
    Inval,
    Nospc,
    Rofs,
    Stale,
    Badhandle,
    Notsupp,
}

/// The status for an error of the session.
pub open spec fn status_of(e: ErrorView) -> NfsStat {
    match e {
        ErrorView::NotFound(_) => NfsStat::Noent,
        ErrorView::StaleHandle(_) => NfsStat::Stale,
        ErrorView::AccessDenied(_) => NfsStat::Acces,
        ErrorView::StorageFull(_) => NfsStat::Nospc,
        ErrorView::Unsupported(_) => NfsStat::Notsupp,
        ErrorView::InvalidArgument(_) => NfsStat::Inval,
        ErrorView::WrongKind(_) => NfsStat::Notdir,
        _ => NfsStat::Io,
    }
}

/// Maps an error of the session onto a status.
///
/// Each condition has its own: the kernel forgets the handle on `Stale`, tells
/// the user on `Acces` and `Nospc`, and gives up the request on `Io`, which
/// stands for everything that may pass.
pub fn nfserr(e: &Error) -> (r: NfsStat)
    ensures
        r == status_of(e@),
{
    match e {
        Error::NotFound(_) => NfsStat::Noent,
        Error::StaleHandle(_) => NfsStat::Stale,
        Error::AccessDenied(_) => NfsStat::Acces,
        Error::StorageFull(_) => NfsStat::Nospc,
        Error::Unsupported(_) => NfsStat::Notsupp,
        Error::InvalidArgument(_) => NfsStat::Inval,
        Error::WrongKind(_) => NfsStat::Notdir,
        _ => NfsStat::Io,
    }
}

/// Attributes of a file of the volume.
#[derive(Debug, Clone, Copy, PartialEq, Eq, Structural)]
pub struct Attr {
    pub is_dir: bool,
    pub mode: u32,
    pub nlink: u32,
    pub uid: u32,
    pub gid: u32,
    pub size: u64,
    /// The space taken: the size in whole blocks of 512 bytes.
    pub used: u64,
    pub fsid: u64,
    pub fileid: u64,
    /// The time of the last access, change and modification.
    pub seconds: u32,
}

/// The size in whole blocks; the greatest number when that does not fit.
pub open spec fn in_blocks(size: u64) -> u64 {
    let n = (size + 511) / 512 * 512;
    if n > u64::MAX {
        u64::MAX
    } else {
        n as u64
    }
}

/// The attributes of the file `id`.
pub open spec fn attr_of(id: u64, is_dir: bool, size: u64, epoch: u32) -> Attr {
    Attr {
        is_dir,
        mode: if is_dir {
            0o755
        } else {
            0o644
        },
        nlink: if is_dir {
            2
        } else {
            1
        },
        uid: 501,
        gid: 20,
        size,
        used: in_blocks(size),
        fsid: 0x5045_5245,
        fileid: id,
        seconds: epoch,
    }
}

/// The attributes of the file `id`.
pub fn attr_for(id: u64, is_dir: bool, size: u64, epoch: u32) -> (r: Attr)
    ensures
        r == attr_of(id, is_dir, size, epoch),
{
    let rest: u64 = size % 512;
    let used: u64 = if rest == 0 {
        size
    } else {
        size.saturating_add(512 - rest)
    };
    Attr {
        is_dir,
        mode: if is_dir {
            0o755
        } else {
            0o644
        },
        nlink: if is_dir {
            2
        } else {
            1
        },
        uid: 501,
        gid: 20,
        size,
        used,
        fsid: 0x5045_5245,
        fileid: id,
        seconds: epoch,
    }
}

/// What tells two processes apart that started in the same second.
pub open spec fn epoch_tag(pid: u32, nanos: u32) -> u32 {
    ((pid * 2_654_435_761 + nanos) % 0x1_0000_0000) as u32 | 1u32
}

/// Mixes a process id and the fraction of the second at which the process
/// started. The tag is never zero.
pub fn process_epoch_tag(pid: u32, nanos: u32) -> (r: u32)
    ensures
        r == epoch_tag(pid, nanos),
        r % 2 == 1,
{
    let mixed: u64 = (pid as u64) * 2_654_435_761;
    assert(pid * 2_654_435_761 <= 0xffff_ffff * 2_654_435_761) by (nonlinear_arith)
        requires
            pid <= 0xffff_ffff,
    ;
    let low: u64 = mixed % 0x1_0000_0000;
    let sum: u32 = ((low + nanos as u64) % 0x1_0000_0000) as u32;
    assert(sum == (pid * 2_654_435_761 + nanos) % 0x1_0000_0000) by {
        vstd::arithmetic::div_mod::lemma_add_mod_noop(
            pid * 2_654_435_761,
            nanos as int,
            0x1_0000_0000,
        );
        vstd::arithmetic::div_mod::lemma_add_mod_noop(low as int, nanos as int, 0x1_0000_0000);
        vstd::arithmetic::div_mod::lemma_mod_twice(pid * 2_654_435_761, 0x1_0000_0000);
    }
    let r: u32 = sum | 1u32;
    assert(r % 2 == 1) by (bit_vector)
        requires
            r == sum | 1u32,
    ;
    r
}

/// The generation of the file handles of a volume: the second at which it was
/// made, and the tag of its process.
pub fn generation_of(epoch: u32, tag: u32) -> (r: u64)
    ensures
        r == epoch * 0x1_0000_0000 + tag,
{
    let e: u64 = epoch as u64;
    let t: u64 = tag as u64;
    assert((e << 32u64) | t == e * 0x1_0000_0000 + t) by (bit_vector)
        requires
            e <= 0xffff_ffffu64,
            t <= 0xffff_ffffu64,
    ;
    (e << 32u64) | t
}

/// Two volumes have the same generation only when both their seconds and their
/// tags are the same.
pub proof fn law_generations_tell_processes_apart(e: u32, t: u32, f: u32, u: u32)
    requires
        e * 0x1_0000_0000 + t == f * 0x1_0000_0000 + u,
    ensures
        e == f && t == u,
{
}

/// How a probe of the session ended.
#[derive(Debug)]
pub enum Ping {
    Answered,
    Failed(Error),
    /// No answer within the time limit.
    TimedOut,
}

/// True when the session is worth keeping after a probe: it answered, is slow
/// or busy, or had a handle re-keyed. Any other failure ends it.
pub fn keeps_session(ping: &Ping) -> (r: bool)
    ensures
        r == match *ping {
            Ping::Answered => true,
            Ping::TimedOut => true,
            Ping::Failed(e) => e@ is Busy || e@ is Timeout || e@ is StaleHandle,
        },
{
    match ping {
        Ping::Answered => true,
        Ping::TimedOut => true,
        Ping::Failed(e) => e.is_retryable() || e.is_stale(),
    }
}

/// Each condition has a status of its own, whatever the text of the error; what
/// has none is an input or output error.
pub proof fn law_conditions_have_their_status(e: ErrorView)
    ensures
        status_of(e) == NfsStat::Noent <==> e is NotFound,
        status_of(e) == NfsStat::Stale <==> e is StaleHandle,
        status_of(e) == NfsStat::Acces <==> e is AccessDenied,
        status_of(e) == NfsStat::Nospc <==> e is StorageFull,
        status_of(e) == NfsStat::Notsupp <==> e is Unsupported,
        status_of(e) == NfsStat::Inval <==> e is InvalidArgument,
        status_of(e) == NfsStat::Notdir <==> e is WrongKind,
        status_of(e) == NfsStat::Io <==> (e is Mtp || e is Busy || e is ExclusiveAccess || e is Io
            || e is ActorClosed || e is Disconnected || e is SessionReset || e is Timeout),
{
}

/// The attributes tell of the file they are asked for: which it is, how long,
/// and of what kind. Only its owner may write to it, anyone may read it, and
/// anyone may search a directory. The space taken is the least number of whole
/// blocks with room for the length, as far as such a number can be told.
pub proof fn law_attributes_tell_of_the_file(id: u64, is_dir: bool, size: u64, epoch: u32)
    ensures
        ({
            let a = attr_of(id, is_dir, size, epoch);
            &&& a.fileid == id
            &&& a.is_dir == is_dir
            &&& a.size == size
            &&& a.seconds == epoch
            &&& a.mode == if is_dir {
                0o755u32
            } else {
                0o644u32
            }
            &&& a.nlink == if is_dir {
                2u32
            } else {
                1u32
            }
            &&& a.uid == 501 && a.gid == 20
            &&& size <= a.used
            &&& a.used % 512 == 0 || a.used == u64::MAX
            &&& a.used < size + 512
        }),
{
}

} // verus!
