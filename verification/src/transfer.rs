//! Transfers of single files: what may be transferred, and when a transfer is
//! complete.

use vstd::prelude::*;

use crate::error::{Error, ErrorView, Result};
use crate::model::{Progress, Resolved, ROOT};
use crate::text::{chars_of, dec, has_char, owned, push_dec};

verus! {

/// How many bytes of a local file are read at a time for an upload.
pub const UPLOAD_CHUNK: usize = 262_144;

impl Progress {
    /// A transfer of `total` bytes that has not begun.
    pub fn start(total: u64) -> (r: Self)
        ensures
            r == (Progress { total, done: 0 }),
    {
        Progress { total, done: 0 }
    }

    /// After `n` more bytes.
    pub fn advanced(self, n: u64) -> (r: Self)
        ensures
            r == (Progress { total: self.total, done: self.done.saturating_add(n) }),
    {
        Progress { total: self.total, done: self.done.saturating_add(n) }
    }

    /// What a download that has ended gives: its bytes, or the error of one
    /// that fell short of what the device had announced, or went beyond it.
    pub fn delivered(&self) -> (r: Result<u64>)
        ensures
            match r {
                Ok(n) => n == self.done && self.done == self.total,
                Err(e) => self.done != self.total && e@ == ErrorView::Mtp(
                    "download delivered "@ + dec(self.done as nat) + " of "@ + dec(
                        self.total as nat,
                    ) + " bytes"@,
                ),
            },
    {
        if self.done == self.total {
            return Ok(self.done);
        }
        let mut s = owned("download delivered ");
        push_dec(&mut s, self.done);
        s.push_str(" of ");
        push_dec(&mut s, self.total);
        s.push_str(" bytes");
        Err(Error::Mtp(s))
    }
}

/// Refuses to download a directory.
pub fn check_download(path: &str, target: &Resolved) -> (r: Result<()>)
    ensures
        match r {
            Ok(_) => !target.entry.is_dir,
            Err(e) => target.entry.is_dir && e@ == ErrorView::WrongKind(
                path@ + " is a directory (pull trees via ops::pull_tree)"@,
            ),
        },
{
    if target.entry.is_dir {
        let mut s = owned(path);
        s.push_str(" is a directory (pull trees via ops::pull_tree)");
        return Err(Error::WrongKind(s));
    }
    Ok(())
}

/// Refuses to upload into a file, or under a name with a slash.
pub fn check_upload(parent_path: &str, parent: &Resolved, name: &str) -> (r: Result<()>)
    ensures
        match r {
            Ok(_) => (parent.entry.is_dir || parent.handle == ROOT) && !name@.contains('/'),
            Err(e) => if !parent.entry.is_dir && parent.handle != ROOT {
                e@ == ErrorView::WrongKind(parent_path@ + " is not a directory"@)
            } else {
                name@.contains('/') && e@ == ErrorView::InvalidArgument(
                    "name must not contain '/': "@ + name@,
                )
            },
        },
{
    if !parent.entry.is_dir && parent.handle != ROOT {
        let mut s = owned(parent_path);
        s.push_str(" is not a directory");
        return Err(Error::WrongKind(s));
    }
    if has_char(&chars_of(name), '/') {
        let mut s = owned("name must not contain '/': ");
        s.push_str(name);
        return Err(Error::InvalidArgument(s));
    }
    Ok(())
}

/// The progress of a transfer that goes through the given pieces.
pub open spec fn progress_after(p: Progress, pieces: Seq<u64>) -> Progress
    decreases pieces.len(),
{
    if pieces.len() == 0 {
        p
    } else {
        let q = progress_after(p, pieces.drop_last());
        Progress { total: q.total, done: q.done.saturating_add(pieces.last()) }
    }
}

/// The sum of the pieces.
pub open spec fn sum_of(pieces: Seq<u64>) -> nat
    decreases pieces.len(),
{
    if pieces.len() == 0 {
        0
    } else {
        sum_of(pieces.drop_last()) + pieces.last() as nat
    }
}

/// A download counts as complete exactly when its pieces add up to what the
/// device had announced.
pub proof fn law_short_download_is_an_error(total: u64, pieces: Seq<u64>)
    requires
        sum_of(pieces) <= u64::MAX,
    ensures
        ({
            let p = progress_after(Progress { total, done: 0 }, pieces);
            p.total == total && (p.done == p.total <==> sum_of(pieces) == total as nat)
        }),
        progress_after(Progress { total, done: 0 }, pieces).done as nat == sum_of(pieces),
    decreases pieces.len(),
{
    if pieces.len() > 0 {
        law_short_download_is_an_error(total, pieces.drop_last());
    }
}

} // verus!
