//! Bundles: a directory tree as one `.tar.zst` object on the device.
//!
//! What goes into an archive, what may come out of one, and how an extracted
//! tree takes the place of an older one.

use vstd::prelude::*;

use crate::format::{
    bytes_text, human_bytes, ratio_digits, ratio_text, secs_digits, secs_text,
};
use crate::text::{
    chars_of, dec, drop_end_slashes, last_index, lemma_last_slash, lossy_of, lossy_text,
    no_end_slash, owned, push_dec, rfind_char, string_of, sub_chars,
};

verus! {

/// What a bundle transfer did.
#[derive(Debug, Clone, Copy)]
pub struct BundleStats {
    /// Files packed or unpacked.
    pub files: u32,
    /// Directories seen.
    pub dirs: u32,
    /// Payload bytes before compression.
    pub raw_bytes: u64,
    /// Bytes of the archive.
    pub packed_bytes: u64,
    /// Archive entries that were left out: links and special files.
    pub skipped: u64,
    /// Time from start to end.
    pub elapsed_ms: u128,
}

/// What is said of a tree that was packed.
pub open spec fn packed_text(s: BundleStats) -> Seq<char> {
    let packed = if s.packed_bytes == 0 {
        1
    } else {
        s.packed_bytes as nat
    };
    "packed "@ + dec(s.files as nat) + " file(s), "@ + dec(s.dirs as nat) + " dir(s), "@ + bytes_text(
        s.raw_bytes as nat,
    ) + " -> "@ + bytes_text(s.packed_bytes as nat) + " ("@ + ratio_digits(
        s.raw_bytes as nat,
        packed,
    ) + "x smaller) in "@ + secs_digits(s.elapsed_ms as nat) + "s"@
}

/// What is said of a tree that was extracted into `dest`.
pub open spec fn extracted_text(s: BundleStats, dest: Seq<char>) -> Seq<char> {
    "extracted "@ + dec(s.files as nat) + " file(s) "@ + bytes_text(s.raw_bytes as nat)
        + " (from "@ + bytes_text(s.packed_bytes as nat) + ") into "@ + dest + " in "@ + secs_digits(
        s.elapsed_ms as nat,
    ) + "s"@
}

/// What is said of entries that were left out.
pub open spec fn skipped_text(skipped: u64) -> Option<Seq<char>> {
    if skipped == 0 {
        None
    } else {
        Some(
            "warning: "@ + dec(skipped as nat)
                + " item(s) skipped (links and special files are not extracted)"@,
        )
    }
}

impl BundleStats {
    /// What is said of entries that were left out, when there are any.
    pub fn skipped_line(&self) -> (r: Option<String>)
        ensures
            match r {
                Some(t) => skipped_text(self.skipped) == Some(t@),
                None => skipped_text(self.skipped) is None,
            },
    {
        if self.skipped == 0 {
            return None;
        }
        let mut s = owned("warning: ");
        push_dec(&mut s, self.skipped);
        s.push_str(" item(s) skipped (links and special files are not extracted)");
        Some(s)
    }

    /// What is said of a tree that was packed.
    pub fn packed_line(&self) -> (r: String)
        ensures
            r@ == packed_text(*self),
    {
        let packed = if self.packed_bytes == 0 {
            1
        } else {
            self.packed_bytes
        };
        let mut s = owned("packed ");
        push_dec(&mut s, self.files as u64);
        s.push_str(" file(s), ");
        push_dec(&mut s, self.dirs as u64);
        s.push_str(" dir(s), ");
        s.push_str(human_bytes(self.raw_bytes).as_str());
        s.push_str(" -> ");
        s.push_str(human_bytes(self.packed_bytes).as_str());
        s.push_str(" (");
        s.push_str(ratio_text(self.raw_bytes, packed).as_str());
        s.push_str("x smaller) in ");
        s.push_str(secs_text(self.elapsed_ms).as_str());
        s.push_str("s");
        s
    }

    /// What is said of a tree that was extracted into `dest`.
    pub fn extracted_line(&self, dest: &str) -> (r: String)
        ensures
            r@ == extracted_text(*self, dest@),
    {
        let mut s = owned("extracted ");
        push_dec(&mut s, self.files as u64);
        s.push_str(" file(s) ");
        s.push_str(human_bytes(self.raw_bytes).as_str());
        s.push_str(" (from ");
        s.push_str(human_bytes(self.packed_bytes).as_str());
        s.push_str(") into ");
        s.push_str(dest);
        s.push_str(" in ");
        s.push_str(secs_text(self.elapsed_ms).as_str());
        s.push_str("s");
        s
    }
}

// ---------------------------------------------------------------------------
// Names
// ---------------------------------------------------------------------------

/// The name of the archive of a directory.
pub fn archive_name(name: &str) -> (r: String)
    ensures
        r@ == name@ + ".tar.zst"@,
{
    let mut s = owned(name);
    s.push_str(".tar.zst");
    s
}

/// The last part of a device path, slashes at its end aside.
pub open spec fn last_part(remote: Seq<char>) -> Seq<char> {
    let t = no_end_slash(remote);
    match last_index(t, '/') {
        Some(i) => t.skip(i + 1),
        None => t,
    }
}

/// The last part of a device path, slashes at its end aside.
pub fn last_part_of(remote: &str) -> (r: String)
    ensures
        r@ == last_part(remote@),
{
    let t = drop_end_slashes(&chars_of(remote));
    match rfind_char(&t, '/') {
        Some(i) => {
            let n = t.len();
            let v = sub_chars(&t, i + 1, n);
            assert(v@ =~= t@.skip(i + 1));
            string_of(&v)
        },
        None => string_of(&t),
    }
}

/// The name of the local file through which an archive passes.
pub fn staging_name(pid: u32, name: &str) -> (r: String)
    ensures
        r@ == "pereprava-stage-"@ + dec(pid as nat) + "-"@ + name@,
{
    let mut s = owned("pereprava-stage-");
    push_dec(&mut s, pid as u64);
    s.push_str("-");
    s.push_str(name);
    s
}

/// The refusal to overwrite an archive.
pub fn archive_exists(target: &str) -> (r: String)
    ensures
        r@ == target@ + " already exists on device"@,
{
    let mut s = owned(target);
    s.push_str(" already exists on device");
    s
}

// ---------------------------------------------------------------------------
// Extraction
// ---------------------------------------------------------------------------

/// How many files and directories may come out of one archive.
pub const MAX_ENTRIES: u64 = 2_000_000;

/// How many bytes may come out of one archive: 64 GiB.
pub const MAX_BYTES: u64 = 68_719_476_736;

/// True when `..` is a component of the path: it stands between two ends, each
/// of which is a slash or an end of the path.
pub open spec fn climbs(path: Seq<u8>) -> bool {
    exists|i: int| parent_at(path, i)
}

/// True when the two bytes at `i` are a component `..`.
pub open spec fn parent_at(path: Seq<u8>, i: int) -> bool {
    &&& 0 <= i
    &&& i + 2 <= path.len()
    &&& path[i] == 0x2e
    &&& path[i + 1] == 0x2e
    &&& i == 0 || path[i - 1] == 0x2f
    &&& i + 2 == path.len() || path[i + 2] == 0x2f
}

/// True when an archive path may lead out of the directory into which it is
/// extracted: it is absolute, or has a component `..`.
pub open spec fn unsafe_path(path: Seq<u8>) -> bool {
    (path.len() > 0 && path[0] == 0x2f) || climbs(path)
}

/// True when an archive path could escape the extraction directory.
pub fn is_unsafe_archive_path(path: &[u8]) -> (r: bool)
    ensures
        r == unsafe_path(path@),
{
    if path.len() > 0 && path[0] == 0x2f {
        return true;
    }
    let mut i: usize = 0;
    while i < path.len()
        invariant
            i <= path.len(),
            forall|j: int| 0 <= j < i ==> !#[trigger] parent_at(path@, j),
        decreases path.len() - i,
    {
        if path.len() - i >= 2 && path[i] == 0x2e && path[i + 1] == 0x2e && (i == 0 || path[i - 1]
            == 0x2f) && (path.len() - i == 2 || path[i + 2] == 0x2f) {
            assert(parent_at(path@, i as int));
            return true;
        }
        assert(!parent_at(path@, i as int));
        i = i + 1;
    }
    assert forall|j: int| !#[trigger] parent_at(path@, j) by {}
    false
}

/// What an archive entry is.
#[derive(Debug, Clone, Copy, PartialEq, Eq, Structural)]
pub enum ArchiveKind {
    /// A directory.
    Directory,
    /// A regular file.
    Regular,
    /// Something that does not belong into a bundle.
    Other,
}

/// What is done with an archive entry.
#[derive(Debug)]
pub enum Verdict {
    /// It is left out.
    Skip,
    /// It is extracted.
    Extract,
    /// The archive is refused.
    Refuse(String),
}

/// The view of a [`Verdict`].
pub enum VerdictView {
    Skip,
    Extract,
    Refuse(Seq<char>),
}

impl View for Verdict {
    type V = VerdictView;

    open spec fn view(&self) -> VerdictView {
        match self {
            Verdict::Skip => VerdictView::Skip,
            Verdict::Extract => VerdictView::Extract,
            Verdict::Refuse(t) => VerdictView::Refuse(t@),
        }
    }
}

/// What came out of an archive so far.
pub struct Totals {
    /// Files.
    pub files: nat,
    /// Directories.
    pub dirs: nat,
    /// Bytes of the files.
    pub bytes: nat,
    /// Entries that were left out.
    pub skipped: u64,
}

impl Totals {
    /// True when the totals are within the limits.
    pub open spec fn bounded(self) -> bool {
        self.files + self.dirs <= MAX_ENTRIES && self.bytes <= MAX_BYTES
    }
}

/// What is done with an entry, and the totals behind it. A refusal changes
/// nothing.
pub open spec fn judged(t: Totals, path: Seq<u8>, kind: ArchiveKind, size: u64) -> (
    Totals,
    VerdictView,
) {
    if unsafe_path(path) {
        (t, VerdictView::Refuse("unsafe path in archive: "@ + lossy_of(path)))
    } else if kind == ArchiveKind::Other {
        (Totals { skipped: t.skipped.saturating_add(1), ..t }, VerdictView::Skip)
    } else {
        let u = if kind == ArchiveKind::Directory {
            Totals { dirs: t.dirs + 1, ..t }
        } else {
            Totals { files: t.files + 1, bytes: t.bytes + size as nat, ..t }
        };
        if u.bytes > MAX_BYTES {
            (t, VerdictView::Refuse("archive expands beyond the size limit"@))
        } else if u.files + u.dirs > MAX_ENTRIES {
            (t, VerdictView::Refuse("archive has too many entries"@))
        } else {
            (u, VerdictView::Extract)
        }
    }
}

/// The extraction of an archive, entry by entry.
#[derive(Debug)]
pub struct Unpack {
    files: u32,
    dirs: u32,
    raw: u64,
    skipped: u64,
}

impl View for Unpack {
    type V = Totals;

    closed spec fn view(&self) -> Totals {
        Totals {
            files: self.files as nat,
            dirs: self.dirs as nat,
            bytes: self.raw as nat,
            skipped: self.skipped,
        }
    }
}

impl Unpack {
    #[verifier::type_invariant]
    spec fn within(self) -> bool {
        self.files + self.dirs <= MAX_ENTRIES && self.raw <= MAX_BYTES
    }

    /// Starts with nothing.
    pub fn new() -> (r: Self)
        ensures
            r@ == (Totals { files: 0, dirs: 0, bytes: 0, skipped: 0 }),
    {
        Unpack { files: 0, dirs: 0, raw: 0, skipped: 0 }
    }

    /// The files, the directories and the bytes that came out so far.
    pub fn totals(&self) -> (r: (u32, u32, u64))
        ensures
            r.0 as nat == self@.files,
            r.1 as nat == self@.dirs,
            r.2 as nat == self@.bytes,
            self@.bounded(),
    {
        proof {
            use_type_invariant(self);
        }
        (self.files, self.dirs, self.raw)
    }

    /// The entries that were left out so far.
    pub fn skipped(&self) -> (r: u64)
        ensures
            r == self@.skipped,
    {
        self.skipped
    }

    /// Judges the next entry.
    pub fn entry(&mut self, path: &[u8], kind: ArchiveKind, size: u64) -> (r: Verdict)
        ensures
            (final(self)@, r@) == judged(old(self)@, path@, kind, size),
    {
        proof {
            use_type_invariant(&*self);
        }
        if is_unsafe_archive_path(path) {
            let mut s = owned("unsafe path in archive: ");
            s.push_str(lossy_text(path).as_str());
            return Verdict::Refuse(s);
        }
        let mut files = self.files;
        let mut dirs = self.dirs;
        let mut raw = self.raw;
        match kind {
            ArchiveKind::Other => {
                let skipped = self.skipped.saturating_add(1);
                *self = Unpack { files, dirs, raw, skipped };
                return Verdict::Skip;
            },
            ArchiveKind::Directory => {
                dirs = dirs + 1;
            },
            ArchiveKind::Regular => {
                files = files + 1;
                raw = raw.saturating_add(size);
                if raw > MAX_BYTES {
                    return Verdict::Refuse(owned("archive expands beyond the size limit"));
                }
            },
        }
        if files as u64 + dirs as u64 > MAX_ENTRIES {
            return Verdict::Refuse(owned("archive has too many entries"));
        }
        *self = Unpack { files, dirs, raw, skipped: self.skipped };
        Verdict::Extract
    }
}

/// An entry of an archive.
pub struct ArchiveEntry {
    /// Its path.
    pub path: Seq<u8>,
    /// What it is.
    pub kind: ArchiveKind,
    /// Its size.
    pub size: u64,
}

/// The totals of an archive; none when it is refused.
pub open spec fn unpacked(entries: Seq<ArchiveEntry>) -> Option<Totals>
    decreases entries.len(),
{
    if entries.len() == 0 {
        Some(Totals { files: 0, dirs: 0, bytes: 0, skipped: 0 })
    } else {
        match unpacked(entries.drop_last()) {
            None => None,
            Some(t) => {
                let e = entries.last();
                match judged(t, e.path, e.kind, e.size) {
                    (_, VerdictView::Refuse(_)) => None,
                    (u, _) => Some(u),
                }
            },
        }
    }
}

/// The bytes of the regular files of an archive.
pub open spec fn payload(entries: Seq<ArchiveEntry>) -> nat
    decreases entries.len(),
{
    if entries.len() == 0 {
        0
    } else {
        payload(entries.drop_last()) + if entries.last().kind == ArchiveKind::Regular {
            entries.last().size as nat
        } else {
            0
        }
    }
}

/// The entries of an archive that are neither files nor directories.
pub open spec fn others(entries: Seq<ArchiveEntry>) -> nat
    decreases entries.len(),
{
    if entries.len() == 0 {
        0
    } else {
        others(entries.drop_last()) + if entries.last().kind == ArchiveKind::Other {
            1nat
        } else {
            0
        }
    }
}

/// An archive that is not refused has no path that could lead out of the
/// extraction directory, and what comes out of it is its payload and stays
/// within the limits. What is left out is counted.
pub proof fn law_accepted_archive_is_safe_and_bounded(entries: Seq<ArchiveEntry>)
    requires
        unpacked(entries) is Some,
    ensures
        forall|i: int| 0 <= i < entries.len() ==> !unsafe_path(#[trigger] entries[i].path),
        unpacked(entries)->0.bounded(),
        unpacked(entries)->0.bytes == payload(entries),
        others(entries) <= u64::MAX ==> unpacked(entries)->0.skipped == others(entries),
    decreases entries.len(),
{
    if entries.len() > 0 {
        let d = entries.drop_last();
        law_accepted_archive_is_safe_and_bounded(d);
        assert forall|i: int| 0 <= i < entries.len() implies !unsafe_path(
            #[trigger] entries[i].path,
        ) by {
            if i < d.len() {
                assert(entries[i] == d[i]);
            }
        }
    }
}

/// The extension under which an older tree is set aside.
pub const BACKUP_EXTENSION: &'static str = "pereprava-old";

/// Each move of [`promote_next`].
#[derive(Debug)]
pub enum Promotion {
    /// Remove what is left of an earlier backup, if anything.
    ClearBackup,
    /// See whether the destination exists.
    LookAtDest,
    /// Rename the destination to the backup.
    SetAside,
    /// Rename the extracted tree to the destination.
    Install,
    /// Remove the backup.
    ClearOld,
    /// See whether the backup exists.
    LookAtBackup(String),
    /// Rename the backup to the destination.
    Restore(String),
    /// The tree is in its place.
    Done,
    /// The tree could not be put in its place.
    Failed(String),
}

/// The view of a [`Promotion`].
pub enum PromotionView {
    ClearBackup,
    LookAtDest,
    SetAside,
    Install,
    ClearOld,
    LookAtBackup(Seq<char>),
    Restore(Seq<char>),
    Done,
    Failed(Seq<char>),
}

impl View for Promotion {
    type V = PromotionView;

    open spec fn view(&self) -> PromotionView {
        match self {
            Promotion::ClearBackup => PromotionView::ClearBackup,
            Promotion::LookAtDest => PromotionView::LookAtDest,
            Promotion::SetAside => PromotionView::SetAside,
            Promotion::Install => PromotionView::Install,
            Promotion::ClearOld => PromotionView::ClearOld,
            Promotion::LookAtBackup(e) => PromotionView::LookAtBackup(e@),
            Promotion::Restore(e) => PromotionView::Restore(e@),
            Promotion::Done => PromotionView::Done,
            Promotion::Failed(e) => PromotionView::Failed(e@),
        }
    }
}

/// The move behind `at`, when `at` ended with `r`: what was seen, or the error.
pub open spec fn promoted(at: PromotionView, r: std::result::Result<bool, Seq<char>>) -> PromotionView {
    match at {
        PromotionView::ClearBackup => PromotionView::LookAtDest,
        PromotionView::LookAtDest => if r == Ok::<bool, Seq<char>>(true) {
            PromotionView::SetAside
        } else {
            PromotionView::Install
        },
        PromotionView::SetAside => match r {
            Ok(_) => PromotionView::Install,
            Err(e) => PromotionView::Failed(e),
        },
        PromotionView::Install => match r {
            Ok(_) => PromotionView::ClearOld,
            Err(e) => PromotionView::LookAtBackup(e),
        },
        PromotionView::ClearOld => PromotionView::Done,
        PromotionView::LookAtBackup(e) => if r == Ok::<bool, Seq<char>>(true) {
            PromotionView::Restore(e)
        } else {
            PromotionView::Failed(e)
        },
        PromotionView::Restore(e) => PromotionView::Failed(e),
        PromotionView::Done => PromotionView::Done,
        PromotionView::Failed(e) => PromotionView::Failed(e),
    }
}

/// The move behind `at`, when `at` ended with `r`.
pub fn promote_next(at: Promotion, r: std::result::Result<bool, String>) -> (next: Promotion)
    ensures
        next@ == promoted(at@, seen(r)),
{
    match at {
        Promotion::ClearBackup => Promotion::LookAtDest,
        Promotion::LookAtDest => match r {
            Ok(true) => Promotion::SetAside,
            _ => Promotion::Install,
        },
        Promotion::SetAside => match r {
            Ok(_) => Promotion::Install,
            Err(e) => Promotion::Failed(e),
        },
        Promotion::Install => match r {
            Ok(_) => Promotion::ClearOld,
            Err(e) => Promotion::LookAtBackup(e),
        },
        Promotion::ClearOld => Promotion::Done,
        Promotion::LookAtBackup(e) => match r {
            Ok(true) => Promotion::Restore(e),
            _ => Promotion::Failed(e),
        },
        Promotion::Restore(e) => Promotion::Failed(e),
        Promotion::Done => Promotion::Done,
        Promotion::Failed(e) => Promotion::Failed(e),
    }
}

/// The extraction of an archive into a destination: beside it first, and in its
/// place once all of the archive was extracted.
#[derive(Debug)]
pub enum Unpacking {
    /// Remove what is left at the scratch directory, if anything.
    ClearScratch,
    /// Create the scratch directory.
    MakeScratch,
    /// Extract the archive into the scratch directory.
    Extract,
    /// Put the extracted tree in its place.
    Promote(Promotion),
    /// Remove the scratch directory.
    RemoveScratch(String),
    /// The tree is in its place.
    Done,
    /// The archive could not be extracted.
    Failed(String),
}

/// The view of an [`Unpacking`].
pub enum UnpackingView {
    ClearScratch,
    MakeScratch,
    Extract,
    Promote(PromotionView),
    RemoveScratch(Seq<char>),
    Done,
    Failed(Seq<char>),
}

impl View for Unpacking {
    type V = UnpackingView;

    open spec fn view(&self) -> UnpackingView {
        match self {
            Unpacking::ClearScratch => UnpackingView::ClearScratch,
            Unpacking::MakeScratch => UnpackingView::MakeScratch,
            Unpacking::Extract => UnpackingView::Extract,
            Unpacking::Promote(p) => UnpackingView::Promote(p@),
            Unpacking::RemoveScratch(e) => UnpackingView::RemoveScratch(e@),
            Unpacking::Done => UnpackingView::Done,
            Unpacking::Failed(e) => UnpackingView::Failed(e@),
        }
    }
}

/// The answer to a move, as values.
pub open spec fn seen(r: std::result::Result<bool, String>) -> std::result::Result<bool, Seq<char>> {
    match r {
        Ok(b) => Ok(b),
        Err(e) => Err(e@),
    }
}

/// What follows once a promotion has come to `p`.
pub open spec fn promoting(p: PromotionView) -> UnpackingView {
    match p {
        PromotionView::Done => UnpackingView::Done,
        PromotionView::Failed(e) => UnpackingView::Failed(e),
        _ => UnpackingView::Promote(p),
    }
}

/// The step behind `at`, when `at` ended with `r`.
pub open spec fn unpacking(at: UnpackingView, r: std::result::Result<bool, Seq<char>>) -> UnpackingView {
    match at {
        UnpackingView::ClearScratch => UnpackingView::MakeScratch,
        UnpackingView::MakeScratch => match r {
            Ok(_) => UnpackingView::Extract,
            Err(e) => UnpackingView::Failed(e),
        },
        UnpackingView::Extract => match r {
            Ok(_) => UnpackingView::Promote(PromotionView::ClearBackup),
            Err(e) => UnpackingView::RemoveScratch(e),
        },
        UnpackingView::Promote(p) => promoting(promoted(p, r)),
        UnpackingView::RemoveScratch(e) => UnpackingView::Failed(e),
        UnpackingView::Done => UnpackingView::Done,
        UnpackingView::Failed(e) => UnpackingView::Failed(e),
    }
}

/// The step behind `at`, when `at` ended with `r`.
pub fn unpack_next(at: Unpacking, r: std::result::Result<bool, String>) -> (next: Unpacking)
    ensures
        next@ == unpacking(at@, seen(r)),
{
    match at {
        Unpacking::ClearScratch => Unpacking::MakeScratch,
        Unpacking::MakeScratch => match r {
            Ok(_) => Unpacking::Extract,
            Err(e) => Unpacking::Failed(e),
        },
        Unpacking::Extract => match r {
            Ok(_) => Unpacking::Promote(Promotion::ClearBackup),
            Err(e) => Unpacking::RemoveScratch(e),
        },
        Unpacking::Promote(p) => match promote_next(p, r) {
            Promotion::Done => Unpacking::Done,
            Promotion::Failed(e) => Unpacking::Failed(e),
            q => Unpacking::Promote(q),
        },
        Unpacking::RemoveScratch(e) => Unpacking::Failed(e),
        Unpacking::Done => Unpacking::Done,
        Unpacking::Failed(e) => Unpacking::Failed(e),
    }
}

/// The steps behind `at`, one for each answer.
pub open spec fn unpacking_after(
    at: UnpackingView,
    answers: Seq<std::result::Result<bool, Seq<char>>>,
) -> UnpackingView
    decreases answers.len(),
{
    if answers.len() == 0 {
        at
    } else {
        unpacking(unpacking_after(at, answers.drop_last()), answers.last())
    }
}

/// Where the extraction of the archive fails, the destination is not touched:
/// whatever follows, nothing is set aside or installed, the scratch directory
/// is removed, and the error is the one of the extraction.
pub proof fn law_failed_extraction_installs_nothing(
    e: Seq<char>,
    answers: Seq<std::result::Result<bool, Seq<char>>>,
)
    ensures
        unpacking_after(unpacking(UnpackingView::Extract, Err(e)), answers) == if answers.len() == 0 {
            UnpackingView::RemoveScratch(e)
        } else {
            UnpackingView::Failed(e)
        },
    decreases answers.len(),
{
    if answers.len() > 0 {
        law_failed_extraction_installs_nothing(e, answers.drop_last());
    }
}

/// Where the older tree is.
pub enum OldTree {
    /// There is none.
    Absent,
    /// At the destination.
    InPlace,
    /// At the backup.
    Aside,
    /// It was removed.
    Gone,
}

/// Where the older tree is after a move.
pub open spec fn old_tree(at: PromotionView, r: std::result::Result<bool, Seq<char>>, t: OldTree) -> OldTree {
    match at {
        PromotionView::SetAside => if r is Ok {
            OldTree::Aside
        } else {
            t
        },
        PromotionView::ClearOld => if t is Aside {
            OldTree::Gone
        } else {
            t
        },
        PromotionView::Restore(_) => if r is Ok {
            OldTree::InPlace
        } else {
            t
        },
        _ => t,
    }
}

/// Where the older tree may be before a move.
pub open spec fn tree_kept(at: PromotionView, t: OldTree) -> bool {
    match at {
        PromotionView::ClearBackup | PromotionView::LookAtDest => t is InPlace || t is Absent,
        PromotionView::SetAside => t is InPlace,
        PromotionView::Restore(_) => t is Aside,
        PromotionView::Install | PromotionView::ClearOld | PromotionView::LookAtBackup(_) => t is Aside
            || t is Absent,
        PromotionView::Done => t is Gone || t is Absent,
        PromotionView::Failed(_) => !(t is Gone),
    }
}

/// The older tree is removed only once the new one is in its place: where that
/// fails, the older tree is at the destination again or still at the backup.
/// `r` tells the truth about what exists.
pub proof fn law_failed_promotion_keeps_the_older_tree(
    at: PromotionView,
    r: std::result::Result<bool, Seq<char>>,
    t: OldTree,
)
    requires
        tree_kept(at, t),
        at is LookAtDest ==> r == Ok::<bool, Seq<char>>(t is InPlace),
        at is LookAtBackup ==> r == Ok::<bool, Seq<char>>(t is Aside),
    ensures
        tree_kept(promoted(at, r), old_tree(at, r, t)),
        old_tree(at, r, t) is Gone ==> at is ClearOld || t is Gone,
{
}

/// How many entries of an archive are of a kind.
pub open spec fn of_kind(entries: Seq<ArchiveEntry>, kind: ArchiveKind) -> nat
    decreases entries.len(),
{
    if entries.len() == 0 {
        0
    } else {
        of_kind(entries.drop_last(), kind) + if entries.last().kind == kind {
            1nat
        } else {
            0
        }
    }
}

/// An archive whose paths stay within the extraction directory is accepted when
/// it has no more than two million files and directories, and no more than 64 GiB
/// in its files; and its files and directories are counted.
pub proof fn law_archive_within_the_limits_is_accepted(entries: Seq<ArchiveEntry>)
    requires
        forall|i: int| 0 <= i < entries.len() ==> !unsafe_path(#[trigger] entries[i].path),
        of_kind(entries, ArchiveKind::Regular) + of_kind(entries, ArchiveKind::Directory)
            <= 2_000_000,
        payload(entries) <= 68_719_476_736,
    ensures
        unpacked(entries) is Some,
        unpacked(entries)->0.files == of_kind(entries, ArchiveKind::Regular),
        unpacked(entries)->0.dirs == of_kind(entries, ArchiveKind::Directory),
        unpacked(entries)->0.bytes == payload(entries),
    decreases entries.len(),
{
    if entries.len() > 0 {
        let d = entries.drop_last();
        assert forall|i: int| 0 <= i < d.len() implies !unsafe_path(#[trigger] d[i].path) by {
            assert(d[i] == entries[i]);
        }
        assert(!unsafe_path(entries[entries.len() - 1].path));
        law_archive_within_the_limits_is_accepted(d);
    }
}

/// An archive beyond one of the limits is refused.
pub proof fn law_archive_beyond_a_limit_is_refused(entries: Seq<ArchiveEntry>)
    requires
        payload(entries) > 68_719_476_736 || of_kind(entries, ArchiveKind::Regular) + of_kind(
            entries,
            ArchiveKind::Directory,
        ) > 2_000_000,
    ensures
        unpacked(entries) is None,
{
    if unpacked(entries) is Some {
        law_accepted_archive_is_safe_and_bounded(entries);
        lemma_counts(entries);
    }
}

proof fn lemma_counts(entries: Seq<ArchiveEntry>)
    requires
        unpacked(entries) is Some,
    ensures
        unpacked(entries)->0.files == of_kind(entries, ArchiveKind::Regular),
        unpacked(entries)->0.dirs == of_kind(entries, ArchiveKind::Directory),
    decreases entries.len(),
{
    if entries.len() > 0 {
        lemma_counts(entries.drop_last());
    }
}

/// A path that starts at the root, or has two dots for one of its parts,
/// wherever in it, is unsafe. One without two dots in a row, and without a slash
/// at its start, is safe.
pub proof fn law_climbing_paths_are_unsafe(a: Seq<u8>, b: Seq<u8>)
    ensures
        unsafe_path(seq![0x2fu8] + b),
        unsafe_path(seq![0x2eu8, 0x2eu8]),
        unsafe_path(seq![0x2eu8, 0x2eu8, 0x2fu8] + b),
        unsafe_path(a + seq![0x2fu8, 0x2eu8, 0x2eu8]),
        unsafe_path(a + seq![0x2fu8, 0x2eu8, 0x2eu8, 0x2fu8] + b),
        !(a.len() > 0 && a[0] == 0x2f) && (forall|i: int|
            0 <= i < a.len() - 1 ==> !(#[trigger] a[i] == 0x2e && a[i + 1] == 0x2e))
            ==> !unsafe_path(a),
{
    assert(parent_at(seq![0x2eu8, 0x2eu8], 0));
    assert(parent_at(seq![0x2eu8, 0x2eu8, 0x2fu8] + b, 0));
    let n = a.len() as int + 1;
    assert(parent_at(a + seq![0x2fu8, 0x2eu8, 0x2eu8], n));
    assert(parent_at(a + seq![0x2fu8, 0x2eu8, 0x2eu8, 0x2fu8] + b, n));
}

/// What is said of a bundle counts what went through it; what was left out is
/// said exactly when there is any.
pub proof fn law_bundle_is_described(s: BundleStats, dest: Seq<char>)
    ensures
        s.packed_bytes > 0 ==> packed_text(s) == "packed "@ + dec(s.files as nat) + " file(s), "@
            + dec(s.dirs as nat) + " dir(s), "@ + bytes_text(s.raw_bytes as nat) + " -> "@
            + bytes_text(s.packed_bytes as nat) + " ("@ + ratio_digits(
            s.raw_bytes as nat,
            s.packed_bytes as nat,
        ) + "x smaller) in "@ + secs_digits(s.elapsed_ms as nat) + "s"@,
        extracted_text(s, dest) == "extracted "@ + dec(s.files as nat) + " file(s) "@ + bytes_text(
            s.raw_bytes as nat,
        ) + " (from "@ + bytes_text(s.packed_bytes as nat) + ") into "@ + dest + " in "@
            + secs_digits(s.elapsed_ms as nat) + "s"@,
        skipped_text(s.skipped) is Some <==> s.skipped > 0,
{
}

/// The last part of a path is what stands behind its last slash, slashes at the
/// end aside.
pub proof fn law_last_part_is_the_name(dir: Seq<char>, name: Seq<char>)
    requires
        name.len() > 0,
        !name.contains('/'),
    ensures
        last_part(dir.push('/') + name) == name,
        last_part((dir.push('/') + name).push('/')) == name,
        last_part(name) == name,
{
    let p = dir.push('/') + name;
    assert(p.last() == name.last());
    assert(name.contains(name.last()));
    assert(p.push('/').drop_last() =~= p);
    lemma_last_slash(dir, name);
    lemma_no_slash(name);
    assert(p.skip(dir.len() as int + 1) =~= name);
}

proof fn lemma_no_slash(name: Seq<char>)
    requires
        !name.contains('/'),
    ensures
        last_index(name, '/') is None,
    decreases name.len(),
{
    if name.len() > 0 {
        assert(name.contains(name.last()));
        assert(!name.drop_last().contains('/')) by {
            if name.drop_last().contains('/') {
                let k = choose|k: int| 0 <= k < name.len() - 1 && name.drop_last()[k] == '/';
                assert(name[k] == '/');
            }
        }
        lemma_no_slash(name.drop_last());
    }
}

} // verus!
