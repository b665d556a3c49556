//! What the commands decide and say.

use vstd::prelude::*;

use crate::bundle::last_part;
use crate::bundle::last_part_of;
use crate::error::{Error, ErrorView, Result};
use crate::format::{bytes_text, human_bytes};
use crate::model::{DeviceSummary, Entry, EntryView, Resolved, StorageSummary};
use crate::ops::{is_safe_component, join_device, joined, safe_component, TreeStats};
use crate::path::{parsed, DevPath};
use crate::text::{
    chars_of, dec, drop_end_slashes, has_char, last_index, no_end_slash, owned, pad_start,
    padded_start, push_dec, quoted_of, quoted_text, rfind_char, same_text, string_of, sub_chars, texts, trim, trim_chars,
};

verus! {

/// Refuses a malformed device path before any device is touched.
pub fn check_path(path: &str) -> (r: Result<()>)
    ensures
        match r {
            Ok(_) => parsed(path@) is Ok,
            Err(e) => parsed(path@) == Err::<crate::path::DevPathView, ErrorView>(e@),
        },
{
    match DevPath::parse(path) {
        Ok(_) => Ok(()),
        Err(e) => Err(e),
    }
}

/// What stands before and behind the last slash of a path, white space at its
/// ends aside. A path of one part has no parent.
pub open spec fn parent_and_leaf(path: Seq<char>) -> Option<(Seq<char>, Seq<char>)> {
    let t = trim(path);
    match last_index(t, '/') {
        None => None,
        Some(i) => if i == 0 || i + 1 == t.len() {
            None
        } else {
            Some((t.take(i), t.skip(i + 1)))
        },
    }
}

/// Splits `/a/b/c` into `/a/b` and `c`. Storage-only paths have no leaf.
#[must_use]
pub fn split_device_parent_leaf(path: &str) -> (r: Option<(String, String)>)
    ensures
        match r {
            Some((p, l)) => parent_and_leaf(path@) == Some((p@, l@)),
            None => parent_and_leaf(path@) is None,
        },
{
    let t = trim_chars(&chars_of(path));
    let n = t.len();
    match rfind_char(&t, '/') {
        None => None,
        Some(i) => {
            if i == 0 || i + 1 == n {
                return None;
            }
            let p = sub_chars(&t, 0, i);
            let l = sub_chars(&t, i + 1, n);
            assert(p@ =~= t@.take(i as int));
            assert(l@ =~= t@.skip(i + 1));
            Some((string_of(&p), string_of(&l)))
        },
    }
}

/// True when `dst` is the directory that holds `src`. Handles count within
/// their storage only.
pub fn is_same_parent(src: &Resolved, dst: &Resolved) -> (r: bool)
    ensures
        r == (src.storage_index == dst.storage_index && dst.handle == src.entry.parent),
{
    src.storage_index == dst.storage_index && dst.handle == src.entry.parent
}

// ---------------------------------------------------------------------------
// Moving
// ---------------------------------------------------------------------------

/// Why a command has failed.
#[derive(Debug)]
pub enum Problem {
    /// The request makes no sense.
    Refused(String),
    /// The device has failed.
    Device(Error),
}

/// The view of a [`Problem`].
pub enum ProblemView {
    Refused(Seq<char>),
    Device(ErrorView),
}

impl View for Problem {
    type V = ProblemView;

    open spec fn view(&self) -> ProblemView {
        match self {
            Problem::Refused(t) => ProblemView::Refused(t@),
            Problem::Device(e) => ProblemView::Device(e@),
        }
    }
}

/// Where a move goes: a directory, and the name in it.
pub open spec fn move_target(from: Seq<char>, to: Seq<char>) -> std::result::Result<
    (Seq<char>, Seq<char>),
    Seq<char>,
> {
    if to.contains('/') {
        match parent_and_leaf(to) {
            Some(x) => Ok(x),
            None => Err("destination must look like <storage>/.../<name>"@),
        }
    } else {
        match last_index(no_end_slash(from), '/') {
            None => Err("source must be an absolute device path like /storage/file"@),
            Some(i) => if i == 0 {
                Err("source parent cannot be the device root"@)
            } else {
                Ok((from.take(i), to))
            },
        }
    }
}

/// Where a move goes. A bare name stays in the directory of the source.
pub fn destination(from: &str, to: &str) -> (r: std::result::Result<(String, String), String>)
    ensures
        match r {
            Ok((p, l)) => move_target(from@, to@) == Ok::<(Seq<char>, Seq<char>), Seq<char>>(
                (p@, l@),
            ),
            Err(e) => move_target(from@, to@) == Err::<(Seq<char>, Seq<char>), Seq<char>>(e@),
        },
{
    if has_char(&chars_of(to), '/') {
        return match split_device_parent_leaf(to) {
            Some(x) => Ok(x),
            None => Err(owned("destination must look like <storage>/.../<name>")),
        };
    }
    let v = chars_of(from);
    let t = drop_end_slashes(&v);
    match rfind_char(&t, '/') {
        None => Err(owned("source must be an absolute device path like /storage/file")),
        Some(i) => {
            if i == 0 {
                return Err(owned("source parent cannot be the device root"));
            }
            proof {
                crate::text::lemma_strip_end(v@, |c: char| c == '/');
            }
            let p = sub_chars(&v, 0, i);
            assert(p@ =~= v@.take(i as int));
            Ok((string_of(&p), owned(to)))
        },
    }
}

/// A move on the device, as far as it has come.
#[derive(Debug)]
pub enum Mv {
    /// The target is looked up.
    Target,
    /// The object goes into the target as it is.
    Into,
    /// The directory of the target is looked up.
    Parent {
        /// The directory.
        parent: String,
        /// The name in it.
        leaf: String,
    },
    /// The source is looked up.
    Source {
        /// The directory.
        parent: String,
        /// The name in it.
        leaf: String,
    },
    /// The directory of the target is looked up again.
    Dir {
        /// The directory.
        parent: String,
        /// The name in it.
        leaf: String,
        /// The source.
        source: Resolved,
    },
    /// The object gets its new name where it is.
    InPlace,
    /// The object goes into the directory.
    Across {
        /// The directory.
        parent: String,
        /// The name in it.
        leaf: String,
    },
    /// The object gets its new name where it has arrived.
    Arrived,
}

/// The view of a [`Mv`].
#[allow(inconsistent_fields)]
pub enum MvView {
    Target,
    Into,
    Parent { parent: Seq<char>, leaf: Seq<char> },
    Source { parent: Seq<char>, leaf: Seq<char> },
    Dir { parent: Seq<char>, leaf: Seq<char>, source: Resolved },
    InPlace,
    Across { parent: Seq<char>, leaf: Seq<char> },
    Arrived,
}

impl View for Mv {
    type V = MvView;

    open spec fn view(&self) -> MvView {
        match self {
            Mv::Target => MvView::Target,
            Mv::Into => MvView::Into,
            Mv::Parent { parent, leaf } => MvView::Parent { parent: parent@, leaf: leaf@ },
            Mv::Source { parent, leaf } => MvView::Source { parent: parent@, leaf: leaf@ },
            Mv::Dir { parent, leaf, source } => MvView::Dir {
                parent: parent@,
                leaf: leaf@,
                source: *source,
            },
            Mv::InPlace => MvView::InPlace,
            Mv::Across { parent, leaf } => MvView::Across { parent: parent@, leaf: leaf@ },
            Mv::Arrived => MvView::Arrived,
        }
    }
}

/// What comes next in a move.
#[derive(Debug)]
pub enum MvStep {
    /// Look the path up.
    Resolve(String, Mv),
    /// Move the source into a directory.
    Move(String, Mv),
    /// Rename the object at a path.
    Rename(String, String, Mv),
    /// The move is complete; the user is told so.
    Done(String),
    /// The move has failed.
    Failed(Problem),
}

/// The view of a [`MvStep`].
pub enum MvPlan {
    Resolve(Seq<char>, MvView),
    Move(Seq<char>, MvView),
    Rename(Seq<char>, Seq<char>, MvView),
    Done(Seq<char>),
    Failed(ProblemView),
}

impl View for MvStep {
    type V = MvPlan;

    open spec fn view(&self) -> MvPlan {
        match self {
            MvStep::Resolve(p, m) => MvPlan::Resolve(p@, m@),
            MvStep::Move(d, m) => MvPlan::Move(d@, m@),
            MvStep::Rename(p, n, m) => MvPlan::Rename(p@, n@, m@),
            MvStep::Done(t) => MvPlan::Done(t@),
            MvStep::Failed(p) => MvPlan::Failed(p@),
        }
    }
}

/// What is said of a directory that should hold something.
pub open spec fn parent_problem(dir: Seq<char>, is_dir: Option<bool>) -> Option<Seq<char>> {
    match is_dir {
        Some(true) => None,
        Some(false) => Some(dir + " is not a directory"@),
        None => Some(
            "remote directory "@ + dir + " does not exist (create it with `pereprava mkdir`)"@,
        ),
    }
}

/// Refuses a directory that is none, or does not exist.
pub fn check_parent(dir: &str, is_dir: Option<bool>) -> (r: std::result::Result<(), String>)
    ensures
        match r {
            Ok(_) => parent_problem(dir@, is_dir) is None,
            Err(e) => parent_problem(dir@, is_dir) == Some(e@),
        },
{
    match is_dir {
        Some(true) => Ok(()),
        Some(false) => {
            let mut s = owned(dir);
            s.push_str(" is not a directory");
            Err(s)
        },
        None => {
            let mut s = owned("remote directory ");
            s.push_str(dir);
            s.push_str(" does not exist (create it with `pereprava mkdir`)");
            Err(s)
        },
    }
}

/// How a move goes on when a path was looked up.
pub open spec fn mv_found(from: Seq<char>, to: Seq<char>, at: MvView, r: Result<Resolved>) -> MvPlan {
    match (at, r) {
        (MvView::Target, Ok(t)) => if t.entry.is_dir {
            MvPlan::Move(to, MvView::Into)
        } else {
            MvPlan::Failed(ProblemView::Refused("target "@ + to + " already exists"@))
        },
        (MvView::Target, Err(_)) => match move_target(from, to) {
            Err(e) => MvPlan::Failed(ProblemView::Refused(e)),
            Ok((parent, leaf)) => MvPlan::Resolve(parent, MvView::Parent { parent, leaf }),
        },
        (MvView::Parent { parent, leaf }, r) => match parent_problem(
            parent,
            match r {
                Ok(d) => Some(d.entry.is_dir),
                Err(_) => None,
            },
        ) {
            Some(e) => MvPlan::Failed(ProblemView::Refused(e)),
            None => MvPlan::Resolve(from, MvView::Source { parent, leaf }),
        },
        (_, Err(e)) => MvPlan::Failed(ProblemView::Device(e@)),
        (MvView::Source { parent, leaf }, Ok(source)) => MvPlan::Resolve(
            parent,
            MvView::Dir { parent, leaf, source },
        ),
        (MvView::Dir { parent, leaf, source }, Ok(dir)) => if source.storage_index
            == dir.storage_index && dir.handle == source.entry.parent {
            if source.entry.name@ == leaf {
                MvPlan::Done("renamed -> "@ + to)
            } else {
                MvPlan::Rename(from, leaf, MvView::InPlace)
            }
        } else {
            MvPlan::Move(parent, MvView::Across { parent, leaf })
        },
        (_, Ok(_)) => MvPlan::Failed(ProblemView::Device(ErrorView::ActorClosed)),
    }
}

/// How a move goes on when an object was changed.
pub open spec fn mv_changed(to: Seq<char>, at: MvView, r: Result<Entry>) -> MvPlan {
    match (at, r) {
        (_, Err(e)) => MvPlan::Failed(ProblemView::Device(e@)),
        (MvView::Into, Ok(e)) => MvPlan::Done("moved -> "@ + to + "/"@ + e.name@),
        (MvView::InPlace, Ok(_)) => MvPlan::Done("renamed -> "@ + to),
        (MvView::Across { parent, leaf }, Ok(e)) => if e.name@ == leaf {
            MvPlan::Done("moved+renamed -> "@ + to)
        } else {
            MvPlan::Rename(joined(parent, e.name@), leaf, MvView::Arrived)
        },
        (MvView::Arrived, Ok(_)) => MvPlan::Done("moved+renamed -> "@ + to),
        (_, Ok(_)) => MvPlan::Failed(ProblemView::Device(ErrorView::ActorClosed)),
    }
}

fn said(label: &str, to: &str) -> (r: String)
    ensures
        r@ == label@ + to@,
{
    let mut s = owned(label);
    s.push_str(to);
    s
}

/// Starts a move: into a directory, to a new path, or to a new name in the same
/// directory.
pub fn mv_start(to: &str) -> (r: MvStep)
    ensures
        r@ == MvPlan::Resolve(to@, MvView::Target),
{
    MvStep::Resolve(owned(to), Mv::Target)
}

/// Goes on with what a path leads to. An answer that was not asked for is
/// refused.
pub fn mv_resolved(from: &str, to: &str, at: Mv, r: Result<Resolved>) -> (step: MvStep)
    ensures
        step@ == mv_found(from@, to@, at@, r),
{
    match at {
        Mv::Target => match r {
            Ok(t) => {
                if t.entry.is_dir {
                    MvStep::Move(owned(to), Mv::Into)
                } else {
                    let mut s = owned("target ");
                    s.push_str(to);
                    s.push_str(" already exists");
                    MvStep::Failed(Problem::Refused(s))
                }
            },
            Err(_) => match destination(from, to) {
                Err(e) => MvStep::Failed(Problem::Refused(e)),
                Ok((parent, leaf)) => MvStep::Resolve(parent.clone(), Mv::Parent { parent, leaf }),
            },
        },
        Mv::Parent { parent, leaf } => {
            let is_dir = match r {
                Ok(d) => Some(d.entry.is_dir),
                Err(_) => None,
            };
            match check_parent(parent.as_str(), is_dir) {
                Err(e) => MvStep::Failed(Problem::Refused(e)),
                Ok(_) => MvStep::Resolve(owned(from), Mv::Source { parent, leaf }),
            }
        },
        Mv::Source { parent, leaf } => match r {
            Err(e) => MvStep::Failed(Problem::Device(e)),
            Ok(source) => MvStep::Resolve(parent.clone(), Mv::Dir { parent, leaf, source }),
        },
        Mv::Dir { parent, leaf, source } => match r {
            Err(e) => MvStep::Failed(Problem::Device(e)),
            Ok(dir) => {
                if is_same_parent(&source, &dir) {
                    if same_text(source.entry.name.as_str(), leaf.as_str()) {
                        MvStep::Done(said("renamed -> ", to))
                    } else {
                        MvStep::Rename(owned(from), leaf, Mv::InPlace)
                    }
                } else {
                    MvStep::Move(parent.clone(), Mv::Across { parent, leaf })
                }
            },
        },
        _ => match r {
            Err(e) => MvStep::Failed(Problem::Device(e)),
            Ok(_) => MvStep::Failed(Problem::Device(Error::ActorClosed)),
        },
    }
}

/// Goes on with an object that was changed. An answer that was not asked for is
/// refused.
pub fn mv_moved(to: &str, at: Mv, r: Result<Entry>) -> (step: MvStep)
    ensures
        step@ == mv_changed(to@, at@, r),
{
    let e = match r {
        Err(e) => {
            return MvStep::Failed(Problem::Device(e));
        },
        Ok(e) => e,
    };
    match at {
        Mv::Into => {
            let mut s = said("moved -> ", to);
            s.push_str("/");
            s.push_str(e.name.as_str());
            MvStep::Done(s)
        },
        Mv::InPlace => MvStep::Done(said("renamed -> ", to)),
        Mv::Across { parent, leaf } => {
            if same_text(e.name.as_str(), leaf.as_str()) {
                MvStep::Done(said("moved+renamed -> ", to))
            } else {
                let current = join_device(parent.as_str(), e.name.as_str());
                MvStep::Rename(current, leaf, Mv::Arrived)
            }
        },
        Mv::Arrived => MvStep::Done(said("moved+renamed -> ", to)),
        _ => MvStep::Failed(Problem::Device(Error::ActorClosed)),
    }
}

/// A file is moved to another storage, never renamed in its place, even when
/// the directory there has the handle of its own directory.
pub proof fn law_move_across_storages_is_no_rename(
    from: Seq<char>,
    to: Seq<char>,
    parent: Seq<char>,
    leaf: Seq<char>,
    source: Resolved,
    dir: Resolved,
)
    requires
        source.storage_index != dir.storage_index,
    ensures
        mv_found(from, to, MvView::Dir { parent, leaf, source }, Ok(dir)) == MvPlan::Move(
            parent,
            MvView::Across { parent, leaf },
        ),
{
}

/// An existing file is never overwritten by a move.
pub proof fn law_move_does_not_overwrite(from: Seq<char>, to: Seq<char>, target: Resolved)
    requires
        !target.entry.is_dir,
    ensures
        mv_found(from, to, MvView::Target, Ok(target)) is Failed,
{
}

// ---------------------------------------------------------------------------
// Pulling and pushing
// ---------------------------------------------------------------------------

/// The name under which an object is stored in the current directory when the
/// user gives none.
pub open spec fn default_name(remote: Seq<char>, entry: EntryView) -> std::result::Result<
    Seq<char>,
    Seq<char>,
> {
    if entry.is_dir {
        Ok(last_part(remote))
    } else if safe_component(entry.name) {
        Ok(entry.name)
    } else {
        Err("device reported an unusable file name: "@ + quoted_of(entry.name))
    }
}

/// The name under which an object is stored in the current directory when the
/// user gives none. A name from the device must be an ordinary one.
pub fn local_name(remote: &str, entry: &Entry) -> (r: std::result::Result<String, String>)
    ensures
        match r {
            Ok(n) => default_name(remote@, entry@) == Ok::<Seq<char>, Seq<char>>(n@),
            Err(e) => default_name(remote@, entry@) == Err::<Seq<char>, Seq<char>>(e@),
        },
{
    if entry.is_dir {
        return Ok(last_part_of(remote));
    }
    if is_safe_component(entry.name.as_str()) {
        return Ok(entry.name.clone());
    }
    let mut s = owned("device reported an unusable file name: ");
    s.push_str(quoted_text(entry.name.as_str()).as_str());
    Err(s)
}

/// What is done about an object that has the name of the file to upload.
#[derive(Debug)]
pub enum Upload {
    /// The name is free.
    Fresh,
    /// The file is removed first.
    Replace,
    /// The upload is refused.
    Refuse(String),
}

/// What is done about an object that has the name of the file to upload:
/// `found` tells whether it is a directory. Only a file is replaced, and only
/// on request.
pub fn upload_over(target: &str, found: Option<bool>, force: bool) -> (r: Upload)
    ensures
        match found {
            None => r is Fresh,
            Some(is_dir) => if !is_dir && force {
                r is Replace
            } else {
                r matches Upload::Refuse(t) && t@ == target@
                    + " already exists on device (use --force to replace)"@
            },
        },
{
    match found {
        None => Upload::Fresh,
        Some(is_dir) => {
            if !is_dir && force {
                Upload::Replace
            } else {
                Upload::Refuse(
                    said(target, " already exists on device (use --force to replace)"),
                )
            }
        },
    }
}

/// The directory to which things are pushed: the one given, or the root of the
/// first storage.
pub fn push_dir(remote: Option<String>) -> (r: String)
    ensures
        r@ == match remote {
            Some(d) => d@,
            None => "/1"@,
        },
{
    match remote {
        Some(d) => d,
        None => owned("/1"),
    }
}

// ---------------------------------------------------------------------------
// Reports
// ---------------------------------------------------------------------------

/// The line about a file that was downloaded in `secs` seconds.
pub fn pulled_line(bytes: u64, path: &str, secs: &str) -> (r: String)
    ensures
        r@ == bytes_text(bytes as nat) + " -> "@ + path@ + " in "@ + secs@ + "s"@,
{
    let mut s = human_bytes(bytes);
    s.push_str(" -> ");
    s.push_str(path);
    s.push_str(" in ");
    s.push_str(secs);
    s.push_str("s");
    s
}

/// The line about a file that was uploaded in `secs` seconds.
pub fn pushed_line(entry: &Entry, remote_dir: &str, secs: &str) -> (r: String)
    ensures
        r@ == bytes_text(entry.size as nat) + " -> "@ + remote_dir@ + "/"@ + entry.name@ + " in "@
            + secs@ + "s"@,
{
    let mut s = human_bytes(entry.size);
    s.push_str(" -> ");
    s.push_str(remote_dir);
    s.push_str("/");
    s.push_str(entry.name.as_str());
    s.push_str(" in ");
    s.push_str(secs);
    s.push_str("s");
    s
}

/// The lines about a tree that was transferred.
pub open spec fn tree_report(verb: Seq<char>, stats: TreeStats, secs: Seq<char>) -> Seq<Seq<char>> {
    let head = verb + " "@ + dec(stats.files as nat) + " file(s), "@ + dec(stats.dirs as nat)
        + " dir(s), "@ + bytes_text(stats.bytes as nat) + " in "@ + secs + "s"@;
    if stats.skipped > 0 {
        seq![
            head,
            "warning: "@ + dec(stats.skipped as nat)
                + " item(s) skipped (symlinks, special files, unsafe or non-representable names) — the result is incomplete"@,
        ]
    } else {
        seq![head]
    }
}

/// The lines about a tree that was transferred. One that is incomplete is said
/// to be so.
pub fn report_tree(verb: &str, stats: &TreeStats, secs: &str) -> (r: Vec<String>)
    ensures
        texts(r@) == tree_report(verb@, *stats, secs@),
{
    let mut s = owned(verb);
    s.push_str(" ");
    push_dec(&mut s, stats.files as u64);
    s.push_str(" file(s), ");
    push_dec(&mut s, stats.dirs as u64);
    s.push_str(" dir(s), ");
    s.push_str(human_bytes(stats.bytes).as_str());
    s.push_str(" in ");
    s.push_str(secs);
    s.push_str("s");
    let mut out: Vec<String> = Vec::new();
    out.push(s);
    if stats.skipped > 0 {
        let mut w = owned("warning: ");
        push_dec(&mut w, stats.skipped as u64);
        w.push_str(
            " item(s) skipped (symlinks, special files, unsafe or non-representable names) — the result is incomplete",
        );
        out.push(w);
    }
    assert(texts(out@) =~= tree_report(verb@, *stats, secs@));
    out
}

/// The widest size in a listing.
pub open spec fn size_width(entries: Seq<Entry>) -> nat
    decreases entries.len(),
{
    if entries.len() == 0 {
        0
    } else {
        let before = size_width(entries.drop_last());
        let n = bytes_text(entries.last().size as nat).len();
        if n > before {
            n
        } else {
            before
        }
    }
}

/// The line of an entry in a listing.
pub open spec fn entry_line(e: Entry, width: nat) -> Seq<char> {
    (if e.is_dir {
        "d "@
    } else {
        "- "@
    }) + pad_start(bytes_text(e.size as nat), width) + " "@ + e.name@
}

/// The lines of a listing.
pub open spec fn listing_lines(entries: Seq<Entry>) -> Seq<Seq<char>> {
    if entries.len() == 0 {
        seq!["(empty)"@]
    } else {
        entries.map_values(|e: Entry| entry_line(e, size_width(entries)))
    }
}

/// The lines of a listing.
pub fn ls_lines(entries: &Vec<Entry>) -> (r: Vec<String>)
    ensures
        texts(r@) == listing_lines(entries@),
{
    let mut out: Vec<String> = Vec::new();
    if entries.len() == 0 {
        out.push(owned("(empty)"));
        assert(texts(out@) =~= listing_lines(entries@));
        return out;
    }
    let mut width: usize = 0;
    let mut i: usize = 0;
    assert(entries@.take(0) =~= Seq::empty());
    while i < entries.len()
        invariant
            i <= entries.len(),
            width as nat == size_width(entries@.take(i as int)),
        decreases entries.len() - i,
    {
        assert(entries@.take(i + 1).drop_last() =~= entries@.take(i as int));
        let n = chars_of(human_bytes(entries[i].size).as_str()).len();
        if n > width {
            width = n;
        }
        i = i + 1;
    }
    assert(entries@.take(i as int) =~= entries@);
    i = 0;
    let ghost all = listing_lines(entries@);
    assert(texts(out@) =~= all.take(0));
    while i < entries.len()
        invariant
            i <= entries.len(),
            entries.len() > 0,
            all == listing_lines(entries@),
            width as nat == size_width(entries@),
            texts(out@) == all.take(i as int),
        decreases entries.len() - i,
    {
        let e = &entries[i];
        let mut s = if e.is_dir {
            owned("d ")
        } else {
            owned("- ")
        };
        s.push_str(padded_start(human_bytes(e.size).as_str(), width).as_str());
        s.push_str(" ");
        s.push_str(e.name.as_str());
        assert(s@ == entry_line(entries@[i as int], width as nat));
        let ghost before = texts(out@);
        assert(texts(out@.push(s)) =~= before.push(s@));
        out.push(s);
        assert(all.take(i + 1) =~= all.take(i as int).push(all[i as int]));
        i = i + 1;
    }
    assert(all.take(i as int) =~= all);
    out
}

/// A line of the summary, where the device reports the value.
pub open spec fn summary_line(label: Seq<char>, value: Option<String>) -> Seq<Seq<char>> {
    match value {
        Some(v) => seq![label + v@],
        None => Seq::empty(),
    }
}

/// The line of a storage in the summary.
pub open spec fn storage_line(s: StorageSummary) -> Seq<char> {
    "  "@ + s.description@ + " — "@ + bytes_text(s.free as nat) + " free / "@ + bytes_text(
        s.capacity as nat,
    ) + (if s.writable {
        ""@
    } else {
        ", read-only"@
    }) + " (id="@ + dec(s.id as nat) + ")"@
}

/// The lines of the summary of a device.
pub open spec fn info_text(s: DeviceSummary) -> Seq<Seq<char>> {
    seq!["Device:"@] + summary_line("  manufacturer : "@, s.manufacturer) + summary_line(
        "  model        : "@,
        s.product,
    ) + summary_line("  serial       : "@, s.serial) + summary_line(
        "  firmware     : "@,
        s.firmware,
    ) + summary_line("  usb speed    : "@, s.speed) + seq!["Storages:"@] + s.storages@.map_values(
        |x: StorageSummary| storage_line(x),
    )
}

fn push_line(out: &mut Vec<String>, label: &str, value: &Option<String>)
    ensures
        texts(final(out)@) == texts(old(out)@) + summary_line(label@, *value),
{
    let ghost before = texts(out@);
    match value {
        Some(v) => {
            let s = said(label, v.as_str());
            assert(texts(out@.push(s)) =~= before + seq![s@]);
            out.push(s);
        },
        None => {
            assert(before + Seq::<Seq<char>>::empty() =~= before);
        },
    }
}

/// The lines of the summary of a device.
pub fn info_lines(s: &DeviceSummary) -> (r: Vec<String>)
    ensures
        texts(r@) == info_text(*s),
{
    let mut out: Vec<String> = Vec::new();
    out.push(owned("Device:"));
    assert(texts(out@) =~= seq!["Device:"@]);
    push_line(&mut out, "  manufacturer : ", &s.manufacturer);
    push_line(&mut out, "  model        : ", &s.product);
    push_line(&mut out, "  serial       : ", &s.serial);
    push_line(&mut out, "  firmware     : ", &s.firmware);
    push_line(&mut out, "  usb speed    : ", &s.speed);
    let ghost before = texts(out@);
    let title = owned("Storages:");
    assert(texts(out@.push(title)) =~= before + seq![title@]);
    out.push(title);
    let ghost head = texts(out@);
    let ghost all = s.storages@.map_values(|x: StorageSummary| storage_line(x));
    let mut i: usize = 0;
    assert(head + all.take(0) =~= head);
    while i < s.storages.len()
        invariant
            i <= s.storages.len(),
            all == s.storages@.map_values(|x: StorageSummary| storage_line(x)),
            texts(out@) == head + all.take(i as int),
        decreases s.storages.len() - i,
    {
        let st = &s.storages[i];
        let mut t = owned("  ");
        t.push_str(st.description.as_str());
        t.push_str(" — ");
        t.push_str(human_bytes(st.free).as_str());
        t.push_str(" free / ");
        t.push_str(human_bytes(st.capacity).as_str());
        if st.writable {
            t.push_str("");
        } else {
            t.push_str(", read-only");
        }
        t.push_str(" (id=");
        push_dec(&mut t, st.id as u64);
        t.push_str(")");
        assert(t@ == all[i as int]);
        let ghost so_far = texts(out@);
        assert(texts(out@.push(t)) =~= so_far.push(t@));
        out.push(t);
        assert(head + all.take(i + 1) =~= (head + all.take(i as int)).push(all[i as int]));
        i = i + 1;
    }
    assert(all.take(i as int) =~= all);
    out
}

/// The line about a directory that was created.
pub fn created_line(path: &str) -> (r: String)
    ensures
        r@ == "created "@ + path@,
{
    said("created ", path)
}

/// The line about objects that were deleted.
pub fn deleted_line(n: u32, path: &str) -> (r: String)
    ensures
        r@ == "deleted "@ + dec(n as nat) + " object(s): "@ + path@,
{
    let mut s = owned("deleted ");
    push_dec(&mut s, n as u64);
    s.push_str(" object(s): ");
    s.push_str(path);
    s
}

} // verus!
