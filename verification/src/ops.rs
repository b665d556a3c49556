//! Transfers of whole directory trees.
//!
//! A transfer is a sequence of steps. Each step names one piece of work on the
//! device or on the local disk; what became of it decides the next step.
//! Local places are given as the names below the local root.

use vstd::prelude::*;

use crate::error::{Error, ErrorView, Result};
use crate::model::{entry_views, Entry, EntryView};
use crate::text::{
    chars_of, copy_strings, dec, drop_end_slashes, drop_start_slashes, has_char, lemma_split_append,
    lemma_split_pieces, no_end_slash, no_start_slash, owned, push_dec, split, string_of, texts,
};

verus! {

/// How deep a tree may be nested.
pub const MAX_TREE_DEPTH: usize = 64;

/// True when `name` is one ordinary path component.
pub open spec fn safe_component(name: Seq<char>) -> bool {
    &&& name.len() > 0
    &&& name != seq!['.']
    &&& name != seq!['.', '.']
    &&& !name.contains('/')
    &&& !name.contains('\\')
    &&& !name.contains('\0')
}

/// True when `name` is a single, ordinary path component that may be joined
/// onto a local directory.
pub fn is_safe_component(name: &str) -> (r: bool)
    ensures
        r == safe_component(name@),
{
    let c = chars_of(name);
    let dots = (c.len() == 1 && c[0] == '.') || (c.len() == 2 && c[0] == '.' && c[1] == '.');
    assert(dots == (c@ == seq!['.'] || c@ == seq!['.', '.'])) by {
        assert(c@.len() == 1 && c@[0] == '.' ==> c@ =~= seq!['.']);
        assert(c@.len() == 2 && c@[0] == '.' && c@[1] == '.' ==> c@ =~= seq!['.', '.']);
    }
    c.len() > 0 && !dots && !has_char(&c, '/') && !has_char(&c, '\\') && !has_char(&c, '\0')
}

/// The refusal of a walk that is too deep.
pub open spec fn too_deep(at: Seq<char>) -> ErrorView {
    ErrorView::InvalidArgument(
        "directory nesting exceeds "@ + dec(MAX_TREE_DEPTH as nat) + " levels at "@ + at,
    )
}

/// Refuses a walk that is deeper than [`MAX_TREE_DEPTH`].
pub fn check_depth(depth: usize, at: &str) -> (r: Result<()>)
    ensures
        match r {
            Ok(_) => depth <= MAX_TREE_DEPTH,
            Err(e) => depth > MAX_TREE_DEPTH && e@ == too_deep(at@),
        },
{
    if depth > MAX_TREE_DEPTH {
        let mut s = owned("directory nesting exceeds ");
        push_dec(&mut s, MAX_TREE_DEPTH as u64);
        s.push_str(" levels at ");
        s.push_str(at);
        return Err(Error::InvalidArgument(s));
    }
    Ok(())
}

/// Counters of a recursive transfer. Each stops at its largest value.
#[derive(Debug, Clone, Copy, PartialEq, Eq, Structural)]
pub struct TreeStats {
    /// Files transferred.
    pub files: u32,
    /// Directories created or walked.
    pub dirs: u32,
    /// Bytes transferred.
    pub bytes: u64,
    /// Entries that were not transferred: with a name that is no safe
    /// component or that MTP cannot represent, symbolic links, special files.
    pub skipped: u32,
}

impl Default for TreeStats {
    fn default() -> (r: Self)
        ensures
            r == (TreeStats { files: 0, dirs: 0, bytes: 0, skipped: 0 }),
    {
        TreeStats { files: 0, dirs: 0, bytes: 0, skipped: 0 }
    }
}

impl TreeStats {
    /// With one directory more.
    pub open spec fn plus_dir(self) -> TreeStats {
        TreeStats { dirs: self.dirs.saturating_add(1), ..self }
    }

    /// With one file of `n` bytes more.
    pub open spec fn plus_file(self, n: u64) -> TreeStats {
        TreeStats {
            files: self.files.saturating_add(1),
            bytes: self.bytes.saturating_add(n),
            ..self
        }
    }

    /// With one entry more that was not transferred.
    pub open spec fn plus_skip(self) -> TreeStats {
        TreeStats { skipped: self.skipped.saturating_add(1), ..self }
    }

    fn add_dir(self) -> (r: Self)
        ensures
            r == self.plus_dir(),
    {
        TreeStats {
            files: self.files,
            dirs: self.dirs.saturating_add(1),
            bytes: self.bytes,
            skipped: self.skipped,
        }
    }

    fn add_file(self, n: u64) -> (r: Self)
        ensures
            r == self.plus_file(n),
    {
        TreeStats {
            files: self.files.saturating_add(1),
            dirs: self.dirs,
            bytes: self.bytes.saturating_add(n),
            skipped: self.skipped,
        }
    }

    fn add_skip(self) -> (r: Self)
        ensures
            r == self.plus_skip(),
    {
        TreeStats {
            files: self.files,
            dirs: self.dirs,
            bytes: self.bytes,
            skipped: self.skipped.saturating_add(1),
        }
    }
}

/// A device path and a name joined by one slash.
pub open spec fn joined(base: Seq<char>, leaf: Seq<char>) -> Seq<char> {
    no_end_slash(base).push('/') + no_start_slash(leaf)
}

/// Joins two device-path components with `/`.
#[must_use]
pub fn join_device(base: &str, leaf: &str) -> (r: String)
    ensures
        r@ == joined(base@, leaf@),
{
    let mut s = string_of(&drop_end_slashes(&chars_of(base)));
    s.push('/');
    s.push_str(string_of(&drop_start_slashes(&chars_of(leaf))).as_str());
    s
}

/// The name is the last part of a joined path.
pub proof fn law_joined_name_is_the_last_part(base: Seq<char>, leaf: Seq<char>)
    requires
        !leaf.contains('/'),
    ensures
        split(joined(base, leaf), '/').last() == leaf,
{
    if leaf.len() > 0 {
        assert(leaf.contains(leaf[0]));
    }
    assert(no_start_slash(leaf) == leaf);
    let a = no_end_slash(base).push('/');
    lemma_split_append(a, leaf, '/');
    lemma_split_pieces(a, '/');
    assert(split(a, '/').last() == Seq::<char>::empty());
    assert(Seq::<char>::empty() + leaf =~= leaf);
}

// ---------------------------------------------------------------------------
// From the device
// ---------------------------------------------------------------------------

/// A directory on the device, and where it goes.
#[derive(Debug)]
pub struct PullDir {
    /// The device path.
    pub remote: String,
    /// The names below the local root.
    pub local: Vec<String>,
}

#[derive(Debug)]
struct PullFrame {
    dir: PullDir,
    entries: Vec<Entry>,
    next: usize,
}

/// What is left of a directory.
pub struct PullFrameView {
    /// The device path.
    pub remote: Seq<char>,
    /// The names below the local root.
    pub local: Seq<Seq<char>>,
    /// The entries that were not looked at yet.
    pub rest: Seq<EntryView>,
}

impl View for PullFrame {
    type V = PullFrameView;

    closed spec fn view(&self) -> PullFrameView {
        PullFrameView {
            remote: self.dir.remote@,
            local: texts(self.dir.local@),
            rest: if self.next <= self.entries@.len() {
                entry_views(self.entries@).skip(self.next as int)
            } else {
                Seq::empty()
            },
        }
    }
}

/// The transfer of a tree from the device.
#[derive(Debug)]
pub struct Pull {
    frames: Vec<PullFrame>,
    stats: TreeStats,
}

/// What is left of a transfer, and its counters so far.
pub struct PullView {
    /// The directories that were entered and not left yet.
    pub frames: Seq<PullFrameView>,
    /// The counters.
    pub stats: TreeStats,
}

impl View for Pull {
    type V = PullView;

    closed spec fn view(&self) -> PullView {
        PullView { frames: self.frames@.map_values(|f: PullFrame| f@), stats: self.stats }
    }
}

/// What comes next in a transfer from the device.
#[derive(Debug)]
pub enum PullStep {
    /// Create the local directory, and list the remote one.
    Open(PullDir),
    /// Download the file at `remote` beside its place, and put it there once it
    /// is complete.
    Fetch {
        /// The device path.
        remote: String,
        /// The names below the local root.
        local: Vec<String>,
        /// The size that the device reports.
        size: u64,
    },
    /// The transfer is complete.
    Done(TreeStats),
    /// The transfer has failed.
    Failed(Error),
}

/// The view of a [`PullStep`].
pub enum PullPlan {
    Open { remote: Seq<char>, local: Seq<Seq<char>> },
    Fetch { remote: Seq<char>, local: Seq<Seq<char>>, size: u64 },
    Done(TreeStats),
    Failed(ErrorView),
}

impl View for PullStep {
    type V = PullPlan;

    open spec fn view(&self) -> PullPlan {
        match self {
            PullStep::Open(d) => PullPlan::Open { remote: d.remote@, local: texts(d.local@) },
            PullStep::Fetch { remote, local, size } => PullPlan::Fetch {
                remote: remote@,
                local: texts(local@),
                size: *size,
            },
            PullStep::Done(s) => PullPlan::Done(*s),
            PullStep::Failed(e) => PullPlan::Failed(e@),
        }
    }
}

/// What became of the download of a file.
#[derive(Debug)]
pub enum Fetched {
    /// It is in its place, with so many bytes.
    Stored(u64),
    /// No local file could be made for it.
    Unstaged,
    /// It failed.
    Failed(Error),
}

/// The frames without the first entry of the innermost one.
pub open spec fn past_first(frames: Seq<PullFrameView>) -> Seq<PullFrameView> {
    let top = frames.last();
    frames.drop_last().push(PullFrameView { rest: top.rest.skip(1), ..top })
}

/// How a transfer from the device goes on: entries with an unsafe name are
/// skipped, a directory is opened, a file is downloaded.
pub open spec fn pull_next(v: PullView) -> (PullView, PullPlan)
    decreases
            v.frames.len(),
            (if v.frames.len() > 0 {
                v.frames.last().rest.len()
            } else {
                0
            }),
{
    if v.frames.len() == 0 {
        (v, PullPlan::Done(v.stats))
    } else {
        let top = v.frames.last();
        if top.rest.len() == 0 {
            pull_next(PullView { frames: v.frames.drop_last(), ..v })
        } else {
            let e = top.rest[0];
            let after = PullView { frames: past_first(v.frames), ..v };
            if !safe_component(e.name) {
                pull_next(PullView { stats: v.stats.plus_skip(), ..after })
            } else {
                let remote = joined(top.remote, e.name);
                if !e.is_dir {
                    (
                        after,
                        PullPlan::Fetch { remote, local: top.local.push(e.name), size: e.size },
                    )
                } else if v.frames.len() > MAX_TREE_DEPTH {
                    (after, PullPlan::Failed(too_deep(remote)))
                } else {
                    (after, PullPlan::Open { remote, local: top.local.push(e.name) })
                }
            }
        }
    }
}

/// How a transfer goes on once a directory was listed.
pub open spec fn pull_listed(
    v: PullView,
    remote: Seq<char>,
    local: Seq<Seq<char>>,
    r: std::result::Result<Seq<EntryView>, ErrorView>,
) -> (PullView, PullPlan) {
    match r {
        Err(e) => (v, PullPlan::Failed(e)),
        Ok(rest) => pull_next(
            PullView {
                frames: v.frames.push(PullFrameView { remote, local, rest }),
                stats: v.stats.plus_dir(),
            },
        ),
    }
}

/// How a transfer goes on after the download of a file.
pub open spec fn pull_fetched(v: PullView, r: Fetched) -> (PullView, PullPlan) {
    match r {
        Fetched::Stored(n) => pull_next(PullView { stats: v.stats.plus_file(n), ..v }),
        Fetched::Unstaged => pull_next(PullView { stats: v.stats.plus_skip(), ..v }),
        Fetched::Failed(e) => (v, PullPlan::Failed(e@)),
    }
}

/// A listing or its failure, as values.
pub open spec fn listing(r: Result<Vec<Entry>>) -> std::result::Result<Seq<EntryView>, ErrorView> {
    match r {
        Ok(v) => Ok(entry_views(v@)),
        Err(e) => Err(e@),
    }
}

fn deeper(local: &Vec<String>, name: &String) -> (r: Vec<String>)
    ensures
        texts(r@) == texts(local@).push(name@),
{
    let mut v = copy_strings(local);
    let ghost before = texts(v@);
    let n = name.clone();
    assert(texts(v@.push(n)) =~= before.push(n@));
    v.push(n);
    v
}

impl Pull {
    /// Starts the transfer of the directory `remote`.
    pub fn start(remote: &str) -> (r: (Pull, PullStep))
        ensures
            r.0@ == (PullView {
                frames: Seq::empty(),
                stats: (TreeStats { files: 0, dirs: 0, bytes: 0, skipped: 0 }),
            }),
            r.1@ == (PullPlan::Open { remote: remote@, local: Seq::empty() }),
    {
        let p = Pull { frames: Vec::new(), stats: TreeStats::default() };
        assert(p@.frames =~= Seq::empty());
        let local: Vec<String> = Vec::new();
        assert(texts(local@) =~= Seq::empty());
        (p, PullStep::Open(PullDir { remote: owned(remote), local }))
    }

    /// Goes on with the listing of a directory.
    pub fn listed(&mut self, dir: PullDir, r: Result<Vec<Entry>>) -> (step: PullStep)
        ensures
            (final(self)@, step@) == pull_listed(old(self)@, dir.remote@, texts(dir.local@), listing(r)),
    {
        match r {
            Err(e) => PullStep::Failed(e),
            Ok(entries) => {
                let ghost before = self@;
                let f = PullFrame { dir, entries, next: 0 };
                assert(f@.rest =~= entry_views(entries@));
                self.stats = self.stats.add_dir();
                self.frames.push(f);
                assert(self@.frames =~= before.frames.push(f@));
                self.advance()
            },
        }
    }

    /// Goes on after the download of a file.
    pub fn fetched(&mut self, r: Fetched) -> (step: PullStep)
        ensures
            (final(self)@, step@) == pull_fetched(old(self)@, r),
    {
        match r {
            Fetched::Failed(e) => PullStep::Failed(e),
            Fetched::Stored(n) => {
                self.stats = self.stats.add_file(n);
                self.advance()
            },
            Fetched::Unstaged => {
                self.stats = self.stats.add_skip();
                self.advance()
            },
        }
    }

    fn advance(&mut self) -> (step: PullStep)
        ensures
            (final(self)@, step@) == pull_next(old(self)@),
    {
        let ghost start = self@;
        loop
            invariant
                start == old(self)@,
                pull_next(self@) == pull_next(start),
            decreases
                    self.frames@.len(),
                    (if self.frames@.len() > 0 {
                        self.frames@.last()@.rest.len()
                    } else {
                        0
                    }),
        {
            let ghost now = self@;
            let depth = self.frames.len();
            if depth == 0 {
                return PullStep::Done(self.stats);
            }
            let mut top = match self.frames.pop() {
                Some(f) => f,
                None => {
                    return PullStep::Done(self.stats);
                },
            };
            let ghost below = self@.frames;
            assert(now.frames =~= below.push(top@));
            assert(now.frames.drop_last() =~= below);
            if top.next >= top.entries.len() {
                assert(top@.rest.len() == 0);
                continue;
            }
            let ghost rest = top@.rest;
            let i = top.next;
            assert(rest[0] == top.entries@[i as int]@);
            assert(entry_views(top.entries@).skip(i as int).skip(1) =~= entry_views(
                top.entries@,
            ).skip(i + 1));
            top.next = i + 1;
            assert(top@.rest == rest.skip(1));
            let name = top.entries[i].name.clone();
            let is_dir = top.entries[i].is_dir;
            let size = top.entries[i].size;
            if !is_safe_component(name.as_str()) {
                self.stats = self.stats.add_skip();
                self.frames.push(top);
                assert(self@.frames =~= past_first(now.frames));
                assert(self.frames@.last()@.rest.len() < rest.len());
                continue;
            }
            let remote = join_device(top.dir.remote.as_str(), name.as_str());
            let local = deeper(&top.dir.local, &name);
            self.frames.push(top);
            assert(self@.frames =~= past_first(now.frames));
            if !is_dir {
                return PullStep::Fetch { remote, local, size };
            }
            match check_depth(depth, remote.as_str()) {
                Err(e) => {
                    return PullStep::Failed(e);
                },
                Ok(_) => {
                    return PullStep::Open(PullDir { remote, local });
                },
            }
        }
    }
}

/// True when every name is an ordinary path component.
pub open spec fn safe_place(local: Seq<Seq<char>>) -> bool {
    forall|i: int| 0 <= i < local.len() ==> safe_component(#[trigger] local[i])
}

/// True when all directories of a transfer go below the local root.
pub open spec fn contained(v: PullView) -> bool {
    forall|i: int| 0 <= i < v.frames.len() ==> safe_place(#[trigger] v.frames[i].local)
}

/// True when a step writes below the local root only.
pub open spec fn plan_contained(p: PullPlan) -> bool {
    match p {
        PullPlan::Open { local, .. } => safe_place(local),
        PullPlan::Fetch { local, .. } => safe_place(local),
        _ => true,
    }
}

/// Whatever names the device reports, every directory that is created and
/// every file that is written lies below the local root: its place is made of
/// ordinary names alone.
pub proof fn law_pull_stays_below_its_root(v: PullView)
    requires
        contained(v),
    ensures
        contained(pull_next(v).0),
        plan_contained(pull_next(v).1),
    decreases
            v.frames.len(),
            (if v.frames.len() > 0 {
                v.frames.last().rest.len()
            } else {
                0
            }),
{
    if v.frames.len() > 0 {
        let top = v.frames.last();
        assert(safe_place(v.frames[v.frames.len() - 1].local));
        if top.rest.len() == 0 {
            law_pull_stays_below_its_root(PullView { frames: v.frames.drop_last(), ..v });
        } else {
            let e = top.rest[0];
            let after = PullView { frames: past_first(v.frames), ..v };
            assert(contained(after)) by {
                assert forall|i: int| 0 <= i < after.frames.len() implies safe_place(
                    #[trigger] after.frames[i].local,
                ) by {
                    assert(after.frames[i].local == v.frames[i].local);
                }
            }
            if !safe_component(e.name) {
                law_pull_stays_below_its_root(PullView { stats: v.stats.plus_skip(), ..after });
            } else {
                let local = top.local.push(e.name);
                assert forall|i: int| 0 <= i < local.len() implies safe_component(
                    #[trigger] local[i],
                ) by {
                    if i < top.local.len() {
                        assert(local[i] == top.local[i]);
                    }
                }
            }
        }
    }
}

/// A file and where it goes.
pub struct FileView {
    /// The device path.
    pub remote: Seq<char>,
    /// The names below the local root.
    pub local: Seq<Seq<char>>,
}

/// Two lists one after the other; none when one of them is missing.
pub open spec fn both(a: Option<Seq<FileView>>, b: Option<Seq<FileView>>) -> Option<Seq<FileView>> {
    match (a, b) {
        (Some(x), Some(y)) => Some(x + y),
        _ => None,
    }
}

/// The files of a tree, in order, with the places where they go: what has a
/// safe name, in the listings `dir` of a device. None when a directory lies too
/// deep.
pub open spec fn tree_files(
    dir: spec_fn(Seq<char>) -> Seq<EntryView>,
    remote: Seq<char>,
    local: Seq<Seq<char>>,
    depth: nat,
    rest: Seq<EntryView>,
) -> Option<Seq<FileView>>
    decreases
            (if depth <= MAX_TREE_DEPTH {
                MAX_TREE_DEPTH + 1 - depth
            } else {
                0
            }),
            rest.len(),
{
    if rest.len() == 0 {
        Some(Seq::empty())
    } else {
        let e = rest[0];
        let later = tree_files(dir, remote, local, depth, rest.skip(1));
        let path = joined(remote, e.name);
        let place = local.push(e.name);
        if !safe_component(e.name) {
            later
        } else if !e.is_dir {
            both(Some(seq![FileView { remote: path, local: place }]), later)
        } else if depth >= MAX_TREE_DEPTH {
            None
        } else {
            both(tree_files(dir, path, place, depth + 1, dir(path)), later)
        }
    }
}

/// The files that a transfer has still to take.
pub open spec fn files_left(
    dir: spec_fn(Seq<char>) -> Seq<EntryView>,
    frames: Seq<PullFrameView>,
) -> Option<Seq<FileView>>
    decreases frames.len(),
{
    if frames.len() == 0 {
        Some(Seq::empty())
    } else {
        let top = frames.last();
        both(
            tree_files(dir, top.remote, top.local, (frames.len() - 1) as nat, top.rest),
            files_left(dir, frames.drop_last()),
        )
    }
}

/// Each step of a transfer takes the first of the files that are left, or opens
/// a directory without changing what is left; it is complete exactly when no
/// file is left, and it is refused exactly when a directory lies too deep. So
/// the files that are taken are those of [`tree_files`], each once, and no
/// others.
pub proof fn law_pull_takes_each_file_once(
    dir: spec_fn(Seq<char>) -> Seq<EntryView>,
    v: PullView,
)
    requires
        v.frames.len() <= MAX_TREE_DEPTH + 1,
    ensures
        pull_next(v).0.frames.len() <= MAX_TREE_DEPTH + 1,
        match pull_next(v) {
            (_, PullPlan::Done(_)) => files_left(dir, v.frames) == Some(Seq::<FileView>::empty()),
            (w, PullPlan::Fetch { remote, local, .. }) => files_left(dir, v.frames) == both(
                Some(seq![FileView { remote, local }]),
                files_left(dir, w.frames),
            ),
            (w, PullPlan::Open { remote, local }) => w.frames.len() <= MAX_TREE_DEPTH && files_left(
                dir,
                v.frames,
            ) == files_left(
                dir,
                w.frames.push(PullFrameView { remote, local, rest: dir(remote) }),
            ),
            (_, PullPlan::Failed(_)) => files_left(dir, v.frames) is None,
        },
    decreases
            v.frames.len(),
            (if v.frames.len() > 0 {
                v.frames.last().rest.len()
            } else {
                0
            }),
{
    if v.frames.len() > 0 {
        let top = v.frames.last();
        let below = v.frames.drop_last();
        let depth = (v.frames.len() - 1) as nat;
        let rest = files_left(dir, below);
        if top.rest.len() == 0 {
            law_pull_takes_each_file_once(dir, PullView { frames: below, ..v });
            if rest is Some {
                assert(Seq::<FileView>::empty() + rest->0 =~= rest->0);
            }
            assert(files_left(dir, v.frames) == rest);
        } else {
            let e = top.rest[0];
            let after = PullView { frames: past_first(v.frames), ..v };
            assert(after.frames.drop_last() =~= below);
            assert(after.frames.last() == (PullFrameView { rest: top.rest.skip(1), ..top }));
            let later = tree_files(dir, top.remote, top.local, depth, top.rest.skip(1));
            assert(files_left(dir, after.frames) == both(later, rest));
            if !safe_component(e.name) {
                law_pull_takes_each_file_once(
                    dir,
                    PullView { stats: v.stats.plus_skip(), ..after },
                );
            } else {
                let path = joined(top.remote, e.name);
                let place = top.local.push(e.name);
                if !e.is_dir {
                    let one = seq![FileView { remote: path, local: place }];
                    lemma_both(Some(one), later, rest);
                } else if depth < MAX_TREE_DEPTH {
                    let f = PullFrameView { remote: path, local: place, rest: dir(path) };
                    assert(after.frames.push(f).drop_last() =~= after.frames);
                    lemma_both(tree_files(dir, path, place, depth + 1, dir(path)), later, rest);
                }
            }
        }
    }
}

proof fn lemma_both(
    a: Option<Seq<FileView>>,
    b: Option<Seq<FileView>>,
    c: Option<Seq<FileView>>,
)
    ensures
        both(both(a, b), c) == both(a, both(b, c)),
{
    if a is Some && b is Some && c is Some {
        assert(a->0 + b->0 + c->0 =~= a->0 + (b->0 + c->0));
    }
}

// ---------------------------------------------------------------------------
// To the device
// ---------------------------------------------------------------------------

/// A local directory, and where it goes.
#[derive(Debug)]
pub struct PushDir {
    /// The device path.
    pub remote: String,
    /// The names below the local root.
    pub local: Vec<String>,
}

/// The view of a [`PushDir`].
pub struct PushDirView {
    /// The device path.
    pub remote: Seq<char>,
    /// The names below the local root.
    pub local: Seq<Seq<char>>,
}

impl View for PushDir {
    type V = PushDirView;

    open spec fn view(&self) -> PushDirView {
        PushDirView { remote: self.remote@, local: texts(self.local@) }
    }
}

/// What a local directory entry is, links not followed.
#[derive(Debug, Clone, Copy, PartialEq, Eq, Structural)]
pub enum LocalKind {
    /// A symbolic link.
    Symlink,
    /// A directory.
    Dir,
    /// A regular file.
    File,
    /// A socket, a pipe, a device node.
    Other,
}

/// An entry of a local directory.
#[derive(Debug)]
pub struct LocalItem {
    /// What it is.
    pub kind: LocalKind,
    /// Its name, where it is valid Unicode.
    pub name: Option<String>,
    /// Its path as messages show it.
    pub shown: String,
}

/// The transfer of a tree to the device.
#[derive(Debug)]
pub struct Push {
    dirs: Vec<PushDir>,
    stats: TreeStats,
}

/// The directories that were entered and not left yet, and the counters.
pub struct PushView {
    /// The directories, the innermost last.
    pub dirs: Seq<PushDirView>,
    /// The counters.
    pub stats: TreeStats,
}

impl View for Push {
    type V = PushView;

    closed spec fn view(&self) -> PushView {
        PushView { dirs: self.dirs@.map_values(|d: PushDir| d@), stats: self.stats }
    }
}

/// What comes next in a transfer to the device.
#[derive(Debug)]
pub enum PushStep {
    /// Create the directory on the device, with all its parents.
    Mkdir {
        /// The directory.
        dir: PushDir,
        /// Its local path as messages show it.
        shown: String,
    },
    /// Start to read the local directory.
    Enter(Vec<String>),
    /// Read the next entry of the innermost directory that was entered; at its
    /// end the directory is left.
    Next,
    /// Upload a file.
    Upload {
        /// The directory on the device.
        remote: String,
        /// The name of the file.
        name: String,
        /// The names below the local root.
        local: Vec<String>,
    },
    /// The transfer is complete.
    Done(TreeStats),
    /// The transfer has failed.
    Failed(Error),
}

/// The view of a [`PushStep`].
pub enum PushPlan {
    Mkdir { dir: PushDirView, shown: Seq<char> },
    Enter(Seq<Seq<char>>),
    Next,
    Upload { remote: Seq<char>, name: Seq<char>, local: Seq<Seq<char>> },
    Done(TreeStats),
    Failed(ErrorView),
}

impl View for PushStep {
    type V = PushPlan;

    open spec fn view(&self) -> PushPlan {
        match self {
            PushStep::Mkdir { dir, shown } => PushPlan::Mkdir { dir: dir@, shown: shown@ },
            PushStep::Enter(local) => PushPlan::Enter(texts(local@)),
            PushStep::Next => PushPlan::Next,
            PushStep::Upload { remote, name, local } => PushPlan::Upload {
                remote: remote@,
                name: name@,
                local: texts(local@),
            },
            PushStep::Done(s) => PushPlan::Done(*s),
            PushStep::Failed(e) => PushPlan::Failed(e@),
        }
    }
}

/// How a transfer starts.
pub open spec fn push_start(parent: Seq<char>, name: Option<Seq<char>>, shown: Seq<char>) -> PushPlan {
    match name {
        None => PushPlan::Failed(
            ErrorView::InvalidArgument("cannot derive a directory name from "@ + shown),
        ),
        Some(n) => PushPlan::Mkdir {
            dir: PushDirView { remote: joined(parent, n), local: Seq::empty() },
            shown,
        },
    }
}

/// How a transfer goes on once a directory was created.
pub open spec fn push_made(
    v: PushView,
    dir: PushDirView,
    shown: Seq<char>,
    r: std::result::Result<(), ErrorView>,
) -> (PushView, PushPlan) {
    match r {
        Err(e) => (v, PushPlan::Failed(e)),
        Ok(_) => {
            let stats = v.stats.plus_dir();
            if v.dirs.len() > MAX_TREE_DEPTH {
                (PushView { stats, ..v }, PushPlan::Failed(too_deep(shown)))
            } else {
                (PushView { dirs: v.dirs.push(dir), stats }, PushPlan::Enter(dir.local))
            }
        },
    }
}

/// How a transfer goes on with an entry of the innermost directory, or at its
/// end: links, special files and names that are not Unicode are skipped.
pub open spec fn push_item(v: PushView, item: Option<LocalItem>) -> (PushView, PushPlan) {
    if v.dirs.len() == 0 {
        (v, PushPlan::Done(v.stats))
    } else {
        let top = v.dirs.last();
        match item {
            None => {
                let w = PushView { dirs: v.dirs.drop_last(), ..v };
                (
                    w,
                    if w.dirs.len() == 0 {
                        PushPlan::Done(v.stats)
                    } else {
                        PushPlan::Next
                    },
                )
            },
            Some(i) => {
                let skip = (PushView { stats: v.stats.plus_skip(), ..v }, PushPlan::Next);
                match (i.kind, i.name) {
                    (LocalKind::Symlink, _) => skip,
                    (_, None) => skip,
                    (LocalKind::Dir, Some(n)) => (
                        v,
                        PushPlan::Mkdir {
                            dir: PushDirView {
                                remote: joined(top.remote, n@),
                                local: top.local.push(n@),
                            },
                            shown: i.shown@,
                        },
                    ),
                    (LocalKind::File, Some(n)) => (
                        v,
                        PushPlan::Upload {
                            remote: top.remote,
                            name: n@,
                            local: top.local.push(n@),
                        },
                    ),
                    (LocalKind::Other, _) => skip,
                }
            },
        }
    }
}

/// A result with its error as a value.
pub open spec fn outcome<T>(r: Result<T>) -> std::result::Result<T, ErrorView> {
    match r {
        Ok(x) => Ok(x),
        Err(e) => Err(e@),
    }
}

impl Push {
    /// Starts the transfer of a directory with the given name into `parent`.
    pub fn start(parent: &str, name: Option<String>, shown: &str) -> (r: (Push, PushStep))
        ensures
            r.0@ == (PushView {
                dirs: Seq::empty(),
                stats: (TreeStats { files: 0, dirs: 0, bytes: 0, skipped: 0 }),
            }),
            r.1@ == push_start(
                parent@,
                match name {
                    Some(n) => Some(n@),
                    None => None,
                },
                shown@,
            ),
    {
        let p = Push { dirs: Vec::new(), stats: TreeStats::default() };
        assert(p@.dirs =~= Seq::empty());
        match name {
            None => {
                let mut s = owned("cannot derive a directory name from ");
                s.push_str(shown);
                (p, PushStep::Failed(Error::InvalidArgument(s)))
            },
            Some(n) => {
                let local: Vec<String> = Vec::new();
                assert(texts(local@) =~= Seq::empty());
                let remote = join_device(parent, n.as_str());
                let dir = PushDir { remote, local };
                (p, PushStep::Mkdir { dir, shown: owned(shown) })
            },
        }
    }

    /// Goes on after a directory was created on the device.
    pub fn made(&mut self, dir: PushDir, shown: String, r: Result<()>) -> (step: PushStep)
        ensures
            (final(self)@, step@) == push_made(old(self)@, dir@, shown@, outcome(r)),
    {
        match r {
            Err(e) => PushStep::Failed(e),
            Ok(_) => {
                let ghost before = self@;
                self.stats = self.stats.add_dir();
                match check_depth(self.dirs.len(), shown.as_str()) {
                    Err(e) => PushStep::Failed(e),
                    Ok(_) => {
                        let local = copy_strings(&dir.local);
                        self.dirs.push(dir);
                        assert(self@.dirs =~= before.dirs.push(dir@));
                        PushStep::Enter(local)
                    },
                }
            },
        }
    }

    /// Goes on once the reading of a directory has begun.
    pub fn entered(&self, r: Result<()>) -> (step: PushStep)
        ensures
            step@ == match r {
                Ok(_) => PushPlan::Next,
                Err(e) => PushPlan::Failed(e@),
            },
    {
        match r {
            Ok(_) => PushStep::Next,
            Err(e) => PushStep::Failed(e),
        }
    }

    /// Goes on with an entry of the innermost directory, or at its end.
    pub fn item(&mut self, r: Result<Option<LocalItem>>) -> (step: PushStep)
        ensures
            (final(self)@, step@) == match r {
                Ok(item) => push_item(old(self)@, item),
                Err(e) => (old(self)@, PushPlan::Failed(e@)),
            },
    {
        let item = match r {
            Err(e) => {
                return PushStep::Failed(e);
            },
            Ok(item) => item,
        };
        let ghost before = self@;
        let n = self.dirs.len();
        if n == 0 {
            return PushStep::Done(self.stats);
        }
        match item {
            None => {
                let _ = self.dirs.pop();
                assert(self@.dirs =~= before.dirs.drop_last());
                if self.dirs.len() == 0 {
                    PushStep::Done(self.stats)
                } else {
                    PushStep::Next
                }
            },
            Some(i) => {
                assert(before.dirs.last() == self.dirs@[n - 1]@);
                let LocalItem { kind, name, shown } = i;
                match name {
                    Some(name) if kind == LocalKind::Dir => {
                        let top = &self.dirs[n - 1];
                        let remote = join_device(top.remote.as_str(), name.as_str());
                        let dir = PushDir { remote, local: deeper(&top.local, &name) };
                        PushStep::Mkdir { dir, shown }
                    },
                    Some(name) if kind == LocalKind::File => {
                        let top = &self.dirs[n - 1];
                        let local = deeper(&top.local, &name);
                        PushStep::Upload { remote: top.remote.clone(), name, local }
                    },
                    _ => {
                        self.stats = self.stats.add_skip();
                        PushStep::Next
                    },
                }
            },
        }
    }

    /// Goes on after the upload of a file of so many bytes.
    pub fn uploaded(&mut self, r: Result<u64>) -> (step: PushStep)
        ensures
            match r {
                Ok(n) => final(self)@ == (PushView {
                    stats: old(self)@.stats.plus_file(n),
                    ..old(self)@
                }) && step@ == PushPlan::Next,
                Err(e) => final(self)@ == old(self)@ && step@ == PushPlan::Failed(e@),
            },
    {
        match r {
            Err(e) => PushStep::Failed(e),
            Ok(n) => {
                self.stats = self.stats.add_file(n);
                PushStep::Next
            },
        }
    }
}

/// The device path of the place `local` below `root`.
pub open spec fn remote_place(root: Seq<char>, local: Seq<Seq<char>>) -> Seq<char>
    decreases local.len(),
{
    if local.len() == 0 {
        root
    } else {
        joined(remote_place(root, local.drop_last()), local.last())
    }
}

/// True when every directory goes to its place below `root`.
pub open spec fn mirrored(root: Seq<char>, dirs: Seq<PushDirView>) -> bool {
    forall|i: int|
        0 <= i < dirs.len() ==> (#[trigger] dirs[i]).remote == remote_place(root, dirs[i].local)
}

/// True when a step works on the device at the place that mirrors the local
/// one.
pub open spec fn push_mirrored(root: Seq<char>, p: PushPlan) -> bool {
    match p {
        PushPlan::Mkdir { dir, .. } => dir.remote == remote_place(root, dir.local),
        PushPlan::Upload { remote, name, local } => local.len() > 0 && local.last() == name && remote
            == remote_place(root, local.drop_last()),
        _ => true,
    }
}

/// A transfer to the device keeps the shape of the tree: what lies at some
/// place below the local root is created at the same place below the root on
/// the device.
pub proof fn law_push_keeps_the_shape(root: Seq<char>, v: PushView, item: Option<LocalItem>)
    requires
        mirrored(root, v.dirs),
    ensures
        mirrored(root, push_item(v, item).0.dirs),
        push_mirrored(root, push_item(v, item).1),
        forall|dir: PushDirView, shown: Seq<char>, r: std::result::Result<(), ErrorView>|
            dir.remote == remote_place(root, dir.local) ==> mirrored(
                root,
                (#[trigger] push_made(v, dir, shown, r)).0.dirs,
            ),
{
    if v.dirs.len() > 0 {
        let top = v.dirs.last();
        assert(v.dirs[v.dirs.len() - 1] == top);
        let w = v.dirs.drop_last();
        assert forall|i: int| 0 <= i < w.len() implies (#[trigger] w[i]).remote == remote_place(
            root,
            w[i].local,
        ) by {
            assert(w[i] == v.dirs[i]);
        }
        if let Some(LocalItem { name: Some(n), .. }) = item {
            assert(top.local.push(n@).drop_last() =~= top.local);
        }
    }
    assert forall|dir: PushDirView, shown: Seq<char>, r: std::result::Result<(), ErrorView>|
        dir.remote == remote_place(root, dir.local) implies mirrored(
        root,
        (#[trigger] push_made(v, dir, shown, r)).0.dirs,
    ) by {
        let d = push_made(v, dir, shown, r).0.dirs;
        assert forall|i: int| 0 <= i < d.len() implies (#[trigger] d[i]).remote == remote_place(
            root,
            d[i].local,
        ) by {
            if i < v.dirs.len() {
                assert(d[i] == v.dirs[i]);
            }
        }
    }
}

/// A link, a special file and a name that is not Unicode are never sent: they
/// change nothing but the count of what was skipped.
pub proof fn law_push_skips_links_and_special_files(v: PushView, item: LocalItem)
    requires
        v.dirs.len() > 0,
        item.kind == LocalKind::Symlink || item.kind == LocalKind::Other || item.name is None,
    ensures
        push_item(v, Some(item)) == (
            PushView { stats: v.stats.plus_skip(), ..v },
            PushPlan::Next,
        ),
{
}

} // verus!
