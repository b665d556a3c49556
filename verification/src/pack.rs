//! The walk that puts a local tree into an archive.
//!
//! Directories are entered in the order of their names, links are recorded and
//! not followed, and a directory that is entered within itself is refused.

use vstd::prelude::*;

use crate::text::{dec, owned, push_dec};

verus! {

/// How deep a packed tree may be nested.
pub const MAX_PACK_DEPTH: usize = 128;

/// The bytes of a list of names.
pub open spec fn names(v: Seq<Vec<u8>>) -> Seq<Seq<u8>> {
    v.map_values(|n: Vec<u8>| n@)
}

// ---------------------------------------------------------------------------
// Order
// ---------------------------------------------------------------------------

/// The order of names, byte by byte.
pub open spec fn bytes_le(a: Seq<u8>, b: Seq<u8>) -> bool
    decreases a.len(),
{
    if a.len() == 0 {
        true
    } else if b.len() == 0 {
        false
    } else if a[0] != b[0] {
        a[0] < b[0]
    } else {
        bytes_le(a.skip(1), b.skip(1))
    }
}

fn name_le(a: &Vec<u8>, b: &Vec<u8>) -> (r: bool)
    ensures
        r == bytes_le(a@, b@),
{
    let mut i: usize = 0;
    assert(a@.skip(0) =~= a@);
    assert(b@.skip(0) =~= b@);
    while i < a.len()
        invariant
            i <= a.len(),
            i <= b.len(),
            bytes_le(a@, b@) == bytes_le(a@.skip(i as int), b@.skip(i as int)),
        decreases a.len() - i,
    {
        if i >= b.len() {
            return false;
        }
        if a[i] != b[i] {
            return a[i] < b[i];
        }
        assert(a@.skip(i as int).skip(1) =~= a@.skip(i + 1));
        assert(b@.skip(i as int).skip(1) =~= b@.skip(i + 1));
        i = i + 1;
    }
    true
}

proof fn lemma_bytes_le(a: Seq<u8>, b: Seq<u8>, c: Seq<u8>)
    ensures
        bytes_le(a, b) || bytes_le(b, a),
        bytes_le(a, b) && bytes_le(b, c) ==> bytes_le(a, c),
    decreases a.len(),
{
    if a.len() > 0 {
        lemma_bytes_le(
            a.skip(1),
            if b.len() > 0 {
                b.skip(1)
            } else {
                b
            },
            if c.len() > 0 {
                c.skip(1)
            } else {
                c
            },
        );
    }
}

/// `s` with `n` put behind the last name that does not come after it.
pub open spec fn placed(s: Seq<Seq<u8>>, n: Seq<u8>) -> Seq<Seq<u8>>
    decreases s.len(),
{
    if s.len() == 0 || bytes_le(s.last(), n) {
        s.push(n)
    } else {
        placed(s.drop_last(), n).push(s.last())
    }
}

/// The names in their order.
pub open spec fn in_order(s: Seq<Seq<u8>>) -> Seq<Seq<u8>>
    decreases s.len(),
{
    if s.len() == 0 {
        s
    } else {
        placed(in_order(s.drop_last()), s.last())
    }
}

proof fn lemma_placed_at(s: Seq<Seq<u8>>, n: Seq<u8>, i: int)
    requires
        0 <= i <= s.len(),
        i > 0 ==> bytes_le(s[i - 1], n),
        forall|j: int| i <= j < s.len() ==> !bytes_le(#[trigger] s[j], n),
    ensures
        placed(s, n) == s.take(i).push(n) + s.skip(i),
    decreases s.len(),
{
    if i < s.len() {
        let t = s.drop_last();
        assert(!bytes_le(s[s.len() - 1], n));
        lemma_placed_at(t, n, i);
        assert(t.take(i) =~= s.take(i));
    }
    assert(placed(s, n) =~= s.take(i).push(n) + s.skip(i));
}

fn sort_names(all: Vec<Vec<u8>>) -> (r: Vec<Vec<u8>>)
    ensures
        names(r@) == in_order(names(all@)),
{
    let ghost whole = names(all@);
    let mut out: Vec<Vec<u8>> = Vec::new();
    let mut n: usize = 0;
    assert(whole.take(0) =~= Seq::empty());
    assert(names(out@) =~= Seq::empty());
    while n < all.len()
        invariant
            n <= all.len(),
            whole == names(all@),
            names(out@) == in_order(whole.take(n as int)),
        decreases all.len() - n,
    {
        let ghost s = names(out@);
        let name = copy_name(&all[n]);
        let mut i: usize = out.len();
        while i > 0 && !name_le(&out[i - 1], &name)
            invariant
                i <= out.len(),
                s == names(out@),
                forall|j: int| i <= j < s.len() ==> !bytes_le(#[trigger] s[j], name@),
            decreases i,
        {
            i = i - 1;
        }
        proof {
            if i > 0 {
                assert(s[i - 1] == out@[i - 1]@);
            }
            lemma_placed_at(s, name@, i as int);
            assert(whole.take(n + 1).drop_last() =~= whole.take(n as int));
        }
        let ghost nv = name@;
        out.insert(i, name);
        assert(names(out@) =~= s.take(i as int).push(nv) + s.skip(i as int));
        n = n + 1;
    }
    assert(whole.take(n as int) =~= whole);
    out
}

fn copy_name(n: &Vec<u8>) -> (r: Vec<u8>)
    ensures
        r@ == n@,
{
    let mut out: Vec<u8> = Vec::new();
    let mut i: usize = 0;
    while i < n.len()
        invariant
            i <= n.len(),
            out@ == n@.take(i as int),
        decreases n.len() - i,
    {
        out.push(n[i]);
        i = i + 1;
    }
    out
}

proof fn lemma_placed(s: Seq<Seq<u8>>, n: Seq<u8>)
    requires
        forall|i: int, j: int| 0 <= i <= j < s.len() ==> bytes_le(#[trigger] s[i], #[trigger] s[j]),
    ensures
        placed(s, n).to_multiset() == s.to_multiset().insert(n),
        forall|i: int, j: int|
            0 <= i <= j < placed(s, n).len() ==> bytes_le(
                #[trigger] placed(s, n)[i],
                #[trigger] placed(s, n)[j],
            ),
        forall|i: int|
            0 <= i < placed(s, n).len() ==> (#[trigger] placed(s, n)[i] == n || s.contains(
                placed(s, n)[i],
            )),
    decreases s.len(),
{
    broadcast use vstd::seq_lib::group_to_multiset_ensures;

    let p = placed(s, n);
    if s.len() == 0 || bytes_le(s.last(), n) {
        assert forall|i: int, j: int| 0 <= i <= j < p.len() implies bytes_le(
            #[trigger] p[i],
            #[trigger] p[j],
        ) by {
            if i < s.len() {
                assert(bytes_le(s[i], s[s.len() - 1]));
                lemma_bytes_le(s[i], s.last(), n);
            } else {
                lemma_bytes_le(n, n, n);
            }
        }
        assert forall|i: int| 0 <= i < p.len() implies (#[trigger] p[i] == n || s.contains(
            p[i],
        )) by {
            if i < s.len() {
                assert(s[i] == p[i]);
            }
        }
    } else {
        let t = s.drop_last();
        assert forall|i: int, j: int| 0 <= i <= j < t.len() implies bytes_le(
            #[trigger] t[i],
            #[trigger] t[j],
        ) by {
            assert(bytes_le(s[i], s[j]));
        }
        lemma_placed(t, n);
        let q = placed(t, n);
        assert(s =~= t.push(s.last()));
        lemma_bytes_le(n, s.last(), n);
        assert(bytes_le(n, s.last()));
        assert forall|i: int, j: int| 0 <= i <= j < p.len() implies bytes_le(
            #[trigger] p[i],
            #[trigger] p[j],
        ) by {
            if j < q.len() {
                assert(bytes_le(q[i], q[j]));
            } else if i < q.len() {
                assert(q[i] == n || t.contains(q[i]));
                if q[i] != n {
                    let k = choose|k: int| 0 <= k < t.len() && t[k] == q[i];
                    assert(bytes_le(s[k], s[s.len() - 1]));
                }
            } else {
                lemma_bytes_le(p[i], p[i], p[i]);
            }
        }
        assert forall|i: int| 0 <= i < p.len() implies (#[trigger] p[i] == n || s.contains(
            p[i],
        )) by {
            if i < q.len() {
                assert(q[i] == n || t.contains(q[i]));
                if q[i] != n {
                    let k = choose|k: int| 0 <= k < t.len() && t[k] == q[i];
                    assert(s[k] == q[i]);
                }
            } else {
                assert(s[s.len() - 1] == p[i]);
            }
        }
        assert(p.to_multiset() =~= s.to_multiset().insert(n));
    }
}

/// A directory goes into the archive in the order of its names, and every name
/// as often as it was read: the same directory always gives the same order.
pub proof fn law_names_are_packed_in_order(s: Seq<Seq<u8>>)
    ensures
        in_order(s).to_multiset() == s.to_multiset(),
        forall|i: int, j: int|
            0 <= i <= j < in_order(s).len() ==> bytes_le(
                #[trigger] in_order(s)[i],
                #[trigger] in_order(s)[j],
            ),
    decreases s.len(),
{
    broadcast use vstd::seq_lib::group_to_multiset_ensures;

    if s.len() > 0 {
        let t = s.drop_last();
        law_names_are_packed_in_order(t);
        lemma_placed(in_order(t), s.last());
        assert(s =~= t.push(s.last()));
    }
}

// ---------------------------------------------------------------------------
// The walk
// ---------------------------------------------------------------------------

/// What a directory entry is, links not followed.
#[derive(Debug, Clone, Copy, PartialEq, Eq, Structural)]
pub enum PackKind {
    /// A symbolic link.
    Symlink,
    /// A directory.
    Dir,
    /// A regular file of so many bytes.
    File(u64),
    /// Anything else.
    Other,
}

/// What a directory is known by: its device and its inode.
#[derive(Debug, Clone, Copy, PartialEq, Eq, Structural)]
pub struct FileId {
    /// The device.
    pub dev: u64,
    /// The inode.
    pub ino: u64,
}

/// True when both denote the same file.
pub fn same_file(a: &FileId, b: &FileId) -> (r: bool)
    ensures
        r == (*a == *b),
{
    a.dev == b.dev && a.ino == b.ino
}

#[derive(Debug)]
struct PackFrame {
    place: Vec<Vec<u8>>,
    id: FileId,
    rest: Vec<Vec<u8>>,
    next: usize,
}

/// A directory that was entered: its place below the root, what it is known by,
/// and the names that were not looked at yet.
pub struct PackFrameView {
    /// The names below the root.
    pub place: Seq<Seq<u8>>,
    /// What it is known by.
    pub id: FileId,
    /// The names that are left.
    pub rest: Seq<Seq<u8>>,
}

impl View for PackFrame {
    type V = PackFrameView;

    closed spec fn view(&self) -> PackFrameView {
        PackFrameView {
            place: names(self.place@),
            id: self.id,
            rest: if self.next <= self.rest@.len() {
                names(self.rest@).skip(self.next as int)
            } else {
                Seq::empty()
            },
        }
    }
}

/// The walk over a tree.
#[derive(Debug)]
pub struct Pack {
    frames: Vec<PackFrame>,
    files: u32,
    dirs: u32,
    raw: u64,
}

/// The view of a [`Pack`].
pub struct PackView {
    /// The directories that were entered and not left yet.
    pub frames: Seq<PackFrameView>,
    /// Files so far.
    pub files: u32,
    /// Directories so far, the root aside.
    pub dirs: u32,
    /// Bytes of the files so far.
    pub raw: u64,
}

impl View for Pack {
    type V = PackView;

    closed spec fn view(&self) -> PackView {
        PackView {
            frames: self.frames@.map_values(|f: PackFrame| f@),
            files: self.files,
            dirs: self.dirs,
            raw: self.raw,
        }
    }
}

/// What comes next in the walk. Places are names below the root.
#[derive(Debug)]
pub enum PackStep {
    /// Find out what the directory is known by.
    Identify(Vec<Vec<u8>>),
    /// Read the names in the directory.
    Read {
        /// The directory.
        place: Vec<Vec<u8>>,
        /// What it is known by.
        id: FileId,
    },
    /// Find out what stands there.
    Look(Vec<Vec<u8>>),
    /// Record the link with its target.
    AddLink(Vec<Vec<u8>>),
    /// Record the directory.
    AddDir(Vec<Vec<u8>>),
    /// Put the file into the archive.
    AddFile(Vec<Vec<u8>>),
    /// The tree is packed: files, directories, bytes.
    Done(u32, u32, u64),
    /// The walk is refused.
    Failed(String),
}

/// The view of a [`PackStep`].
pub enum PackPlan {
    Identify(Seq<Seq<u8>>),
    Read { place: Seq<Seq<u8>>, id: FileId },
    Look(Seq<Seq<u8>>),
    AddLink(Seq<Seq<u8>>),
    AddDir(Seq<Seq<u8>>),
    AddFile(Seq<Seq<u8>>),
    Done(u32, u32, u64),
    Failed(Seq<char>),
}

impl View for PackStep {
    type V = PackPlan;

    open spec fn view(&self) -> PackPlan {
        match self {
            PackStep::Identify(p) => PackPlan::Identify(names(p@)),
            PackStep::Read { place, id } => PackPlan::Read { place: names(place@), id: *id },
            PackStep::Look(p) => PackPlan::Look(names(p@)),
            PackStep::AddLink(p) => PackPlan::AddLink(names(p@)),
            PackStep::AddDir(p) => PackPlan::AddDir(names(p@)),
            PackStep::AddFile(p) => PackPlan::AddFile(names(p@)),
            PackStep::Done(f, d, b) => PackPlan::Done(*f, *d, *b),
            PackStep::Failed(e) => PackPlan::Failed(e@),
        }
    }
}

/// How the walk enters a directory, shown as `shown`.
pub open spec fn pack_enter(v: PackView, place: Seq<Seq<u8>>, shown: Seq<char>) -> PackPlan {
    if v.frames.len() > MAX_PACK_DEPTH {
        PackPlan::Failed(
            "directory nesting exceeds "@ + dec(MAX_PACK_DEPTH as nat) + " levels at "@ + shown,
        )
    } else {
        PackPlan::Identify(place)
    }
}

/// True when the walk is within the directory `id`.
pub open spec fn within(frames: Seq<PackFrameView>, id: FileId) -> bool {
    exists|i: int| 0 <= i < frames.len() && (#[trigger] frames[i]).id == id
}

/// How the walk goes on once a directory is identified.
pub open spec fn pack_identified(
    v: PackView,
    place: Seq<Seq<u8>>,
    id: FileId,
    shown: Seq<char>,
) -> PackPlan {
    if within(v.frames, id) {
        PackPlan::Failed("directory cycle detected at "@ + shown)
    } else {
        PackPlan::Read { place, id }
    }
}

/// The walk with the next name of the innermost directory that has one.
pub open spec fn pack_next(v: PackView) -> (PackView, PackPlan)
    decreases v.frames.len(),
{
    if v.frames.len() == 0 {
        (v, PackPlan::Done(v.files, v.dirs, v.raw))
    } else {
        let top = v.frames.last();
        let below = v.frames.drop_last();
        if top.rest.len() == 0 {
            pack_next(PackView { frames: below, ..v })
        } else {
            (
                PackView {
                    frames: below.push(PackFrameView { rest: top.rest.skip(1), ..top }),
                    ..v
                },
                PackPlan::Look(top.place.push(top.rest[0])),
            )
        }
    }
}

/// How the walk goes on with the names of a directory.
pub open spec fn pack_read(
    v: PackView,
    place: Seq<Seq<u8>>,
    id: FileId,
    found: Seq<Seq<u8>>,
) -> (PackView, PackPlan) {
    pack_next(
        PackView {
            frames: v.frames.push(PackFrameView { place, id, rest: in_order(found) }),
            ..v
        },
    )
}

/// How the walk goes on with what stands at a place.
pub open spec fn pack_looked(v: PackView, place: Seq<Seq<u8>>, kind: PackKind) -> (
    PackView,
    PackPlan,
) {
    match kind {
        PackKind::Symlink => (v, PackPlan::AddLink(place)),
        PackKind::Dir => (
            PackView { dirs: v.dirs.saturating_add(1), ..v },
            PackPlan::AddDir(place),
        ),
        PackKind::File(n) => (
            PackView {
                files: v.files.saturating_add(1),
                raw: v.raw.saturating_add(n),
                ..v
            },
            PackPlan::AddFile(place),
        ),
        PackKind::Other => pack_next(v),
    }
}

impl Pack {
    /// Starts at the root.
    pub fn start() -> (r: (Pack, PackStep))
        ensures
            r.0@ == (PackView { frames: Seq::empty(), files: 0, dirs: 0, raw: 0 }),
            r.1@ == PackPlan::Identify(Seq::empty()),
    {
        let p = Pack { frames: Vec::new(), files: 0, dirs: 0, raw: 0 };
        assert(p@.frames =~= Seq::empty());
        let place: Vec<Vec<u8>> = Vec::new();
        assert(names(place@) =~= Seq::empty());
        (p, PackStep::Identify(place))
    }

    /// Enters a directory that was recorded.
    pub fn enter(&self, place: Vec<Vec<u8>>, shown: &str) -> (step: PackStep)
        ensures
            step@ == pack_enter(self@, names(place@), shown@),
    {
        if self.frames.len() > MAX_PACK_DEPTH {
            let mut s = owned("directory nesting exceeds ");
            push_dec(&mut s, MAX_PACK_DEPTH as u64);
            s.push_str(" levels at ");
            s.push_str(shown);
            return PackStep::Failed(s);
        }
        PackStep::Identify(place)
    }

    /// Goes on once a directory is identified.
    pub fn identified(&self, place: Vec<Vec<u8>>, id: FileId, shown: &str) -> (step: PackStep)
        ensures
            step@ == pack_identified(self@, names(place@), id, shown@),
    {
        let mut i: usize = 0;
        while i < self.frames.len()
            invariant
                i <= self.frames.len(),
                forall|j: int| 0 <= j < i ==> (#[trigger] self@.frames[j]).id != id,
            decreases self.frames.len() - i,
        {
            if same_file(&self.frames[i].id, &id) {
                assert(self@.frames[i as int].id == id);
                let mut s = owned("directory cycle detected at ");
                s.push_str(shown);
                return PackStep::Failed(s);
            }
            assert(self@.frames[i as int].id == self.frames@[i as int].id);
            i = i + 1;
        }
        PackStep::Read { place, id }
    }

    /// Goes on with the names of a directory.
    pub fn read(&mut self, place: Vec<Vec<u8>>, id: FileId, found: Vec<Vec<u8>>) -> (step: PackStep)
        ensures
            (final(self)@, step@) == pack_read(old(self)@, names(place@), id, names(found@)),
    {
        let ghost before = self@;
        let rest = sort_names(found);
        let f = PackFrame { place, id, rest, next: 0 };
        assert(f@.rest =~= names(rest@));
        self.frames.push(f);
        assert(self@.frames =~= before.frames.push(f@));
        self.advance()
    }

    /// Goes on with what stands at a place.
    pub fn looked(&mut self, place: Vec<Vec<u8>>, kind: PackKind) -> (step: PackStep)
        ensures
            (final(self)@, step@) == pack_looked(old(self)@, names(place@), kind),
    {
        match kind {
            PackKind::Symlink => PackStep::AddLink(place),
            PackKind::Dir => {
                self.dirs = self.dirs.saturating_add(1);
                PackStep::AddDir(place)
            },
            PackKind::File(n) => {
                self.files = self.files.saturating_add(1);
                self.raw = self.raw.saturating_add(n);
                PackStep::AddFile(place)
            },
            PackKind::Other => self.advance(),
        }
    }

    /// Goes on after a link or a file was put into the archive.
    pub fn added(&mut self) -> (step: PackStep)
        ensures
            (final(self)@, step@) == pack_next(old(self)@),
    {
        self.advance()
    }

    fn advance(&mut self) -> (step: PackStep)
        ensures
            (final(self)@, step@) == pack_next(old(self)@),
    {
        let ghost start = self@;
        loop
            invariant
                start == old(self)@,
                pack_next(self@) == pack_next(start),
            decreases self.frames@.len(),
        {
            let ghost now = self@;
            let mut top = match self.frames.pop() {
                Some(f) => f,
                None => {
                    return PackStep::Done(self.files, self.dirs, self.raw);
                },
            };
            let ghost below = self@.frames;
            assert(now.frames =~= below.push(top@));
            assert(now.frames.drop_last() =~= below);
            if top.next >= top.rest.len() {
                continue;
            }
            let i = top.next;
            let ghost rest = top@.rest;
            assert(rest[0] == top.rest@[i as int]@);
            assert(names(top.rest@).skip(i as int).skip(1) =~= names(top.rest@).skip(i + 1));
            top.next = i + 1;
            let place = deeper(&top.place, &top.rest[i]);
            let ghost f = top@;
            self.frames.push(top);
            assert(self@.frames =~= below.push(f));
            return PackStep::Look(place);
        }
    }
}

fn deeper(place: &Vec<Vec<u8>>, name: &Vec<u8>) -> (r: Vec<Vec<u8>>)
    ensures
        names(r@) == names(place@).push(name@),
{
    let mut out: Vec<Vec<u8>> = Vec::new();
    let mut i: usize = 0;
    assert(names(out@) =~= names(place@).take(0));
    while i < place.len()
        invariant
            i <= place.len(),
            names(out@) == names(place@).take(i as int),
        decreases place.len() - i,
    {
        let ghost before = names(out@);
        let n = copy_name(&place[i]);
        assert(names(out@.push(n)) =~= before.push(n@));
        out.push(n);
        assert(before.push(n@) =~= names(place@).take(i + 1));
        i = i + 1;
    }
    assert(names(place@).take(i as int) =~= names(place@));
    let n = copy_name(name);
    assert(names(out@.push(n)) =~= names(place@).push(n@));
    out.push(n);
    out
}

/// True when no directory was entered twice.
pub open spec fn no_cycle(frames: Seq<PackFrameView>) -> bool {
    forall|i: int, j: int|
        0 <= i < j < frames.len() ==> (#[trigger] frames[i]).id != (#[trigger] frames[j]).id
}

/// The directories that the walk is in are all different ones, and no more
/// than the depth limit allows: whatever links and aliases the file system has,
/// the walk does not go round in a circle.
pub proof fn law_pack_does_not_go_in_circles(
    v: PackView,
    place: Seq<Seq<u8>>,
    id: FileId,
    shown: Seq<char>,
    found: Seq<Seq<u8>>,
)
    requires
        no_cycle(v.frames),
        v.frames.len() <= MAX_PACK_DEPTH + 1,
        pack_enter(v, place, shown) is Identify,
        pack_identified(v, place, id, shown) is Read,
    ensures
        no_cycle(pack_read(v, place, id, found).0.frames),
        pack_read(v, place, id, found).0.frames.len() <= MAX_PACK_DEPTH + 1,
{
    let w = PackView {
        frames: v.frames.push(PackFrameView { place, id, rest: in_order(found) }),
        ..v
    };
    assert(no_cycle(w.frames)) by {
        assert forall|i: int, j: int| 0 <= i < j < w.frames.len() implies (
        #[trigger] w.frames[i]).id != (#[trigger] w.frames[j]).id by {
            assert(w.frames[i] == v.frames[i]);
            if j < v.frames.len() {
                assert(w.frames[j] == v.frames[j]);
            }
        }
    }
    lemma_next_keeps_order(w);
}

proof fn lemma_next_keeps_order(v: PackView)
    requires
        no_cycle(v.frames),
    ensures
        no_cycle(pack_next(v).0.frames),
        pack_next(v).0.frames.len() <= v.frames.len(),
    decreases v.frames.len(),
{
    if v.frames.len() > 0 {
        let top = v.frames.last();
        let below = v.frames.drop_last();
        if top.rest.len() == 0 {
            assert forall|i: int, j: int| 0 <= i < j < below.len() implies (
            #[trigger] below[i]).id != (#[trigger] below[j]).id by {
                assert(below[i] == v.frames[i] && below[j] == v.frames[j]);
            }
            lemma_next_keeps_order(PackView { frames: below, ..v });
        } else {
            let f = pack_next(v).0.frames;
            assert forall|i: int, j: int| 0 <= i < j < f.len() implies (#[trigger] f[i]).id != (
            #[trigger] f[j]).id by {
                assert(f[i].id == v.frames[i].id && f[j].id == v.frames[j].id);
            }
        }
    }
}

/// Two lists of places one after the other; none when one of them is missing.
pub open spec fn both(
    a: Option<Seq<Seq<Seq<u8>>>>,
    b: Option<Seq<Seq<Seq<u8>>>>,
) -> Option<Seq<Seq<Seq<u8>>>> {
    match (a, b) {
        (Some(x), Some(y)) => Some(x + y),
        _ => None,
    }
}

/// The places of a tree that are looked at: `rest` are names in the directory
/// at `place`, `dir` gives the names in every directory, and `is_dir` tells the
/// directories. None when a directory lies too deep.
pub open spec fn tree_places(
    dir: spec_fn(Seq<Seq<u8>>) -> Seq<Seq<u8>>,
    is_dir: spec_fn(Seq<Seq<u8>>) -> bool,
    place: Seq<Seq<u8>>,
    depth: nat,
    rest: Seq<Seq<u8>>,
) -> Option<Seq<Seq<Seq<u8>>>>
    decreases
            (if depth <= MAX_PACK_DEPTH {
                MAX_PACK_DEPTH + 1 - depth
            } else {
                0
            }),
            rest.len(),
{
    if rest.len() == 0 {
        Some(Seq::empty())
    } else {
        let here = place.push(rest[0]);
        let later = tree_places(dir, is_dir, place, depth, rest.skip(1));
        if !is_dir(here) {
            both(Some(seq![here]), later)
        } else if depth >= MAX_PACK_DEPTH {
            None
        } else {
            let inside = tree_places(dir, is_dir, here, depth + 1, in_order(dir(here)));
            both(Some(seq![here]), both(inside, later))
        }
    }
}

/// The places that a walk has still to look at.
pub open spec fn places_left(
    dir: spec_fn(Seq<Seq<u8>>) -> Seq<Seq<u8>>,
    is_dir: spec_fn(Seq<Seq<u8>>) -> bool,
    frames: Seq<PackFrameView>,
) -> Option<Seq<Seq<Seq<u8>>>>
    decreases frames.len(),
{
    if frames.len() == 0 {
        Some(Seq::empty())
    } else {
        let top = frames.last();
        both(
            tree_places(dir, is_dir, top.place, (frames.len() - 1) as nat, top.rest),
            places_left(dir, is_dir, frames.drop_last()),
        )
    }
}

pub proof fn lemma_both(
    a: Option<Seq<Seq<Seq<u8>>>>,
    b: Option<Seq<Seq<Seq<u8>>>>,
    c: Option<Seq<Seq<Seq<u8>>>>,
)
    ensures
        both(both(a, b), c) == both(a, both(b, c)),
{
    if a is Some && b is Some && c is Some {
        assert(a->0 + b->0 + c->0 =~= a->0 + (b->0 + c->0));
    }
}

/// Each step of a walk looks at the first of the places that are left, and a
/// directory that is entered stands before what it holds; the walk is complete
/// exactly when no place is left. So the places that are looked at are those of
/// [`tree_places`], each once, and no others.
pub proof fn law_pack_takes_each_place_once(
    dir: spec_fn(Seq<Seq<u8>>) -> Seq<Seq<u8>>,
    is_dir: spec_fn(Seq<Seq<u8>>) -> bool,
    v: PackView,
    id: FileId,
)
    ensures
        match pack_next(v) {
            (_, PackPlan::Done(_, _, _)) => places_left(dir, is_dir, v.frames) == Some(
                Seq::<Seq<Seq<u8>>>::empty(),
            ),
            (w, PackPlan::Look(place)) => places_left(dir, is_dir, v.frames) == if !is_dir(place) {
                both(Some(seq![place]), places_left(dir, is_dir, w.frames))
            } else if w.frames.len() > MAX_PACK_DEPTH {
                None
            } else {
                both(
                    Some(seq![place]),
                    places_left(
                        dir,
                        is_dir,
                        w.frames.push(PackFrameView { place, id, rest: in_order(dir(place)) }),
                    ),
                )
            },
            _ => false,
        },
    decreases v.frames.len(),
{
    if v.frames.len() > 0 {
        let top = v.frames.last();
        let below = v.frames.drop_last();
        let depth = (v.frames.len() - 1) as nat;
        let rest = places_left(dir, is_dir, below);
        if top.rest.len() == 0 {
            law_pack_takes_each_place_once(dir, is_dir, PackView { frames: below, ..v }, id);
            if rest is Some {
                assert(Seq::<Seq<Seq<u8>>>::empty() + rest->0 =~= rest->0);
            }
            assert(places_left(dir, is_dir, v.frames) == rest);
        } else {
            let here = top.place.push(top.rest[0]);
            let one = Some(seq![here]);
            let w = pack_next(v).0;
            assert(w.frames.drop_last() =~= below);
            assert(w.frames.last() == (PackFrameView { rest: top.rest.skip(1), ..top }));
            let later = tree_places(dir, is_dir, top.place, depth, top.rest.skip(1));
            assert(places_left(dir, is_dir, w.frames) == both(later, rest));
            if !is_dir(here) {
                lemma_both(one, later, rest);
            } else if depth < MAX_PACK_DEPTH {
                let inside = tree_places(dir, is_dir, here, depth + 1, in_order(dir(here)));
                let f = PackFrameView { place: here, id, rest: in_order(dir(here)) };
                assert(w.frames.push(f).drop_last() =~= w.frames);
                lemma_both(one, both(inside, later), rest);
                lemma_both(inside, later, rest);
            }
        }
    }
}

/// The first byte in which two names differ decides their order; a name comes
/// before every longer one that begins with it.
pub proof fn law_first_byte_decides(front: Seq<u8>, a: u8, b: u8, s: Seq<u8>, t: Seq<u8>)
    requires
        a < b,
    ensures
        bytes_le(front.push(a) + s, front.push(b) + t),
        !bytes_le(front.push(b) + t, front.push(a) + s),
        bytes_le(front, front + s),
        s.len() > 0 ==> !bytes_le(front + s, front),
    decreases front.len(),
{
    let x = front.push(a) + s;
    let y = front.push(b) + t;
    if front.len() == 0 {
        assert(x[0] == a && y[0] == b);
        assert(front + s =~= s);
    } else {
        let rest = front.skip(1);
        law_first_byte_decides(rest, a, b, s, t);
        assert(x.skip(1) =~= rest.push(a) + s);
        assert(y.skip(1) =~= rest.push(b) + t);
        assert((front + s).skip(1) =~= rest + s);
        assert((front + s)[0] == front[0]);
    }
}

} // verus!
