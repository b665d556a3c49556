//! What holds of a bundle from end to end: a tree is packed, and the archive is
//! extracted again.
//!
//! A local tree is modelled by what stands at each place, an archive by its
//! entries with their bytes, in order, and the disk by the three directories
//! that an extraction works with. The steps of packing and of extracting are
//! carried out on the model. That an archive hands its entries back as they were
//! put into it is the part of the tar and zstd formats, and no part of the model.

use vstd::prelude::*;

use crate::bundle::{
    judged, parent_at, unpacked, unpacking, unsafe_path, ArchiveEntry, ArchiveKind, PromotionView,
    Totals, UnpackingView, VerdictView,
};
use crate::pack::{
    both, in_order, law_names_are_packed_in_order, law_pack_takes_each_place_once, lemma_both,
    pack_enter, pack_identified, pack_looked, pack_next, pack_read, places_left, tree_places,
    FileId, PackFrameView, PackKind, PackPlan, PackView, MAX_PACK_DEPTH,
};

verus! {

// ---------------------------------------------------------------------------
// Paths in an archive
// ---------------------------------------------------------------------------

/// True when a file system can hold an entry of this name.
pub open spec fn ordinary_name(n: Seq<u8>) -> bool {
    n.len() > 0 && !n.contains(0x2f) && n != seq![0x2eu8, 0x2eu8]
}

/// The path in the archive of what stands at `place`: the names with slashes
/// between them.
pub open spec fn archive_path(place: Seq<Seq<u8>>) -> Seq<u8>
    decreases place.len(),
{
    if place.len() == 0 {
        Seq::empty()
    } else if place.len() == 1 {
        place[0]
    } else {
        archive_path(place.drop_last()).push(0x2f) + place.last()
    }
}

/// True when every name of a place is ordinary.
pub open spec fn ordinary_place(place: Seq<Seq<u8>>) -> bool {
    forall|i: int| 0 <= i < place.len() ==> ordinary_name(#[trigger] place[i])
}

/// The path of such a place is a safe one.
proof fn lemma_archive_path_is_safe(place: Seq<Seq<u8>>)
    requires
        ordinary_place(place),
    ensures
        !unsafe_path(archive_path(place)),
        place.len() > 0 ==> archive_path(place).len() > 0,
    decreases place.len(),
{
    let path = archive_path(place);
    if place.len() > 0 {
        let n = place.last();
        assert(ordinary_name(place[place.len() - 1]));
        let start: int = if place.len() == 1 {
            0
        } else {
            archive_path(place.drop_last()).len() as int + 1
        };
        if place.len() > 1 {
            let above = place.drop_last();
            assert forall|i: int| 0 <= i < above.len() implies ordinary_name(#[trigger] above[i]) by {
                assert(above[i] == place[i]);
            }
            lemma_archive_path_is_safe(above);
        }
        assert forall|i: int| !#[trigger] parent_at(path, i) by {
            if parent_at(path, i) {
                if i >= start {
                    assert(path[i] == n[i - start]);
                    assert(path[i + 1] == n[i + 1 - start]);
                    if i > start {
                        assert(path[i - 1] == n[i - 1 - start]);
                        assert(n.contains(n[i - 1 - start]));
                    }
                    if i + 2 < path.len() {
                        assert(path[i + 2] == n[i + 2 - start]);
                        assert(n.contains(n[i + 2 - start]));
                    }
                    assert(n =~= seq![0x2eu8, 0x2eu8]);
                } else {
                    let p = archive_path(place.drop_last());
                    assert(path[p.len() as int] == 0x2f);
                    assert(i + 2 <= p.len());
                    assert(p[i] == path[i] && p[i + 1] == path[i + 1]);
                    if i > 0 {
                        assert(p[i - 1] == path[i - 1]);
                    }
                    if i + 2 < p.len() {
                        assert(p[i + 2] == path[i + 2]);
                    }
                    assert(parent_at(p, i));
                }
            }
        }
        if place.len() == 1 {
            assert(n.contains(n[0]));
        } else {
            assert(path[0] == archive_path(place.drop_last())[0]);
        }
    }
}

/// Two places with the same path are the same place.
proof fn lemma_archive_path_injective(p: Seq<Seq<u8>>, q: Seq<Seq<u8>>)
    requires
        ordinary_place(p),
        ordinary_place(q),
        p.len() > 0,
        q.len() > 0,
        archive_path(p) == archive_path(q),
    ensures
        p == q,
    decreases p.len(),
{
    let path = archive_path(p);
    let n = p.last();
    let m = q.last();
    assert(ordinary_name(p[p.len() - 1]));
    assert(ordinary_name(q[q.len() - 1]));
    if p.len() == 1 && q.len() == 1 {
        assert(p =~= q);
    } else if p.len() == 1 {
        let b = archive_path(q.drop_last()).len() as int;
        assert(path[b] == 0x2f);
        assert(n.contains(path[b]));
    } else if q.len() == 1 {
        let a = archive_path(p.drop_last()).len() as int;
        assert(path[a] == 0x2f);
        assert(m.contains(path[a]));
    } else {
        let above_p = archive_path(p.drop_last());
        let above_q = archive_path(q.drop_last());
        let a = above_p.len() as int;
        let b = above_q.len() as int;
        assert(path == above_p + seq![0x2fu8] + n);
        assert(path == above_q + seq![0x2fu8] + m);
        assert(path.len() == a + 1 + n.len() && path.len() == b + 1 + m.len());
        assert(path[a] == 0x2f && path[b] == 0x2f);
        if a < b {
            assert(path[b] == n[b - a - 1]);
            assert(n.contains(n[b - a - 1]));
        }
        if b < a {
            assert(path[a] == m[a - b - 1]);
            assert(m.contains(m[a - b - 1]));
        }
        assert(above_p =~= path.take(a));
        assert(above_q =~= path.take(b));
        assert(n =~= path.skip(a + 1));
        assert(m =~= path.skip(b + 1));
        lemma_archive_path_injective(p.drop_last(), q.drop_last());
        assert(p =~= p.drop_last().push(n));
        assert(q =~= q.drop_last().push(m));
    }
}

// ---------------------------------------------------------------------------
// The local tree
// ---------------------------------------------------------------------------

/// What stands at a place.
pub enum Node {
    /// A directory.
    Dir,
    /// A file with these bytes.
    File(Seq<u8>),
    /// A symbolic link.
    Link,
    /// A socket, a pipe, a device node.
    Special,
}

/// A local tree.
pub struct Local {
    /// What stands at each place.
    pub node: spec_fn(Seq<Seq<u8>>) -> Node,
    /// The names in each directory.
    pub names: spec_fn(Seq<Seq<u8>>) -> Seq<Seq<u8>>,
    /// What each directory is known by.
    pub id: spec_fn(Seq<Seq<u8>>) -> FileId,
    /// How messages show each place.
    pub shown: spec_fn(Seq<Seq<u8>>) -> Seq<char>,
}

impl Local {
    /// True when a directory stands at the place.
    pub open spec fn dir_at(self) -> spec_fn(Seq<Seq<u8>>) -> bool {
        |place: Seq<Seq<u8>>| (self.node)(place) is Dir
    }

    /// What the walk sees at a place.
    pub open spec fn kind(self, place: Seq<Seq<u8>>) -> PackKind {
        match (self.node)(place) {
            Node::Dir => PackKind::Dir,
            Node::File(bytes) => PackKind::File(bytes.len() as u64),
            Node::Link => PackKind::Symlink,
            Node::Special => PackKind::Other,
        }
    }

    /// True when a file system can hold the tree.
    pub open spec fn sound(self) -> bool {
        &&& forall|place: Seq<Seq<u8>>, n: Seq<u8>|
            #[trigger] (self.names)(place).contains(n) ==> ordinary_name(n)
        &&& forall|place: Seq<Seq<u8>>|
            (#[trigger] (self.node)(place)) matches Node::File(bytes) ==> bytes.len() <= u64::MAX
    }

    /// True when the tree has something at the place: it can be reached through
    /// directories of the tree.
    pub open spec fn holds(self, place: Seq<Seq<u8>>) -> bool {
        &&& place.len() > 0
        &&& forall|k: int| #![trigger place.take(k)]
            0 <= k < place.len() ==> (self.names)(place.take(k)).contains(place[k]) && (k > 0
                ==> (self.node)(place.take(k)) is Dir)
    }

    /// The places of the tree in the order of the walk; none when a directory
    /// lies too deep.
    pub open spec fn places(self) -> Option<Seq<Seq<Seq<u8>>>> {
        tree_places(self.names, self.dir_at(), Seq::empty(), 0, in_order((self.names)(Seq::empty())))
    }
}

/// An entry of an archive with its bytes.
pub struct Packed {
    /// The entry.
    pub entry: ArchiveEntry,
    /// The bytes of a file.
    pub bytes: Seq<u8>,
}

/// The entry that stands in the archive for what is at `place`.
pub open spec fn packed_at(t: Local, place: Seq<Seq<u8>>) -> Packed {
    let path = archive_path(place);
    match (t.node)(place) {
        Node::Dir => Packed {
            entry: ArchiveEntry { path, kind: ArchiveKind::Directory, size: 0 },
            bytes: Seq::empty(),
        },
        Node::File(bytes) => Packed {
            entry: ArchiveEntry { path, kind: ArchiveKind::Regular, size: bytes.len() as u64 },
            bytes,
        },
        _ => Packed {
            entry: ArchiveEntry { path, kind: ArchiveKind::Other, size: 0 },
            bytes: Seq::empty(),
        },
    }
}

/// The archive of what is at the places; a special file is left out.
pub open spec fn recorded(t: Local, places: Seq<Seq<Seq<u8>>>) -> Seq<Packed>
    decreases places.len(),
{
    if places.len() == 0 {
        Seq::empty()
    } else {
        let before = recorded(t, places.drop_last());
        if (t.node)(places.last()) is Special {
            before
        } else {
            before.push(packed_at(t, places.last()))
        }
    }
}

// ---------------------------------------------------------------------------
// Packing
// ---------------------------------------------------------------------------

/// A walk with the archive it has written so far.
pub struct PackRun {
    /// The walk.
    pub v: PackView,
    /// Its next step.
    pub plan: PackPlan,
    /// The archive.
    pub archive: Seq<Packed>,
}

/// One step of the walk over the tree `t`.
pub open spec fn pack_step(t: Local, run: PackRun) -> PackRun {
    let (v, plan) = match run.plan {
        PackPlan::Identify(p) => (run.v, pack_identified(run.v, p, (t.id)(p), (t.shown)(p))),
        PackPlan::Read { place, id } => pack_read(run.v, place, id, (t.names)(place)),
        PackPlan::Look(p) => pack_looked(run.v, p, t.kind(p)),
        PackPlan::AddLink(_) => pack_next(run.v),
        PackPlan::AddFile(_) => pack_next(run.v),
        PackPlan::AddDir(p) => (run.v, pack_enter(run.v, p, (t.shown)(p))),
        PackPlan::Done(_, _, _) => (run.v, run.plan),
        PackPlan::Failed(_) => (run.v, run.plan),
    };
    PackRun { v, plan, archive: run.archive + due(t, run.plan) }
}

/// What a step puts into the archive.
pub open spec fn due(t: Local, plan: PackPlan) -> Seq<Packed> {
    match plan {
        PackPlan::AddLink(p) => seq![packed_at(t, p)],
        PackPlan::AddFile(p) => seq![packed_at(t, p)],
        PackPlan::AddDir(p) => seq![packed_at(t, p)],
        _ => Seq::empty(),
    }
}

/// The walk over the tree `t` after `n` steps.
pub open spec fn pack_run(t: Local, n: nat) -> PackRun
    decreases n,
{
    if n == 0 {
        PackRun {
            v: PackView { frames: Seq::empty(), files: 0, dirs: 0, raw: 0 },
            plan: PackPlan::Identify(Seq::empty()),
            archive: Seq::empty(),
        }
    } else {
        pack_step(t, pack_run(t, (n - 1) as nat))
    }
}

/// The places inside the directory at `place`.
pub open spec fn inside(t: Local, place: Seq<Seq<u8>>, depth: nat) -> Option<Seq<Seq<Seq<u8>>>> {
    if depth > MAX_PACK_DEPTH {
        None
    } else {
        tree_places(t.names, t.dir_at(), place, depth, in_order((t.names)(place)))
    }
}

/// The places that the walk has yet to look at, with the step at hand.
pub open spec fn to_do(t: Local, v: PackView, plan: PackPlan) -> Option<Seq<Seq<Seq<u8>>>> {
    let left = places_left(t.names, t.dir_at(), v.frames);
    let depth = v.frames.len();
    match plan {
        PackPlan::Identify(p) => both(inside(t, p, depth), left),
        PackPlan::Read { place, .. } => both(inside(t, place, depth), left),
        PackPlan::Look(p) => both(
            Some(seq![p]),
            if (t.node)(p) is Dir {
                both(inside(t, p, depth), left)
            } else {
                left
            },
        ),
        PackPlan::AddDir(p) => both(inside(t, p, depth), left),
        PackPlan::AddLink(_) => left,
        PackPlan::AddFile(_) => left,
        _ => Some(Seq::empty()),
    }
}

/// Going on changes nothing of what is left.
proof fn lemma_next_to_do(t: Local, v: PackView)
    ensures
        to_do(t, pack_next(v).0, pack_next(v).1) == places_left(t.names, t.dir_at(), v.frames),
        pack_next(v).1 is Done || pack_next(v).1 is Look,
        pack_next(v).0.files == v.files,
        pack_next(v).0.dirs == v.dirs,
        pack_next(v).0.raw == v.raw,
        pack_next(v).1 matches PackPlan::Done(f, d, b) ==> f == v.files && d == v.dirs && b == v.raw,
    decreases v.frames.len(),
{
    let id = FileId { dev: 0, ino: 0 };
    law_pack_takes_each_place_once(t.names, t.dir_at(), v, id);
    let (w, plan) = pack_next(v);
    if let PackPlan::Look(place) = plan {
        let f = PackFrameView { place, id, rest: in_order((t.names)(place)) };
        assert(w.frames.push(f).drop_last() =~= w.frames);
        assert(t.dir_at()(place) == ((t.node)(place) is Dir));
    }
    if v.frames.len() > 0 && v.frames.last().rest.len() == 0 {
        lemma_next_to_do(t, PackView { frames: v.frames.drop_last(), ..v });
    }
}

/// The counters of a walk hold what was counted, as far as they go.
pub open spec fn capped(n: nat, limit: nat) -> nat {
    if n <= limit {
        n
    } else {
        limit
    }
}

/// What is in an archive.
pub open spec fn totals_of(archive: Seq<Packed>) -> Totals
    decreases archive.len(),
{
    if archive.len() == 0 {
        Totals { files: 0, dirs: 0, bytes: 0, skipped: 0 }
    } else {
        let t = totals_of(archive.drop_last());
        let e = archive.last().entry;
        match e.kind {
            ArchiveKind::Directory => Totals { dirs: t.dirs + 1, ..t },
            ArchiveKind::Regular => Totals {
                files: t.files + 1,
                bytes: t.bytes + e.size as nat,
                ..t
            },
            ArchiveKind::Other => Totals { skipped: t.skipped.saturating_add(1), ..t },
        }
    }
}

/// True when a walk has counted what is in `archive`.
pub open spec fn counted(v: PackView, archive: Seq<Packed>) -> bool {
    let t = totals_of(archive);
    &&& v.files == capped(t.files, u32::MAX as nat)
    &&& v.dirs == capped(t.dirs, u32::MAX as nat)
    &&& v.raw == capped(t.bytes, u64::MAX as nat)
}

/// What has been looked at, and what is left, is the whole tree; what has been
/// looked at is in the archive, and is counted.
proof fn lemma_pack_run(t: Local, n: nat) -> (done: Seq<Seq<Seq<u8>>>)
    requires
        t.sound(),
    ensures
        ({
            let run = pack_run(t, n);
            let archive = run.archive + due(t, run.plan);
            &&& !(run.plan is Failed) ==> {
                &&& t.places() == both(Some(done), to_do(t, run.v, run.plan))
                &&& archive == recorded(t, done)
                &&& counted(run.v, archive)
            }
            &&& run.plan matches PackPlan::AddDir(p) ==> (t.node)(p) is Dir && done.contains(p)
            &&& run.plan matches PackPlan::Identify(p) ==> p.len() == 0 || ((t.node)(p) is Dir
                && done.contains(p))
            &&& run.plan matches PackPlan::Done(f, d, b) ==> f == run.v.files && d == run.v.dirs && b
                == run.v.raw
        }),
    decreases n,
{
    if n == 0 {
        let done = Seq::<Seq<Seq<u8>>>::empty();
        let run = pack_run(t, n);
        let whole = t.places();
        if whole is Some {
            assert(done + (whole->0 + Seq::<Seq<Seq<u8>>>::empty()) =~= whole->0);
        }
        assert(run.archive + due(t, run.plan) =~= Seq::empty());
        done
    } else {
        let before = pack_run(t, (n - 1) as nat);
        let done = lemma_pack_run(t, (n - 1) as nat);
        let run = pack_run(t, n);
        let written = before.archive + due(t, before.plan);
        assert(run.archive == written);
        match before.plan {
            PackPlan::Identify(p) => {
                assert(run.archive + due(t, run.plan) =~= written);
                done
            },
            PackPlan::Read { place, id } => {
                let f = PackFrameView { place, id, rest: in_order((t.names)(place)) };
                let w = PackView { frames: before.v.frames.push(f), ..before.v };
                assert(w.frames.drop_last() =~= before.v.frames);
                lemma_next_to_do(t, w);
                assert(run.archive + due(t, run.plan) =~= written);
                lemma_read_is_not_too_deep(t, (n - 1) as nat);
                done
            },
            PackPlan::Look(p) => {
                let more = done.push(p);
                assert(more.drop_last() =~= done);
                assert(more[more.len() - 1] == p);
                assert(done + seq![p] =~= more);
                assert(written =~= before.archive);
                let rest = if (t.node)(p) is Dir {
                    both(
                        inside(t, p, before.v.frames.len()),
                        places_left(t.names, t.dir_at(), before.v.frames),
                    )
                } else {
                    places_left(t.names, t.dir_at(), before.v.frames)
                };
                lemma_both(Some(done), Some(seq![p]), rest);
                assert(both(Some(done), Some(seq![p])) == Some(more));
                let archive = run.archive + due(t, run.plan);
                if (t.node)(p) is Special {
                    lemma_next_to_do(t, before.v);
                    assert(archive =~= written);
                } else {
                    assert(archive =~= written.push(packed_at(t, p)));
                    assert(archive.drop_last() =~= written);
                }
                more
            },
            PackPlan::AddLink(_) | PackPlan::AddFile(_) => {
                lemma_next_to_do(t, before.v);
                assert(run.archive + due(t, run.plan) =~= written);
                done
            },
            PackPlan::AddDir(p) => {
                assert(run.archive + due(t, run.plan) =~= written);
                done
            },
            _ => {
                assert(run.archive + due(t, run.plan) =~= written);
                done
            },
        }
    }
}

/// True when no directory of the tree is one of those it lies in.
pub open spec fn no_loop(t: Local) -> bool {
    forall|p: Seq<Seq<u8>>, k: int| #![trigger t.holds(p), p.take(k)]
        t.holds(p) && (t.node)(p) is Dir && 0 <= k < p.len() ==> (t.id)(p) != (t.id)(p.take(k))
}

/// True when the directories that the walk is in lie in each other.
pub open spec fn nested(t: Local, frames: Seq<PackFrameView>) -> bool {
    &&& forall|i: int|
        0 <= i < frames.len() ==> (#[trigger] frames[i]).place.len() == i && frames[i].id == (t.id)(
            frames[i].place,
        )
    &&& forall|i: int, j: int|
        0 <= i < j < frames.len() ==> (#[trigger] frames[i]).place == (
        #[trigger] frames[j]).place.take(i)
}

/// True when the place lies in the innermost directory that the walk is in.
pub open spec fn leads_to(frames: Seq<PackFrameView>, p: Seq<Seq<u8>>) -> bool {
    &&& p.len() == frames.len()
    &&& forall|i: int| 0 <= i < frames.len() ==> (#[trigger] frames[i]).place == p.take(i)
}

proof fn lemma_next_nested(t: Local, v: PackView)
    requires
        nested(t, v.frames),
    ensures
        nested(t, pack_next(v).0.frames),
        pack_next(v).1 matches PackPlan::Look(p) ==> leads_to(pack_next(v).0.frames, p),
    decreases v.frames.len(),
{
    if v.frames.len() > 0 {
        let top = v.frames.last();
        let below = v.frames.drop_last();
        if top.rest.len() == 0 {
            lemma_next_nested(t, PackView { frames: below, ..v });
        } else {
            let p = top.place.push(top.rest[0]);
            let frames = pack_next(v).0.frames;
            assert forall|i: int| 0 <= i < frames.len() implies (#[trigger] frames[i]).place
                == p.take(i) by {
                assert(frames[i].place == v.frames[i].place);
                if i < below.len() {
                    assert(top.place.take(i) =~= p.take(i));
                } else {
                    assert(top.place =~= p.take(i));
                }
            }
            assert forall|i: int, j: int| 0 <= i < j < frames.len() implies (
            #[trigger] frames[i]).place == (#[trigger] frames[j]).place.take(i) by {
                assert(frames[i].place == v.frames[i].place);
                assert(frames[j].place == v.frames[j].place);
            }
            assert forall|i: int| 0 <= i < frames.len() implies (#[trigger] frames[i]).place.len()
                == i && frames[i].id == (t.id)(frames[i].place) by {
                assert(frames[i].place == v.frames[i].place);
                assert(frames[i].id == v.frames[i].id);
            }
        }
    }
}

proof fn lemma_walk_does_not_fail(t: Local, n: nat)
    requires
        t.sound(),
        no_loop(t),
        t.places() is Some,
    ensures
        ({
            let run = pack_run(t, n);
            &&& !(run.plan is Failed)
            &&& !(run.plan is Done) ==> nested(t, run.v.frames)
            &&& run.plan matches PackPlan::Look(p) ==> leads_to(run.v.frames, p)
            &&& run.plan matches PackPlan::AddDir(p) ==> leads_to(run.v.frames, p)
            &&& run.plan matches PackPlan::Identify(p) ==> leads_to(run.v.frames, p)
            &&& run.plan matches PackPlan::Read { place, id } ==> leads_to(run.v.frames, place)
                && id == (t.id)(place)
        }),
    decreases n,
{
    if n > 0 {
        lemma_walk_does_not_fail(t, (n - 1) as nat);
        let before = pack_run(t, (n - 1) as nat);
        let done = lemma_pack_run(t, (n - 1) as nat);
        match before.plan {
            PackPlan::Identify(p) => {
                if p.len() > 0 {
                    let rest = to_do(t, before.v, before.plan);
                    lemma_contains_sum(done, rest->0, p);
                    law_walk_looks_at_the_tree(t, p);
                    assert forall|i: int| 0 <= i < before.v.frames.len() implies (
                    #[trigger] before.v.frames[i]).id != (t.id)(p) by {
                        assert(before.v.frames[i].place == p.take(i));
                    }
                }
            },
            PackPlan::Read { place, id } => {
                let f = PackFrameView { place, id, rest: in_order((t.names)(place)) };
                let w = PackView { frames: before.v.frames.push(f), ..before.v };
                assert forall|i: int, j: int| 0 <= i < j < w.frames.len() implies (
                #[trigger] w.frames[i]).place == (#[trigger] w.frames[j]).place.take(i) by {
                    assert(w.frames[i] == before.v.frames[i]);
                    if j < before.v.frames.len() {
                        assert(w.frames[j] == before.v.frames[j]);
                    }
                }
                lemma_next_nested(t, w);
                lemma_next_to_do(t, w);
            },
            PackPlan::Look(_) | PackPlan::AddLink(_) | PackPlan::AddFile(_) => {
                lemma_next_nested(t, before.v);
                lemma_next_to_do(t, before.v);
            },
            _ => {},
        }
    }
}

/// How many steps a walk can still take.
pub open spec fn steps_left(t: Local, run: PackRun) -> nat {
    let places = to_do(t, run.v, run.plan)->0.len();
    let more: nat = match run.plan {
        PackPlan::AddDir(_) => 4,
        PackPlan::Identify(_) => 3,
        PackPlan::Read { .. } => 2,
        PackPlan::AddLink(_) => 2,
        PackPlan::AddFile(_) => 2,
        PackPlan::Look(_) => 1,
        _ => 0,
    };
    4 * places + more
}

proof fn lemma_walk_goes_on(t: Local, n: nat)
    requires
        t.sound(),
        no_loop(t),
        t.places() is Some,
        !(pack_run(t, n).plan is Done),
    ensures
        steps_left(t, pack_run(t, n + 1)) < steps_left(t, pack_run(t, n)),
{
    let before = pack_run(t, n);
    lemma_walk_does_not_fail(t, n);
    lemma_walk_does_not_fail(t, n + 1);
    let done = lemma_pack_run(t, n);
    let more = lemma_pack_run(t, n + 1);
    assert(pack_run(t, n + 1) == pack_step(t, before));
    match before.plan {
        PackPlan::Read { place, id } => {
            let f = PackFrameView { place, id, rest: in_order((t.names)(place)) };
            let w = PackView { frames: before.v.frames.push(f), ..before.v };
            assert(w.frames.drop_last() =~= before.v.frames);
            lemma_next_to_do(t, w);
            lemma_read_is_not_too_deep(t, n);
        },
        PackPlan::Look(_) | PackPlan::AddLink(_) | PackPlan::AddFile(_) => {
            lemma_next_to_do(t, before.v);
        },
        _ => {},
    }
}

proof fn lemma_walk_ends(t: Local, n: nat) -> (end: nat)
    requires
        t.sound(),
        no_loop(t),
        t.places() is Some,
    ensures
        pack_run(t, end).plan is Done,
    decreases steps_left(t, pack_run(t, n)),
{
    if pack_run(t, n).plan is Done {
        n
    } else {
        lemma_walk_goes_on(t, n);
        lemma_walk_ends(t, n + 1)
    }
}

/// A tree is packed whole when it is not nested too deep and no directory lies
/// within itself: the walk over it comes to its end, and what it then has put
/// into the archive is what stands at the places of the tree, in their order.
pub proof fn law_walk_comes_to_its_end(t: Local) -> (end: nat)
    requires
        t.sound(),
        no_loop(t),
        t.places() is Some,
    ensures
        pack_run(t, end).plan is Done,
        pack_run(t, end).archive == recorded(t, t.places()->0),
{
    let end = lemma_walk_ends(t, 0);
    let run = pack_run(t, end);
    let done = lemma_pack_run(t, end);
    assert(run.archive + due(t, run.plan) =~= run.archive);
    assert(done + Seq::<Seq<Seq<u8>>>::empty() =~= done);
    end
}

/// A directory whose names are read lies within the depth limit.
proof fn lemma_read_is_not_too_deep(t: Local, n: nat)
    ensures
        ({
            let run = pack_run(t, n);
            run.plan is Identify || run.plan is Read ==> run.v.frames.len() <= MAX_PACK_DEPTH
        }),
    decreases n,
{
    if n > 0 {
        lemma_read_is_not_too_deep(t, (n - 1) as nat);
        let before = pack_run(t, (n - 1) as nat);
        match before.plan {
            PackPlan::Read { place, id } => {
                let f = PackFrameView { place, id, rest: in_order((t.names)(place)) };
                lemma_next_to_do(t, PackView { frames: before.v.frames.push(f), ..before.v });
            },
            PackPlan::Look(_) | PackPlan::AddLink(_) | PackPlan::AddFile(_) => {
                lemma_next_to_do(t, before.v);
            },
            _ => {},
        }
    }
}

// ---------------------------------------------------------------------------
// The places of a tree
// ---------------------------------------------------------------------------

/// True when `p` is at or below one of the names `rest` of the directory at
/// `place`.
pub open spec fn below(t: Local, p: Seq<Seq<u8>>, place: Seq<Seq<u8>>, rest: Seq<Seq<u8>>) -> bool {
    &&& p.len() > place.len()
    &&& p.take(place.len() as int) == place
    &&& rest.contains(p[place.len() as int])
    &&& forall|k: int| #![trigger p.take(k)]
        place.len() < k < p.len() ==> (t.node)(p.take(k)) is Dir && (t.names)(p.take(k)).contains(
            p[k],
        )
}

proof fn lemma_in_order_contains(s: Seq<Seq<u8>>, n: Seq<u8>)
    ensures
        in_order(s).contains(n) == s.contains(n),
{
    broadcast use vstd::seq_lib::group_to_multiset_ensures;

    law_names_are_packed_in_order(s);
    assert(in_order(s).to_multiset().count(n) == s.to_multiset().count(n));
}

proof fn lemma_below_splits(t: Local, p: Seq<Seq<u8>>, place: Seq<Seq<u8>>, rest: Seq<Seq<u8>>)
    requires
        rest.len() > 0,
    ensures
        ({
            let here = place.push(rest[0]);
            below(t, p, place, rest) <==> p == here || ((t.node)(here) is Dir && below(
                t,
                p,
                here,
                in_order((t.names)(here)),
            )) || below(t, p, place, rest.skip(1))
        }),
{
    let here = place.push(rest[0]);
    let n = place.len() as int;
    assert forall|x: Seq<u8>| rest.contains(x) == (x == rest[0] || rest.skip(1).contains(x)) by {
        if rest.contains(x) {
            let i = choose|i: int| 0 <= i < rest.len() && rest[i] == x;
            if i > 0 {
                assert(rest.skip(1)[i - 1] == x);
            }
        }
        if rest.skip(1).contains(x) {
            let i = choose|i: int| 0 <= i < rest.skip(1).len() && rest.skip(1)[i] == x;
            assert(rest[i + 1] == x);
        }
        assert(rest.contains(rest[0]));
    }
    if p == here {
        assert(p.take(n) =~= place);
        assert(p[n] == rest[0]);
    }
    if p.len() > n && p.take(n) == place && p[n] == rest[0] {
        assert(p.take(n + 1) =~= here);
        if p.len() == n + 1 {
            assert(p =~= here);
        } else {
            lemma_in_order_contains((t.names)(here), p[n + 1]);
            if below(t, p, place, rest) {
                assert((t.node)(p.take(n + 1)) is Dir);
                assert(below(t, p, here, in_order((t.names)(here))));
            }
            if (t.node)(here) is Dir && below(t, p, here, in_order((t.names)(here))) {
                assert forall|k: int| #![trigger p.take(k)] n < k < p.len() implies (t.node)(
                    p.take(k),
                ) is Dir && (t.names)(p.take(k)).contains(p[k]) by {
                    if k == n + 1 {
                        assert(p.take(k) == here);
                    }
                }
                assert(below(t, p, place, rest));
            }
        }
    }
    if (t.node)(here) is Dir && below(t, p, here, in_order((t.names)(here))) {
        assert(p.take(n) =~= here.take(n)) by {
            assert(p.take(n + 1) == here);
            assert(p.take(n + 1).take(n) =~= p.take(n));
        }
        assert(here.take(n) =~= place);
        assert(p[n] == p.take(n + 1)[n]);
    }
}

/// The places that the walk looks at are those of the tree.
proof fn lemma_tree_places(
    t: Local,
    place: Seq<Seq<u8>>,
    depth: nat,
    rest: Seq<Seq<u8>>,
    p: Seq<Seq<u8>>,
)
    requires
        tree_places(t.names, t.dir_at(), place, depth, rest) is Some,
    ensures
        tree_places(t.names, t.dir_at(), place, depth, rest)->0.contains(p) == below(
            t,
            p,
            place,
            rest,
        ),
    decreases
            (if depth <= MAX_PACK_DEPTH {
                MAX_PACK_DEPTH + 1 - depth
            } else {
                0
            }),
            rest.len(),
{
    let all = tree_places(t.names, t.dir_at(), place, depth, rest)->0;
    if rest.len() > 0 {
        let here = place.push(rest[0]);
        let one = seq![here];
        lemma_below_splits(t, p, place, rest);
        lemma_tree_places(t, place, depth, rest.skip(1), p);
        let later = tree_places(t.names, t.dir_at(), place, depth, rest.skip(1))->0;
        assert(one.contains(p) == (p == here)) by {
            assert(one[0] == here);
        }
        assert(t.dir_at()(here) == ((t.node)(here) is Dir));
        if (t.node)(here) is Dir {
            let held = tree_places(
                t.names,
                t.dir_at(),
                here,
                depth + 1,
                in_order((t.names)(here)),
            );
            lemma_tree_places(t, here, depth + 1, in_order((t.names)(here)), p);
            lemma_contains_sum(held->0, later, p);
            lemma_contains_sum(one, held->0 + later, p);
        } else {
            lemma_contains_sum(one, later, p);
        }
    }
}

proof fn lemma_contains_sum(a: Seq<Seq<Seq<u8>>>, b: Seq<Seq<Seq<u8>>>, p: Seq<Seq<u8>>)
    ensures
        (a + b).contains(p) == (a.contains(p) || b.contains(p)),
{
    let s = a + b;
    if a.contains(p) {
        let i = choose|i: int| 0 <= i < a.len() && a[i] == p;
        assert(s[i] == p);
    }
    if b.contains(p) {
        let i = choose|i: int| 0 <= i < b.len() && b[i] == p;
        assert(s[a.len() + i] == p);
    }
    if s.contains(p) {
        let i = choose|i: int| 0 <= i < s.len() && s[i] == p;
        if i < a.len() {
            assert(a[i] == p);
        } else {
            assert(b[i - a.len()] == p);
        }
    }
}

/// The walk looks at exactly the places that the tree holds.
pub proof fn law_walk_looks_at_the_tree(t: Local, place: Seq<Seq<u8>>)
    requires
        t.places() is Some,
    ensures
        t.places()->0.contains(place) == t.holds(place),
{
    let root = Seq::<Seq<u8>>::empty();
    let rest = in_order((t.names)(root));
    lemma_tree_places(t, root, 0, rest, place);
    assert(place.take(0) =~= root);
    if place.len() > 0 {
        lemma_in_order_contains((t.names)(root), place[0]);
        if t.holds(place) {
            assert((t.names)(place.take(0)).contains(place[0]));
            assert(below(t, place, root, rest));
        }
        if below(t, place, root, rest) {
            assert forall|k: int| #![trigger place.take(k)] 0 <= k < place.len() implies (t.names)(
                place.take(k),
            ).contains(place[k]) && (k > 0 ==> (t.node)(place.take(k)) is Dir) by {
                if k == 0 {
                    assert(place.take(k) == root);
                }
            }
        }
    }
}

// ---------------------------------------------------------------------------
// Extracting
// ---------------------------------------------------------------------------

/// What an extraction puts at a path.
pub enum Out {
    /// A directory.
    Dir,
    /// A file with these bytes.
    File(Seq<u8>),
}

/// What is on the disk below a directory, by path.
pub type Files = Map<Seq<u8>, Out>;

/// What comes out of an archive; none when it is refused.
pub open spec fn extracted(archive: Seq<Packed>) -> Option<(Totals, Files)>
    decreases archive.len(),
{
    if archive.len() == 0 {
        Some((Totals { files: 0, dirs: 0, bytes: 0, skipped: 0 }, Map::empty()))
    } else {
        match extracted(archive.drop_last()) {
            None => None,
            Some((t, files)) => {
                let p = archive.last();
                match judged(t, p.entry.path, p.entry.kind, p.entry.size) {
                    (_, VerdictView::Refuse(_)) => None,
                    (u, VerdictView::Skip) => Some((u, files)),
                    (u, VerdictView::Extract) => Some(
                        (
                            u,
                            files.insert(
                                p.entry.path,
                                if p.entry.kind == ArchiveKind::Directory {
                                    Out::Dir
                                } else {
                                    Out::File(p.bytes)
                                },
                            ),
                        ),
                    ),
                }
            },
        }
    }
}

/// The entries of an archive without their bytes.
pub open spec fn entries_of(archive: Seq<Packed>) -> Seq<ArchiveEntry> {
    archive.map_values(|p: Packed| p.entry)
}

proof fn lemma_extracted_is_unpacked(archive: Seq<Packed>)
    ensures
        unpacked(entries_of(archive)) == match extracted(archive) {
            Some((totals, _)) => Some(totals),
            None => None,
        },
    decreases archive.len(),
{
    if archive.len() > 0 {
        lemma_extracted_is_unpacked(archive.drop_last());
        assert(entries_of(archive).drop_last() =~= entries_of(archive.drop_last()));
        assert(entries_of(archive).last() == archive.last().entry);
    }
}

/// What an extraction leaves of what is at a place.
pub open spec fn kept(n: Node) -> Option<Out> {
    match n {
        Node::Dir => Some(Out::Dir),
        Node::File(bytes) => Some(Out::File(bytes)),
        _ => None,
    }
}

/// True when `files` are the files and directories at the places, and nothing
/// else.
pub open spec fn are_those_at(files: Files, t: Local, places: Seq<Seq<Seq<u8>>>) -> bool {
    &&& forall|p: Seq<Seq<u8>>| #[trigger]
        places.contains(p) ==> (kept((t.node)(p)) matches Some(o) ==> files.contains_key(
            archive_path(p),
        ) && files[archive_path(p)] == o)
    &&& forall|path: Seq<u8>| #[trigger]
        files.contains_key(path) ==> exists|p: Seq<Seq<u8>>| #[trigger]
            places.contains(p) && kept((t.node)(p)) is Some && archive_path(p) == path
}

/// An archive whose paths are safe and that is within the limits is taken apart
/// into what was put into it.
proof fn lemma_extracted(t: Local, places: Seq<Seq<Seq<u8>>>)
    requires
        t.sound(),
        forall|p: Seq<Seq<u8>>| #[trigger] places.contains(p) ==> ordinary_place(p) && p.len() > 0,
        totals_of(recorded(t, places)).bounded(),
    ensures
        extracted(recorded(t, places)) matches Some((totals, files)) && totals == totals_of(
            recorded(t, places),
        ) && are_those_at(files, t, places),
    decreases places.len(),
{
    if places.len() > 0 {
        let before = places.drop_last();
        let q = places.last();
        assert forall|p: Seq<Seq<u8>>| #[trigger] before.contains(p) implies places.contains(p) by {
            let i = choose|i: int| 0 <= i < before.len() && before[i] == p;
            assert(places[i] == p);
        }
        assert(places[places.len() - 1] == q);
        assert(places.contains(q));
        assert forall|p: Seq<Seq<u8>>| #[trigger] places.contains(p) implies p == q
            || before.contains(p) by {
            let i = choose|i: int| 0 <= i < places.len() && places[i] == p;
            if i < before.len() {
                assert(before[i] == p);
            }
        }
        let archive = recorded(t, places);
        if !((t.node)(q) is Special) {
            assert(archive.drop_last() =~= recorded(t, before));
        }
        lemma_extracted(t, before);
        lemma_archive_path_is_safe(q);
        let (totals, files) = extracted(recorded(t, before))->0;
        let (_, now) = extracted(archive)->0;
        assert forall|p: Seq<Seq<u8>>| #[trigger] places.contains(p) implies (kept((t.node)(p))
            matches Some(o) ==> now.contains_key(archive_path(p)) && now[archive_path(p)] == o) by {
            if p != q && archive_path(p) == archive_path(q) {
                lemma_archive_path_injective(p, q);
            }
            if p != q {
                assert(before.contains(p));
            }
        }
        assert forall|path: Seq<u8>| #[trigger] now.contains_key(path) implies exists|
            p: Seq<Seq<u8>>,
        | #[trigger] places.contains(p) && kept((t.node)(p)) is Some && archive_path(p) == path by {
            if path == archive_path(q) && kept((t.node)(q)) is Some {
                assert(places.contains(q));
            } else {
                assert(files.contains_key(path));
                let p = choose|p: Seq<Seq<u8>>| #[trigger]
                    before.contains(p) && kept((t.node)(p)) is Some && archive_path(p) == path;
                assert(places.contains(p));
            }
        }
    }
}

/// The directories that an extraction works with.
pub struct Disk {
    /// Where the archive is extracted.
    pub scratch: Option<Files>,
    /// Where the tree belongs.
    pub dest: Option<Files>,
    /// Where an older tree is set aside.
    pub backup: Option<Files>,
}

/// One step of an extraction, on a disk that does what it is told. An archive
/// that is refused fails with the error `e`, and may leave something in the
/// scratch directory.
pub open spec fn unpack_step(
    d: Disk,
    at: UnpackingView,
    archive: Seq<Packed>,
    e: Seq<char>,
    partial: Files,
) -> (Disk, UnpackingView) {
    let (after, r): (Disk, std::result::Result<bool, Seq<char>>) = match at {
        UnpackingView::ClearScratch => (Disk { scratch: None, ..d }, Ok(true)),
        UnpackingView::MakeScratch => (Disk { scratch: Some(Map::empty()), ..d }, Ok(true)),
        UnpackingView::Extract => match extracted(archive) {
            Some((_, files)) => (Disk { scratch: Some(files), ..d }, Ok(true)),
            None => (Disk { scratch: Some(partial), ..d }, Err(e)),
        },
        UnpackingView::Promote(p) => match p {
            PromotionView::ClearBackup => (Disk { backup: None, ..d }, Ok(true)),
            PromotionView::LookAtDest => (d, Ok(d.dest is Some)),
            PromotionView::SetAside => (Disk { dest: None, backup: d.dest, ..d }, Ok(true)),
            PromotionView::Install => (Disk { dest: d.scratch, scratch: None, ..d }, Ok(true)),
            PromotionView::ClearOld => (Disk { backup: None, ..d }, Ok(true)),
            PromotionView::LookAtBackup(_) => (d, Ok(d.backup is Some)),
            PromotionView::Restore(_) => (Disk { dest: d.backup, backup: None, ..d }, Ok(true)),
            _ => (d, Ok(true)),
        },
        UnpackingView::RemoveScratch(_) => (Disk { scratch: None, ..d }, Ok(true)),
        _ => (d, Ok(true)),
    };
    (after, unpacking(at, r))
}

/// A whole extraction: its steps up to the end, at most `fuel` of them.
pub open spec fn unpack_run(
    d: Disk,
    at: UnpackingView,
    archive: Seq<Packed>,
    e: Seq<char>,
    partial: Files,
    fuel: nat,
) -> (Disk, UnpackingView)
    decreases fuel,
{
    if at is Done || at is Failed || fuel == 0 {
        (d, at)
    } else {
        let (after, next) = unpack_step(d, at, archive, e, partial);
        unpack_run(after, next, archive, e, partial, (fuel - 1) as nat)
    }
}

/// An archive that is accepted takes the place of what was at the destination,
/// and nothing is left of the older tree or of the work. An archive that is
/// refused leaves the destination as it was, and nothing of the work.
pub proof fn law_extraction_replaces_all_or_nothing(
    d: Disk,
    archive: Seq<Packed>,
    e: Seq<char>,
    partial: Files,
    fuel: nat,
)
    requires
        fuel >= 8,
    ensures
        unpack_run(d, UnpackingView::ClearScratch, archive, e, partial, fuel) == match extracted(
            archive,
        ) {
            Some((_, files)) => (
                Disk { scratch: None, dest: Some(files), backup: None },
                UnpackingView::Done,
            ),
            None => (Disk { scratch: None, ..d }, UnpackingView::Failed(e)),
        },
{
    reveal_with_fuel(unpack_run, 9);
}

// ---------------------------------------------------------------------------
// The round trip
// ---------------------------------------------------------------------------

/// A tree that was packed comes out of its archive as it was. When the walk has
/// come to its end, and what it has packed is within the limits, the counts are
/// those of the tree; the archive is accepted, and as many files, directories
/// and bytes come out of it; and then the destination holds every file with its
/// bytes and every directory of the tree, at its place, and nothing else,
/// whatever was there before. Links are counted as left out.
pub proof fn law_packed_tree_comes_back(
    t: Local,
    n: nat,
    d: Disk,
    e: Seq<char>,
    partial: Files,
    fuel: nat,
)
    requires
        t.sound(),
        pack_run(t, n).plan is Done,
        totals_of(pack_run(t, n).archive).bounded(),
        fuel >= 8,
    ensures
        ({
            let archive = pack_run(t, n).archive;
            let totals = totals_of(archive);
            let (after, end) = unpack_run(
                d,
                UnpackingView::ClearScratch,
                archive,
                e,
                partial,
                fuel,
            );
            &&& t.places() is Some
            &&& archive == recorded(t, t.places()->0)
            &&& pack_run(t, n).plan matches PackPlan::Done(files, dirs, raw)
            &&& totals.files == files && totals.dirs == dirs && totals.bytes == raw
            &&& extracted(archive) matches Some((out, tree))
            &&& out == totals
            &&& unpacked(entries_of(archive)) == Some(totals)
            &&& end is Done
            &&& after == (Disk { scratch: None, dest: Some(tree), backup: None })
            &&& forall|p: Seq<Seq<u8>>| #[trigger]
                t.holds(p) ==> (kept((t.node)(p)) matches Some(o) ==> tree.contains_key(
                    archive_path(p),
                ) && tree[archive_path(p)] == o)
            &&& forall|path: Seq<u8>| #[trigger]
                tree.contains_key(path) ==> exists|p: Seq<Seq<u8>>| #[trigger]
                    t.holds(p) && kept((t.node)(p)) is Some && archive_path(p) == path
        }),
{
    let run = pack_run(t, n);
    let done = lemma_pack_run(t, n);
    assert(run.archive + due(t, run.plan) =~= run.archive);
    assert(done + Seq::<Seq<Seq<u8>>>::empty() =~= done);
    assert(t.places() == Some(done));
    assert forall|p: Seq<Seq<u8>>| #[trigger] done.contains(p) implies ordinary_place(p) && p.len()
        > 0 by {
        law_walk_looks_at_the_tree(t, p);
        assert forall|i: int| 0 <= i < p.len() implies ordinary_name(#[trigger] p[i]) by {
            assert((t.names)(p.take(i)).contains(p[i]));
        }
    }
    lemma_extracted(t, done);
    lemma_extracted_is_unpacked(run.archive);
    law_extraction_replaces_all_or_nothing(d, run.archive, e, partial, fuel);
    let (_, tree) = extracted(run.archive)->0;
    assert forall|p: Seq<Seq<u8>>| #[trigger] t.holds(p) implies (kept((t.node)(p)) matches Some(o)
        ==> tree.contains_key(archive_path(p)) && tree[archive_path(p)] == o) by {
        law_walk_looks_at_the_tree(t, p);
        assert(done.contains(p));
    }
    assert forall|path: Seq<u8>| #[trigger] tree.contains_key(path) implies exists|
        p: Seq<Seq<u8>>,
    | #[trigger] t.holds(p) && kept((t.node)(p)) is Some && archive_path(p) == path by {
        let p = choose|p: Seq<Seq<u8>>| #[trigger]
            done.contains(p) && kept((t.node)(p)) is Some && archive_path(p) == path;
        law_walk_looks_at_the_tree(t, p);
        assert(t.holds(p));
    }
}

} // verus!
