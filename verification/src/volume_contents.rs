//! What the files of a volume hold: the bytes behind the requests.
//!
//! The volume itself keeps no contents. They are in the local staging files and
//! in the objects of the device, and a request reaches them through the steps
//! that it asks for. Here both are modelled, each step is carried out on the
//! model, and the whole of a request is its steps up to the reply.

use vstd::prelude::*;

use crate::error::ErrorView;
use crate::ids::{kind_of, law_real_id_round_trip, virtual_id, Kind, VIRT_FLAG};
use crate::model::Entry;
use crate::nfs::NfsStat;
use crate::session::child_named;
use crate::volume::{
    brand_new, commit_plan, deleted_turn, device_copy, device_object, dir_id, dir_of,
    discarded_plan, flushed_stage, fresh_stage, getattr_plan, informed_turn, lemma_stage_place,
    lemma_with_stage, length_turn, listed_id, listed_turn, local_read_plan, made_dir_turn, new_file_turn,
    pull_more, pull_start, pulled_stage, read_plan, read_turn, remove_object, remove_turn,
    rename_turn, renamed_stage, renamed_turn, set_len_turn, setattr_plan, stage_attr,
    stage_for_writes, stage_of, stage_place, staged_named, staged_next, stored_plan,
    uploaded_turn, with_stage, without_stage, written_stage, written_turn, StageView, VolumeView,
    CHUNK,
};
use crate::volume_laws::{distinct_ids, lemma_without_stage_distinct};
use crate::volume_step::{NextView, OnDeleteView, OnInfoView, PullView, Stability, VolPlan, VolReplyView};

verus! {

// ---------------------------------------------------------------------------
// Bytes
// ---------------------------------------------------------------------------

/// The bytes of a file after `data` was written at `offset`. A gap is filled
/// with zeros; nothing is written where there is no data.
pub open spec fn overwritten(f: Seq<u8>, offset: nat, data: Seq<u8>) -> Seq<u8> {
    let end = offset + data.len();
    if data.len() == 0 {
        f
    } else {
        Seq::new(
            if f.len() >= end {
                f.len()
            } else {
                end
            },
            |i: int|
                if offset <= i < end {
                    data[i - offset]
                } else if i < f.len() {
                    f[i]
                } else {
                    0
                },
        )
    }
}

/// The bytes of a file after its length was set.
pub open spec fn resized(f: Seq<u8>, size: nat) -> Seq<u8> {
    Seq::new(
        size,
        |i: int|
            if i < f.len() {
                f[i]
            } else {
                0
            },
    )
}

proof fn lemma_overwritten(f: Seq<u8>, offset: nat, data: Seq<u8>)
    requires
        data.len() > 0 || offset <= f.len(),
    ensures
        overwritten(f, offset, data).len() == if f.len() >= offset + data.len() {
            f.len()
        } else {
            offset + data.len()
        },
        part_of(overwritten(f, offset, data), offset, data.len()) == data,
{
    assert(part_of(overwritten(f, offset, data), offset, data.len()) =~= data);
}

/// Up to `count` bytes of a file from `offset` on.
pub open spec fn part_of(f: Seq<u8>, offset: nat, count: nat) -> Seq<u8> {
    if offset >= f.len() {
        Seq::empty()
    } else if offset + count <= f.len() {
        f.subrange(offset as int, (offset + count) as int)
    } else {
        f.skip(offset as int)
    }
}

// ---------------------------------------------------------------------------
// The model
// ---------------------------------------------------------------------------

/// A file on the device.
pub struct Object {
    /// What the device says of it.
    pub entry: Entry,
    /// What it holds.
    pub bytes: Seq<u8>,
}

/// A volume with the files behind it.
#[verifier::ext_equal]
pub struct World {
    /// The volume.
    pub v: VolumeView,
    /// The staging files, by id.
    pub files: Map<u64, Seq<u8>>,
    /// The files on the device, by storage and handle.
    pub objects: Map<(usize, u64), Object>,
    /// The directories of the device, by storage and handle.
    pub dirs: Map<(usize, u64), Seq<Entry>>,
    /// True when the device refuses a read that goes beyond the end of a file;
    /// otherwise it gives what there is.
    pub strict: bool,
    /// The handle that the device gives to the next upload.
    pub next: u64,
    /// The time.
    pub now: u64,
}

/// The error with which a device refuses a read.
pub open spec fn refusal() -> ErrorView {
    ErrorView::Mtp("refused"@)
}

/// What the device answers to a read.
pub open spec fn device_read(w: World, storage: usize, handle: u64, offset: u64, count: u32) -> std::result::Result<
    Seq<u8>,
    ErrorView,
> {
    if !w.objects.contains_key((storage, handle)) {
        Err(ErrorView::NotFound(""@))
    } else {
        let bytes = w.objects[(storage, handle)].bytes;
        if w.strict && offset + count > bytes.len() {
            Err(refusal())
        } else {
            Ok(part_of(bytes, offset as nat, count as nat))
        }
    }
}

/// What the device says of a file that was uploaded.
pub open spec fn uploaded_entry(handle: u64, parent: u64, name: Seq<char>, size: u64) -> Entry {
    Entry { handle, parent, name: choose|s: String| s@ == name, is_dir: false, size }
}

/// What the device says of a directory that was made.
pub open spec fn new_dir_entry(handle: u64, parent: u64, name: Seq<char>) -> Entry {
    Entry { handle, parent, name: choose|s: String| s@ == name, is_dir: true, size: 0 }
}

/// The directories of the device without the entry of an object.
pub open spec fn unlisted(
    dirs: Map<(usize, u64), Seq<Entry>>,
    storage: usize,
    handle: u64,
) -> Map<(usize, u64), Seq<Entry>> {
    Map::new(
        |key: (usize, u64)| dirs.contains_key(key),
        |key: (usize, u64)|
            if key.0 == storage {
                dirs[key].filter(|e: Entry| e.handle != handle)
            } else {
                dirs[key]
            },
    )
}

/// The directories of the device with one more entry in one of them.
pub open spec fn enlisted(
    dirs: Map<(usize, u64), Seq<Entry>>,
    storage: usize,
    dir: u64,
    e: Entry,
) -> Map<(usize, u64), Seq<Entry>> {
    if dirs.contains_key((storage, dir)) {
        dirs.insert((storage, dir), dirs[(storage, dir)].push(e))
    } else {
        dirs
    }
}

/// The entry of a directory of the device with the given name.
pub open spec fn device_child(w: World, storage: usize, dir: u64, name: Seq<char>) -> Option<Entry> {
    if w.dirs.contains_key((storage, dir)) {
        child_named(w.dirs[(storage, dir)], name)
    } else {
        None
    }
}

/// An entry under another name in another directory.
pub open spec fn entry_at(e: Entry, parent: u64, name: Seq<char>) -> Entry {
    Entry { parent, name: choose|s: String| s@ == name, ..e }
}

/// The device after the entry `e` got another name in the directory `to`. The
/// object stays what it is.
pub open spec fn device_renamed(w: World, storage: usize, e: Entry, to: u64, name: Seq<char>) -> World {
    let key = (storage, e.handle);
    let moved = entry_at(e, to, name);
    World {
        objects: if w.objects.contains_key(key) {
            w.objects.insert(
                key,
                Object {
                    entry: entry_at(w.objects[key].entry, to, name),
                    bytes: w.objects[key].bytes,
                },
            )
        } else {
            w.objects
        },
        dirs: enlisted(unlisted(w.dirs, storage, e.handle), storage, to, moved),
        ..w
    }
}

/// One step: what it changes, and what the volume asks for next.
pub open spec fn perform(w: World, plan: VolPlan) -> (World, VolPlan) {
    match plan {
        VolPlan::List { storage, dir, after } => {
            let r = if w.dirs.contains_key((storage, dir)) {
                Ok(w.dirs[(storage, dir)])
            } else {
                Err(ErrorView::NotFound(""@))
            };
            let (v, next) = listed_turn(w.v, after, r);
            (World { v, ..w }, next)
        },
        VolPlan::Rename { storage, from, from_name, to, to_name, id, to_dirid } => match device_child(
            w,
            storage,
            from,
            from_name,
        ) {
            Some(e) => {
                let (v, next) = renamed_turn(w.v, id, to_dirid, to_name, Ok(()));
                (World { v, ..device_renamed(w, storage, e, to, to_name) }, next)
            },
            None => {
                let (v, next) = renamed_turn(
                    w.v,
                    id,
                    to_dirid,
                    to_name,
                    Err(ErrorView::NotFound(""@)),
                );
                (World { v, ..w }, next)
            },
        },
        VolPlan::Mkdir { storage, parent, name } => if w.dirs.contains_key((storage, parent)) {
            let (v, next) = made_dir_turn(w.v, storage, Ok(w.next));
            let e = new_dir_entry(w.next, parent, name);
            (
                World {
                    v,
                    dirs: enlisted(w.dirs, storage, parent, e).insert(
                        (storage, w.next),
                        Seq::empty(),
                    ),
                    ..w
                },
                next,
            )
        } else {
            let (v, next) = made_dir_turn(w.v, storage, Err(ErrorView::NotFound(""@)));
            (World { v, ..w }, next)
        },
        VolPlan::Info { storage, handle, after } => {
            let r = if w.objects.contains_key((storage, handle)) {
                Ok(w.objects[(storage, handle)].entry)
            } else {
                Err(ErrorView::NotFound(""@))
            };
            let (v, next) = informed_turn(w.v, w.now, after, r);
            (World { v, ..w }, next)
        },
        VolPlan::Read { storage, handle, offset, count, after } => {
            let (v, next) = read_turn(w.v, after, device_read(w, storage, handle, offset, count));
            (World { v, ..w }, next)
        },
        VolPlan::Delete { storage, handle, after } => {
            let r = if w.objects.contains_key((storage, handle)) {
                Ok(())
            } else {
                Err(ErrorView::NotFound(""@))
            };
            let (v, next) = deleted_turn(w.v, after, r);
            (
                World {
                    v,
                    objects: w.objects.remove((storage, handle)),
                    dirs: unlisted(w.dirs, storage, handle),
                    ..w
                },
                next,
            )
        },
        VolPlan::Upload { id, storage, parent, name, size } => if w.files[id].len() == size {
            let (v, next) = uploaded_turn(w.v, w.now, id, storage, size, Ok(w.next));
            let object = Object {
                entry: uploaded_entry(w.next, parent, name, size),
                bytes: w.files[id],
            };
            (
                World {
                    v,
                    objects: w.objects.insert((storage, w.next), object),
                    dirs: enlisted(w.dirs, storage, parent, object.entry),
                    ..w
                },
                next,
            )
        } else {
            let (v, next) = uploaded_turn(w.v, w.now, id, storage, size, Err(refusal()));
            (World { v, ..w }, next)
        },
        VolPlan::NewFile { id, after } => {
            let (v, next) = new_file_turn(w.v, id, after, true);
            (World { v, files: w.files.insert(id, Seq::empty()), ..w }, next)
        },
        VolPlan::Store { pull, data } => (
            World {
                files: w.files.insert(
                    pull.id,
                    overwritten(w.files[pull.id], pull.off as nat, data),
                ),
                ..w
            },
            stored_plan(w.v, pull, data.len(), true),
        ),
        VolPlan::Length { pull } => {
            let (v, next) = length_turn(w.v, pull, Some(w.files[pull.id].len() as u64));
            (World { v, ..w }, next)
        },
        VolPlan::SetLen { id, size, create } => {
            let (v, next) = set_len_turn(w.v, id, size, create, true);
            (World { v, files: w.files.insert(id, resized(w.files[id], size as nat)), ..w }, next)
        },
        VolPlan::WriteAt { id, offset, data } => {
            let (v, next) = written_turn(w.v, id, offset, data.len() as usize, true);
            (
                World {
                    v,
                    files: w.files.insert(id, overwritten(w.files[id], offset as nat, data)),
                    ..w
                },
                next,
            )
        },
        VolPlan::ReadAt { id, offset, count } => (
            w,
            local_read_plan(
                offset,
                Some(
                    (
                        part_of(w.files[id], offset as nat, count as nat),
                        w.files[id].len() as u64,
                    ),
                ),
            ),
        ),
        VolPlan::Discard { id, ok } => (
            World { files: w.files.remove(id), ..w },
            discarded_plan(ok),
        ),
        _ => (w, plan),
    }
}

/// A whole request: its steps up to the reply, at most `fuel` of them.
pub open spec fn run(w: World, plan: VolPlan, fuel: nat) -> (World, VolPlan)
    decreases fuel,
{
    if plan is Done || fuel == 0 {
        (w, plan)
    } else {
        let (u, next) = perform(w, plan);
        run(u, next, (fuel - 1) as nat)
    }
}

/// What the file `id` holds: its staging file, or else the object that the id
/// names.
pub open spec fn contents(w: World, id: u64) -> Option<Seq<u8>> {
    match stage_of(w.v.staged, id) {
        Some(_) => Some(w.files[id]),
        None => match kind_of(id) {
            Some(Kind::Real(d)) => if w.objects.contains_key((d.storage_index, d.handle)) {
                Some(w.objects[(d.storage_index, d.handle)].bytes)
            } else {
                None
            },
            _ => None,
        },
    }
}

/// True when the staging file of every staged file has the size of its stage.
pub open spec fn stages_agree(w: World) -> bool {
    forall|id: u64|
        #[trigger] stage_of(w.v.staged, id) matches Some(s) ==> w.files.contains_key(id)
            && w.files[id].len() == s.size
}

/// True when the device tells the truth about its files.
pub open spec fn objects_agree(w: World) -> bool {
    forall|key: (usize, u64)| #[trigger]
        w.objects.contains_key(key) ==> {
            let o = w.objects[key];
            &&& o.entry.size == o.bytes.len()
            &&& !o.entry.is_dir
            &&& dir_id(key.0, o.entry.parent) is Some
        }
}

/// True when the cached attributes are those of the files.
pub open spec fn attrs_agree(w: World) -> bool {
    forall|id: u64| #[trigger]
        w.v.attrs.contains_key(id) && stage_of(w.v.staged, id) is None ==> (contents(w, id) matches
            Some(f) ==> !w.v.attrs[id].is_dir && w.v.attrs[id].size == f.len())
}

/// A world whose parts agree, with a device session.
pub open spec fn agrees(w: World) -> bool {
    &&& w.v.attached
    &&& stages_agree(w)
    &&& objects_agree(w)
    &&& attrs_agree(w)
}

/// True when nothing but the staging of `id` changed.
pub open spec fn rest_unchanged(w: World, u: World, id: u64) -> bool {
    &&& u.objects == w.objects
    &&& forall|other: u64| other != id ==> #[trigger] contents(u, other) == contents(w, other)
}

/// True when the stage of `id`, if there is one, stands for the object that the
/// id names, as long as that object is there.
pub open spec fn stands_for_object(w: World, id: u64) -> bool {
    match (stage_of(w.v.staged, id), kind_of(id)) {
        (Some(s), Some(Kind::Real(d))) => {
            &&& device_copy(s) is Some
            &&& s.flushed_dev is None ==> s.origin_dev == Some(d.handle) && s.storage_index
                == d.storage_index
            &&& w.objects.contains_key((d.storage_index, d.handle)) ==> device_copy(s) == Some(
                d.handle,
            ) && s.storage_index == d.storage_index
        },
        _ => true,
    }
}

// ---------------------------------------------------------------------------
// Staging
// ---------------------------------------------------------------------------

proof fn lemma_stage_id(s: Seq<StageView>, id: u64)
    ensures
        stage_of(s, id) matches Some(x) ==> x.id == id,
{
    lemma_stage_place(s, id, 0);
}

/// The pull of an object goes on to its end: the staging file then holds all
/// that the object holds.
#[verifier::rlimit(40)]
proof fn lemma_pull(w: World, p: PullView, fuel: nat) -> (r: (World, nat))
    requires
        w.v.attached,
        w.objects.contains_key((p.storage, p.handle)),
        w.objects[(p.storage, p.handle)].bytes.len() == p.size,
        p.off <= p.size,
        w.files.contains_key(p.id),
        w.files[p.id] == w.objects[(p.storage, p.handle)].bytes.take(p.off as int),
        fuel >= 2 * (p.size - p.off) + 1,
    ensures
        run(w, pull_more(w.v, p), fuel) == run(
            r.0,
            staged_next(r.0.v, pulled_stage(p), p.next),
            r.1,
        ),
        r.1 >= fuel - 2 * (p.size - p.off) - 1,
        r.0 == (World {
            v: VolumeView {
                staged: with_stage(w.v.staged, pulled_stage(p)),
                stats: r.0.v.stats,
                ..w.v
            },
            files: w.files.insert(p.id, w.objects[(p.storage, p.handle)].bytes),
            ..w
        }),
    decreases p.size - p.off,
{
    let bytes = w.objects[(p.storage, p.handle)].bytes;
    let plan = pull_more(w.v, p);
    if p.off < p.size {
        let count: u32 = if p.size - p.off < CHUNK {
            (p.size - p.off) as u32
        } else {
            CHUNK
        };
        let data = part_of(bytes, p.off as nat, count as nat);
        assert(data.len() == count);
        let (w1, plan1) = perform(w, plan);
        assert(run(w, plan, fuel) == run(w1, plan1, (fuel - 1) as nat));
        assert(plan1 == (VolPlan::Store { pull: p, data }));
        let (w2, plan2) = perform(w1, plan1);
        assert(run(w1, plan1, (fuel - 1) as nat) == run(w2, plan2, (fuel - 2) as nat));
        let q = PullView { off: (p.off + count) as u64, ..p };
        assert(plan2 == pull_more(w2.v, q));
        assert(w2.files[p.id] =~= bytes.take(q.off as int));
        let (u, m) = lemma_pull(w2, q, (fuel - 2) as nat);
        assert(pulled_stage(q) == pulled_stage(p));
        assert(w2.files.insert(p.id, bytes) =~= w.files.insert(p.id, bytes));
        (u, m)
    } else {
        assert(bytes.take(p.off as int) =~= bytes);
        let (u, next) = perform(w, plan);
        assert(run(w, plan, fuel) == run(u, next, (fuel - 1) as nat));
        assert(w.files.insert(p.id, bytes) =~= u.files);
        (u, (fuel - 1) as nat)
    }
}

/// An object that is not staged yet is staged with what it holds.
proof fn lemma_pull_whole(w: World, p: PullView, fuel: nat) -> (r: (World, nat))
    requires
        agrees(w),
        stage_of(w.v.staged, p.id) is None,
        w.objects.contains_key((p.storage, p.handle)),
        contents(w, p.id) == Some(w.objects[(p.storage, p.handle)].bytes),
        p.size == contents(w, p.id)->0.len(),
        p.off == 0,
        fuel >= 2 * p.size + 2,
    ensures
        run(w, pull_start(w.v, p), fuel) == run(
            r.0,
            staged_next(r.0.v, pulled_stage(p), p.next),
            r.1,
        ),
        r.1 >= fuel - 2 * p.size - 2,
        stage_of(r.0.v.staged, p.id) == Some(pulled_stage(p)),
        r.0.files.contains_key(p.id),
        r.0.files[p.id] == contents(w, p.id)->0,
        agrees(r.0),
        rest_unchanged(w, r.0, p.id),
        r.0.v.writable == w.v.writable,
{
    let id = p.id;
    let bytes = w.objects[(p.storage, p.handle)].bytes;
    let plan = pull_start(w.v, p);
    let (w1, plan1) = perform(w, plan);
    assert(run(w, plan, fuel) == run(w1, plan1, (fuel - 1) as nat));
    assert(plan1 == pull_more(w1.v, p));
    assert(w1.files[id] =~= bytes.take(0));
    let (u, m) = lemma_pull(w1, p, (fuel - 1) as nat);
    assert(w1.files.insert(id, bytes) =~= w.files.insert(id, bytes));
    lemma_with_stage(w.v.staged, pulled_stage(p));
    assert forall|other: u64| other != id implies #[trigger] contents(u, other) == contents(
        w,
        other,
    ) by {
        assert(stage_of(u.v.staged, other) == stage_of(w.v.staged, other));
    }
    assert(stages_agree(u)) by {
        assert forall|x: u64|
            #[trigger] stage_of(u.v.staged, x) matches Some(s) implies u.files.contains_key(x)
            && u.files[x].len() == stage_of(u.v.staged, x)->0.size by {
            if x != id {
                assert(stage_of(u.v.staged, x) == stage_of(w.v.staged, x));
            }
        }
    }
    assert(attrs_agree(u)) by {
        assert forall|x: u64| #[trigger]
            u.v.attrs.contains_key(x) && stage_of(u.v.staged, x) is None implies (contents(u, x)
            matches Some(f) ==> !u.v.attrs[x].is_dir && u.v.attrs[x].size == f.len()) by {
            assert(x != id);
            assert(contents(u, x) == contents(w, x));
            assert(stage_of(u.v.staged, x) == stage_of(w.v.staged, x));
            assert(w.v.attrs.contains_key(x));
        }
    }
    (u, m)
}

/// Before a file is changed it is staged with what it holds.
proof fn lemma_stage(w: World, id: u64, next: NextView, fuel: nat) -> (r: (World, nat, StageView))
    requires
        agrees(w),
        w.v.writable,
        contents(w, id) is Some,
        fuel >= 2 * contents(w, id)->0.len() + 4,
    ensures
        run(w, stage_for_writes(w.v, id, next), fuel) == run(
            r.0,
            staged_next(r.0.v, r.2, next),
            r.1,
        ),
        r.1 >= 1,
        r.2.id == id,
        stage_of(r.0.v.staged, id) == Some(r.2),
        r.0.files.contains_key(id),
        r.0.files[id] == contents(w, id)->0,
        r.2.size == contents(w, id)->0.len(),
        agrees(r.0),
        rest_unchanged(w, r.0, id),
        stands_for_object(w, id) ==> stands_for_object(r.0, id),
{
    lemma_stage_id(w.v.staged, id);
    match stage_of(w.v.staged, id) {
        Some(s) => (w, fuel, s),
        None => {
            let d = kind_of(id)->0->Real_0;
            let o = w.objects[(d.storage_index, d.handle)];
            let p = PullView {
                id,
                storage: d.storage_index,
                handle: d.handle,
                name: o.entry.name@,
                parent_id: dir_id(d.storage_index, o.entry.parent)->0,
                size: o.entry.size,
                off: 0,
                next,
            };
            let plan = stage_for_writes(w.v, id, next);
            let (w1, plan1) = perform(w, plan);
            assert(run(w, plan, fuel) == run(w1, plan1, (fuel - 1) as nat));
            assert(w1 == w);
            assert(plan1 == pull_start(w.v, p));
            let (u, m) = lemma_pull_whole(w, p, (fuel - 1) as nat);
            (u, m, pulled_stage(p))
        },
    }
}

/// A stage and its staging file change together.
proof fn lemma_restaged(w: World, u: World, id: u64, s: StageView, bytes: Seq<u8>)
    requires
        agrees(w),
        s.id == id,
        s.size == bytes.len(),
        stage_of(w.v.staged, id) is Some,
        u == (World {
            v: VolumeView { staged: with_stage(w.v.staged, s), attrs: Map::empty(), ..w.v },
            files: w.files.insert(id, bytes),
            ..w
        }),
    ensures
        agrees(u),
        rest_unchanged(w, u, id),
        contents(u, id) == Some(bytes),
        stage_of(u.v.staged, id) == Some(s),
{
    lemma_with_stage(w.v.staged, s);
    assert forall|other: u64| other != id implies #[trigger] contents(u, other) == contents(
        w,
        other,
    ) by {
        assert(stage_of(u.v.staged, other) == stage_of(w.v.staged, other));
    }
    assert forall|x: u64|
        #[trigger] stage_of(u.v.staged, x) matches Some(t) implies u.files.contains_key(x)
        && u.files[x].len() == stage_of(u.v.staged, x)->0.size by {
        if x != id {
            assert(stage_of(u.v.staged, x) == stage_of(w.v.staged, x));
        }
    }
}

// ---------------------------------------------------------------------------
// Reading
// ---------------------------------------------------------------------------

/// A read gives what the file holds there, staged or not, whether or not the
/// device refuses reads beyond the end. The end of the file is told whenever
/// less comes back than was asked for, and only there. Nothing is changed.
pub proof fn law_read_gives_the_contents(w: World, id: u64, offset: u64, count: u32, fuel: nat)
    requires
        agrees(w),
        contents(w, id) is Some,
        contents(w, id)->0.len() <= u64::MAX,
        fuel >= 3,
    ensures
        ({
            let f = contents(w, id)->0;
            let bytes = part_of(f, offset as nat, count as nat);
            let (u, reply) = run(w, read_plan(w.v, id, offset, count), fuel);
            &&& reply matches VolPlan::Done(Ok(VolReplyView::Data { bytes: got, eof }))
            &&& got == bytes
            &&& bytes.len() < count ==> eof
            &&& eof ==> offset + bytes.len() >= f.len()
            &&& u.files == w.files
            &&& u.objects == w.objects
            &&& u.v.staged == w.v.staged
            &&& u.v.attrs == w.v.attrs
        }),
{
    reveal_with_fuel(run, 5);
    let f = contents(w, id)->0;
    let bytes = part_of(f, offset as nat, count as nat);
    let plan = read_plan(w.v, id, offset, count);
    match stage_of(w.v.staged, id) {
        Some(s) => {
            let (u, reply) = perform(w, plan);
            assert(run(w, plan, fuel) == (u, reply));
        },
        None => {
            let d = kind_of(id)->0->Real_0;
            let key = (d.storage_index, d.handle);
            assert(w.objects.contains_key(key));
            let (w1, plan1) = perform(w, plan);
            if plan1 is Done {
                assert(run(w, plan, fuel) == (w1, plan1));
            } else {
                let (w2, plan2) = perform(w1, plan1);
                if plan2 is Done {
                    assert(run(w, plan, fuel) == (w2, plan2));
                    if w.strict && offset + count > f.len() {
                        assert(offset >= f.len());
                        assert(bytes =~= Seq::empty());
                    }
                } else {
                    assert(w.strict && offset + count > f.len() && offset < f.len());
                    let short = (f.len() - offset) as u32;
                    assert(part_of(f, offset as nat, short as nat) =~= bytes);
                    let (w3, plan3) = perform(w2, plan2);
                    assert(plan3 is Done);
                    assert(run(w, plan, fuel) == (w3, plan3));
                }
            }
        },
    }
}

/// The attributes of a file give its length, from its stage, from the cache or
/// from the device.
pub proof fn law_attributes_give_the_length(w: World, id: u64, fuel: nat)
    requires
        agrees(w),
        contents(w, id) is Some,
        fuel >= 1,
    ensures
        ({
            let (u, reply) = run(w, getattr_plan(w.v, w.now, id), fuel);
            &&& reply matches VolPlan::Done(Ok(VolReplyView::Attr(a)))
            &&& a.size == contents(w, id)->0.len()
            &&& !a.is_dir
            &&& u.files == w.files
            &&& u.objects == w.objects
            &&& u.v.staged == w.v.staged
            &&& agrees(u)
        }),
{
    reveal_with_fuel(run, 3);
    let plan = getattr_plan(w.v, w.now, id);
    match stage_of(w.v.staged, id) {
        Some(s) => {},
        None => {
            let d = kind_of(id)->0->Real_0;
            let key = (d.storage_index, d.handle);
            assert(w.objects.contains_key(key));
            if !(plan is Done) {
                let (u, reply) = perform(w, plan);
                assert(run(w, plan, fuel) == (u, reply));
                assert(attrs_agree(u)) by {
                    assert forall|x: u64| #[trigger]
                        u.v.attrs.contains_key(x) && stage_of(u.v.staged, x) is None implies (
                    contents(u, x) matches Some(f) ==> !u.v.attrs[x].is_dir && u.v.attrs[x].size
                        == f.len()) by {
                        assert(contents(u, x) == contents(w, x));
                        if x != id {
                            assert(w.v.attrs.contains_key(x));
                        }
                    }
                }
                assert(stages_agree(u));
            } else {
                assert(w.v.attrs.contains_key(id));
            }
        },
    }
}

// ---------------------------------------------------------------------------
// Changing
// ---------------------------------------------------------------------------

proof fn lemma_last_step(w: World, plan: VolPlan, fuel: nat)
    requires
        fuel >= 1,
        !(plan is Done),
        perform(w, plan).1 is Done,
    ensures
        run(w, plan, fuel) == perform(w, plan),
{
    reveal_with_fuel(run, 2);
}

/// A write puts its data into the file and changes nothing else, whether or not
/// the file was staged before. So a read of the same range gives the data back,
/// and a read of any other range gives what was there. (A write of no data
/// beyond the end is left out: there is nothing to put there.)
#[verifier::rlimit(40)]
pub proof fn law_write_changes_the_contents(
    w: World,
    id: u64,
    offset: u64,
    data: Seq<u8>,
    fuel: nat,
)
    requires
        agrees(w),
        w.v.writable,
        contents(w, id) is Some,
        data.len() <= u32::MAX,
        offset + data.len() <= u64::MAX,
        data.len() > 0 || offset <= contents(w, id)->0.len(),
        fuel >= 2 * contents(w, id)->0.len() + 4,
    ensures
        ({
            let plan = stage_for_writes(w.v, id, NextView::Write { offset, data });
            let (u, reply) = run(w, plan, fuel);
            let f = overwritten(contents(w, id)->0, offset as nat, data);
            &&& reply matches VolPlan::Done(
                Ok(VolReplyView::Written { attr, stability, count }),
            )
            &&& attr.size == f.len()
            &&& stability == Stability::Unstable
            &&& count == data.len()
            &&& contents(u, id) == Some(f)
            &&& part_of(f, offset as nat, data.len()) == data
            &&& stage_of(u.v.staged, id) matches Some(s)
            &&& s.dirty
            &&& rest_unchanged(w, u, id)
            &&& agrees(u)
            &&& stands_for_object(w, id) ==> stands_for_object(u, id)
        }),
{
    let next = NextView::Write { offset, data };
    let (x, m, s) = lemma_stage(w, id, next, fuel);
    let f = overwritten(contents(w, id)->0, offset as nat, data);
    lemma_overwritten(contents(w, id)->0, offset as nat, data);
    let plan = VolPlan::WriteAt { id, offset, data };
    assert(staged_next(x.v, s, next) == plan);
    let (u, reply) = perform(x, plan);
    lemma_last_step(x, plan, m);
    let t = written_stage(s, offset, data.len());
    assert(f.len() == t.size);
    lemma_restaged(x, u, id, t, f);
    assert forall|other: u64| other != id implies #[trigger] contents(u, other) == contents(
        w,
        other,
    ) by {
        assert(contents(x, other) == contents(w, other));
    }
}

/// Setting the size cuts the file or fills it up with zeros, and changes nothing
/// else.
#[verifier::rlimit(40)]
pub proof fn law_size_changes_the_contents(w: World, id: u64, size: u64, fuel: nat)
    requires
        agrees(w),
        w.v.writable,
        contents(w, id) is Some,
        fuel >= 2 * contents(w, id)->0.len() + 4,
    ensures
        ({
            let (u, reply) = run(w, setattr_plan(w.v, w.now, id, Some(size)), fuel);
            let f = resized(contents(w, id)->0, size as nat);
            &&& reply matches VolPlan::Done(Ok(VolReplyView::Attr(attr)))
            &&& attr.size == size
            &&& contents(u, id) == Some(f)
            &&& stage_of(u.v.staged, id) matches Some(s)
            &&& s.dirty
            &&& rest_unchanged(w, u, id)
            &&& agrees(u)
            &&& stands_for_object(w, id) ==> stands_for_object(u, id)
        }),
{
    let next = NextView::SetLen { size };
    let (x, m, s) = lemma_stage(w, id, next, fuel);
    let f = resized(contents(w, id)->0, size as nat);
    let plan = VolPlan::SetLen { id, size, create: false };
    assert(staged_next(x.v, s, next) == plan);
    let (u, reply) = perform(x, plan);
    lemma_last_step(x, plan, m);
    lemma_restaged(x, u, id, StageView { size, dirty: true, ..s }, f);
    assert forall|other: u64| other != id implies #[trigger] contents(u, other) == contents(
        w,
        other,
    ) by {
        assert(contents(x, other) == contents(w, other));
    }
}

/// The creation of a file that exists keeps what it holds: `dirid` is the
/// directory in which it was found.
pub proof fn law_creation_keeps_the_contents(w: World, id: u64, dirid: u64, fuel: nat)
    requires
        agrees(w),
        kind_of(id) matches Some(Kind::Real(d)) && w.objects.contains_key(
            (d.storage_index, d.handle),
        ),
        contents(w, id) is Some,
        fuel >= 2 * contents(w, id)->0.len() + 4,
    ensures
        ({
            let d = kind_of(id)->0->Real_0;
            let next = NextView::Create { size: None };
            let (u, reply) = run(
                w,
                VolPlan::Info {
                    storage: d.storage_index,
                    handle: d.handle,
                    after: OnInfoView::New {
                        id,
                        storage: d.storage_index,
                        handle: d.handle,
                        dirid,
                        next,
                    },
                },
                fuel,
            );
            &&& reply matches VolPlan::Done(Ok(VolReplyView::Created { id: made, attr }))
            &&& made == id
            &&& attr.size == contents(w, id)->0.len()
            &&& contents(u, id) == contents(w, id)
            &&& rest_unchanged(w, u, id)
            &&& agrees(u)
        }),
{
    let d = kind_of(id)->0->Real_0;
    let o = w.objects[(d.storage_index, d.handle)];
    let next = NextView::Create { size: None };
    let p = PullView {
        id,
        storage: d.storage_index,
        handle: d.handle,
        name: o.entry.name@,
        parent_id: dirid,
        size: o.entry.size,
        off: 0,
        next,
    };
    let plan = VolPlan::Info {
        storage: d.storage_index,
        handle: d.handle,
        after: OnInfoView::New { id, storage: d.storage_index, handle: d.handle, dirid, next },
    };
    let (w1, plan1) = perform(w, plan);
    assert(run(w, plan, fuel) == run(w1, plan1, (fuel - 1) as nat));
    assert(w1 == w);
    assert(plan1 == pull_start(w.v, p));
    lemma_stage_id(w.v.staged, id);
    if stage_of(w.v.staged, id) is None {
        let (u, m) = lemma_pull_whole(w, p, (fuel - 1) as nat);
    }
}

/// A file that did not exist is empty when it was created.
pub proof fn law_new_file_is_empty(w: World, dirid: u64, name: Seq<char>, fuel: nat)
    requires
        agrees(w),
        w.v.virt_seq < VIRT_FLAG - 1,
        fuel >= 1,
    ensures
        ({
            let next = NextView::Create { size: None };
            let (v, plan) = brand_new(w.v, dirid, name, next);
            let (u, reply) = run(World { v, ..w }, plan, fuel);
            let id = virtual_id((w.v.virt_seq + 1) as u64);
            &&& reply matches VolPlan::Done(Ok(VolReplyView::Created { id: made, attr }))
            &&& made == id
            &&& attr.size == 0
            &&& contents(u, id) == Some(Seq::<u8>::empty())
            &&& rest_unchanged(w, u, id)
            &&& agrees(u)
        }),
{
    let next = NextView::Create { size: None };
    let (v, plan) = brand_new(w.v, dirid, name, next);
    let x = World { v, ..w };
    let id = virtual_id((w.v.virt_seq + 1) as u64);
    let (u, reply) = perform(x, plan);
    assert(run(x, plan, fuel) == (u, reply)) by {
        reveal_with_fuel(run, 2);
    }
    lemma_with_stage(w.v.staged, fresh_stage(id, dirid, name));
    assert forall|other: u64| other != id implies #[trigger] contents(u, other) == contents(
        w,
        other,
    ) by {
        assert(stage_of(u.v.staged, other) == stage_of(w.v.staged, other));
    }
    assert forall|y: u64|
        #[trigger] stage_of(u.v.staged, y) matches Some(z) implies u.files.contains_key(y)
        && u.files[y].len() == stage_of(u.v.staged, y)->0.size by {
        if y != id {
            assert(stage_of(u.v.staged, y) == stage_of(w.v.staged, y));
        }
    }
    assert forall|y: u64| #[trigger]
        u.v.attrs.contains_key(y) && stage_of(u.v.staged, y) is None implies (contents(u, y)
        matches Some(f) ==> !u.v.attrs[y].is_dir && u.v.attrs[y].size == f.len()) by {
        assert(y != id);
        assert(contents(u, y) == contents(w, y));
        assert(stage_of(u.v.staged, y) == stage_of(w.v.staged, y));
        assert(w.v.attrs.contains_key(y));
    }
}

// ---------------------------------------------------------------------------
// Committing
// ---------------------------------------------------------------------------

/// The device after the copy that a stage stood for was replaced by one with the
/// handle `handle`.
pub open spec fn replaced(
    objects: Map<(usize, u64), Object>,
    storage: usize,
    old_copy: Option<u64>,
    handle: u64,
    object: Object,
) -> Map<(usize, u64), Object> {
    (match old_copy {
        Some(h) => objects.remove((storage, h)),
        None => objects,
    }).insert((storage, handle), object)
}

/// A commit sends the file to the device as it is: afterwards the device holds
/// one copy of it, in place of the one that it held, with the bytes of the file,
/// and nothing else has changed there. The file itself holds what it held, and
/// committing it again does nothing.
pub proof fn law_commit_sends_the_contents(w: World, id: u64, fuel: nat)
    requires
        agrees(w),
        w.v.writable,
        stage_of(w.v.staged, id) matches Some(s) && s.dirty && dir_of(s.parent_id) is Some,
        fuel >= 2,
    ensures
        ({
            let s = stage_of(w.v.staged, id)->0;
            let (storage, parent) = dir_of(s.parent_id)->0;
            let (u, reply) = run(w, commit_plan(w.v, w.now, id), fuel);
            let t = flushed_stage(s, storage, w.next, s.size);
            &&& reply == VolPlan::Done(Ok(VolReplyView::Attr(stage_attr(u.v, t))))
            &&& u.objects == replaced(
                w.objects,
                storage,
                device_copy(s),
                w.next,
                Object {
                    entry: uploaded_entry(w.next, parent, s.name, s.size),
                    bytes: contents(w, id)->0,
                },
            )
            &&& contents(u, id) == contents(w, id)
            &&& stage_of(u.v.staged, id) == Some(t)
            &&& stages_agree(u)
            &&& dir_id(storage, parent) is Some ==> agrees(u)
            &&& stands_for_object(w, id) && storage == s.storage_index ==> stands_for_object(u, id)
            &&& run(u, commit_plan(u.v, u.now, id), fuel) == (u, reply)
        }),
{
    reveal_with_fuel(run, 4);
    let s = stage_of(w.v.staged, id)->0;
    lemma_stage_id(w.v.staged, id);
    let (storage, parent) = dir_of(s.parent_id)->0;
    let t = flushed_stage(s, storage, w.next, s.size);
    lemma_with_stage(w.v.staged, t);
    let first = commit_plan(w.v, w.now, id);
    let upload = VolPlan::Upload { id, storage, parent, name: s.name, size: s.size };
    let (x, plan) = if device_copy(s) is Some {
        perform(w, first)
    } else {
        (w, first)
    };
    assert(plan == upload);
    assert(x.v == w.v);
    let (u, reply) = perform(x, upload);
    assert(reply == VolPlan::Done(Ok(VolReplyView::Attr(stage_attr(u.v, t)))));
    assert(run(w, first, fuel) == (u, reply));
    assert forall|y: u64| #[trigger] stage_of(u.v.staged, y) matches Some(z) implies u.files.contains_key(
        y,
    ) && u.files[y].len() == stage_of(u.v.staged, y)->0.size by {
        if y != id {
            assert(stage_of(u.v.staged, y) == stage_of(w.v.staged, y));
        }
    }
}

// ---------------------------------------------------------------------------
// Renaming and removing
// ---------------------------------------------------------------------------

/// True when the name leads to a file that never was on the device.
pub open spec fn local_only(w: World, dirid: u64, name: Seq<char>) -> bool {
    match staged_named(w.v.staged, dirid, name) {
        Some(id) => match stage_of(w.v.staged, id) {
            Some(s) => device_copy(s) is None,
            None => false,
        },
        None => false,
    }
}

/// True when the name leads to a file that is not staged, in the storage of the
/// directory `to_dirid`.
pub open spec fn device_only(w: World, dirid: u64, name: Seq<char>, to_dirid: u64) -> bool {
    match (dir_of(dirid), dir_of(to_dirid)) {
        (Some((storage, dir)), Some((i, _))) => {
            &&& i == storage
            &&& staged_named(w.v.staged, dirid, name) is None
            &&& w.dirs.contains_key((storage, dir))
            &&& match listed_id(storage, w.dirs[(storage, dir)], name) {
                Ok(id) => stage_of(w.v.staged, id) is None,
                Err(_) => false,
            }
        },
        _ => false,
    }
}

/// True when the name leads to a staged file with a copy on the device, which
/// lies there under that name, and both directories are in one storage.
pub open spec fn staged_copy(w: World, dirid: u64, name: Seq<char>, to_dirid: u64) -> bool {
    match (staged_named(w.v.staged, dirid, name), dir_of(dirid), dir_of(to_dirid)) {
        (Some(id), Some((storage, dir)), Some((i, _))) => match stage_of(w.v.staged, id) {
            Some(s) => match (device_copy(s), device_object(w.v, id)) {
                (Some(_), Some((j, _))) => i == storage && j == storage && device_child(
                    w,
                    storage,
                    dir,
                    name,
                ) is Some,
                _ => false,
            },
            None => false,
        },
        _ => false,
    }
}

/// A rename changes what no file holds, whether or not it succeeds. A file that
/// only the volume has, a file that only the device has, and a staged file with
/// a copy on the device, is renamed within its storage.
pub proof fn law_rename_keeps_the_contents(
    w: World,
    from_dirid: u64,
    from_name: Seq<char>,
    to_dirid: u64,
    to_name: Seq<char>,
    fuel: nat,
)
    requires
        agrees(w),
        fuel >= 2,
    ensures
        ({
            let (v, plan) = rename_turn(w.v, from_dirid, from_name, to_dirid, to_name);
            let (u, reply) = run(World { v, ..w }, plan, fuel);
            &&& reply is Done
            &&& forall|id: u64| #[trigger] contents(u, id) == contents(w, id)
            &&& u.files == w.files
            &&& u.objects.dom() == w.objects.dom()
            &&& stages_agree(u)
            &&& w.v.writable && (local_only(w, from_dirid, from_name) || device_only(
                w,
                from_dirid,
                from_name,
                to_dirid,
            ) || staged_copy(w, from_dirid, from_name, to_dirid)) ==> reply == VolPlan::Done(
                Ok(VolReplyView::Nothing),
            )
            &&& w.v.writable && staged_copy(w, from_dirid, from_name, to_dirid) ==> {
                let id = staged_named(w.v.staged, from_dirid, from_name)->0;
                stage_of(u.v.staged, id) == Some(
                    renamed_stage(stage_of(w.v.staged, id)->0, to_dirid, to_name),
                )
            }
        }),
{
    let (v, plan) = rename_turn(w.v, from_dirid, from_name, to_dirid, to_name);
    let x = World { v, ..w };
    reveal_with_fuel(run, 3);
    if plan is Done {
        if w.v.writable && local_only(w, from_dirid, from_name) {
            let id = staged_named(w.v.staged, from_dirid, from_name)->0;
            let s = stage_of(w.v.staged, id)->0;
            lemma_stage_id(w.v.staged, id);
            lemma_renamed_stage(w, x, s, to_dirid, to_name);
        }
    } else {
        assert(x == w);
        let (w1, plan1) = perform(x, plan);
        if plan is List {
            assert(w1 == w);
            if let Some((storage, from)) = dir_of(from_dirid) {
                if w.dirs.contains_key((storage, from)) && listed_id(
                    storage,
                    w.dirs[(storage, from)],
                    from_name,
                ) is Ok {
                    let e = child_named(w.dirs[(storage, from)], from_name)->0;
                    law_real_id_round_trip(storage, e.handle);
                }
            }
            if plan1 is Rename {
                lemma_device_rename(w, plan1);
            }
        } else {
            lemma_device_rename(w, plan);
            if staged_copy(w, from_dirid, from_name, to_dirid) {
                let id = staged_named(w.v.staged, from_dirid, from_name)->0;
                let s = stage_of(w.v.staged, id)->0;
                lemma_stage_id(w.v.staged, id);
                lemma_with_stage(w.v.staged, renamed_stage(s, to_dirid, to_name));
            }
        }
    }
}

/// A staged file is in the table.
proof fn lemma_staged_named_is_staged(s: Seq<StageView>, dirid: u64, name: Seq<char>)
    ensures
        staged_named(s, dirid, name) matches Some(id) ==> stage_of(s, id) is Some,
    decreases s.len(),
{
    if s.len() > 0 {
        let t = s.drop_first();
        lemma_staged_named_is_staged(t, dirid, name);
        if let Some(id) = staged_named(s, dirid, name) {
            lemma_stage_place(s, id, 0);
            lemma_stage_place(t, id, 0);
            if stage_place(s, id, 0) is None {
                assert(s[0].id != id);
                let i = stage_place(t, id, 0)->0;
                assert(t[i as int] == s[i as int + 1]);
            }
        }
    }
}

/// Another name of a stage changes what no file holds.
proof fn lemma_renamed_stage(w: World, u: World, s: StageView, to_dirid: u64, to_name: Seq<char>)
    requires
        agrees(w),
        stage_of(w.v.staged, s.id) == Some(s),
        u.v.staged == with_stage(w.v.staged, renamed_stage(s, to_dirid, to_name)),
        u.files == w.files,
        u.objects.dom() == w.objects.dom(),
        forall|key: (usize, u64)| #[trigger]
            w.objects.contains_key(key) ==> u.objects[key].bytes == w.objects[key].bytes,
    ensures
        forall|id: u64| #[trigger] contents(u, id) == contents(w, id),
        stages_agree(u),
{
    let t = renamed_stage(s, to_dirid, to_name);
    lemma_with_stage(w.v.staged, t);
    assert forall|id: u64| #[trigger] contents(u, id) == contents(w, id) by {
        if id != s.id {
            assert(stage_of(u.v.staged, id) == stage_of(w.v.staged, id));
        }
        lemma_same_objects(w, u, id);
    }
    assert forall|x: u64|
        #[trigger] stage_of(u.v.staged, x) matches Some(z) implies u.files.contains_key(x)
        && u.files[x].len() == stage_of(u.v.staged, x)->0.size by {
        if x != s.id {
            assert(stage_of(u.v.staged, x) == stage_of(w.v.staged, x));
        }
    }
}

/// The same objects hold the same behind every id.
proof fn lemma_same_objects(w: World, u: World, id: u64)
    requires
        u.objects.dom() == w.objects.dom(),
        forall|key: (usize, u64)| #[trigger]
            w.objects.contains_key(key) ==> u.objects[key].bytes == w.objects[key].bytes,
        u.files == w.files,
        stage_of(u.v.staged, id) is Some <==> stage_of(w.v.staged, id) is Some,
    ensures
        contents(u, id) == contents(w, id),
{
    if let Some(Kind::Real(d)) = kind_of(id) {
        let key = (d.storage_index, d.handle);
        assert(u.objects.dom().contains(key) == w.objects.dom().contains(key));
    }
}

/// A rename on the device changes what no file holds.
proof fn lemma_device_rename(w: World, plan: VolPlan)
    requires
        agrees(w),
        plan is Rename,
    ensures
        ({
            let (u, reply) = perform(w, plan);
            &&& reply is Done
            &&& forall|id: u64| #[trigger] contents(u, id) == contents(w, id)
            &&& u.files == w.files
            &&& u.objects.dom() == w.objects.dom()
            &&& stages_agree(u)
        }),
{
    let (u, reply) = perform(w, plan);
    assert(u.objects.dom() =~= w.objects.dom());
    if let VolPlan::Rename { storage, from, from_name, to, to_name, id, to_dirid } = plan {
        if device_child(w, storage, from, from_name) is Some {
            match stage_of(w.v.staged, id) {
                Some(s) => {
                    lemma_stage_id(w.v.staged, id);
                    lemma_renamed_stage(w, u, s, to_dirid, to_name);
                },
                None => {
                    assert forall|x: u64| #[trigger] contents(u, x) == contents(w, x) by {
                        lemma_same_objects(w, u, x);
                    }
                },
            }
        }
    }
}

/// The file that a name in a directory leads to: a staged one first, then what
/// the device lists.
pub open spec fn found(w: World, dirid: u64, name: Seq<char>) -> Option<u64> {
    match staged_named(w.v.staged, dirid, name) {
        Some(id) => Some(id),
        None => match dir_of(dirid) {
            Some((storage, dir)) => if w.dirs.contains_key((storage, dir)) {
                match listed_id(storage, w.dirs[(storage, dir)], name) {
                    Ok(id) => Some(id),
                    Err(_) => None,
                }
            } else {
                None
            },
            None => None,
        },
    }
}

/// The object on the device that belongs to the file `id`.
pub open spec fn own_object(w: World, id: u64) -> Option<(usize, u64)> {
    match stage_of(w.v.staged, id) {
        Some(s) => match device_copy(s) {
            Some(h) => Some((s.storage_index, h)),
            None => None,
        },
        None => match kind_of(id) {
            Some(Kind::Real(d)) => Some((d.storage_index, d.handle)),
            _ => None,
        },
    }
}

/// The objects of the device without the one that belongs to the file `id`.
pub open spec fn without_own(w: World, id: u64) -> Map<(usize, u64), Object> {
    match own_object(w, id) {
        Some(key) => w.objects.remove(key),
        None => w.objects,
    }
}

/// True when the id `other` names an object directly.
pub open spec fn names_object(other: u64, key: Option<(usize, u64)>) -> bool {
    kind_of(other) matches Some(Kind::Real(d)) && key == Some((d.storage_index, d.handle))
}

/// The removal of a file that is there leaves nothing behind its id: no stage
/// and no object. Every other file, and every other object of the device, is as
/// it was. It succeeds whenever the object that belongs to the file is there,
/// and where none does; otherwise nothing is changed.
pub proof fn law_removal_leaves_nothing_behind(
    w: World,
    dirid: u64,
    name: Seq<char>,
    id: u64,
    fuel: nat,
)
    requires
        agrees(w),
        w.v.writable,
        distinct_ids(w.v.staged),
        stands_for_object(w, id),
        found(w, dirid, name) == Some(id),
        contents(w, id) is Some,
        fuel >= 3,
    ensures
        ({
            let (v, plan) = remove_turn(w.v, dirid, name);
            let (u, reply) = run(World { v, ..w }, plan, fuel);
            let gone = own_object(w, id);
            let there = gone is None || w.objects.contains_key(gone->0);
            &&& there ==> {
                &&& reply == VolPlan::Done(Ok(VolReplyView::Nothing))
                &&& contents(u, id) is None
                &&& stage_of(u.v.staged, id) is None
                &&& u.objects == without_own(w, id)
                &&& forall|other: u64|
                    other != id && !names_object(other, gone) ==> #[trigger] contents(u, other)
                        == contents(w, other)
            }
            &&& !there ==> {
                &&& reply == VolPlan::Done(Err(NfsStat::Noent))
                &&& u.v == w.v
                &&& u.files == w.files
                &&& u.objects == w.objects
            }
        }),
{
    let (v, plan) = remove_turn(w.v, dirid, name);
    let x = World { v, ..w };
    let gone = own_object(w, id);
    lemma_stage_id(w.v.staged, id);
    match staged_named(w.v.staged, dirid, name) {
        Some(_) => {
            lemma_staged_named_is_staged(w.v.staged, dirid, name);
            match gone {
                Some(key) => {
                    assert(x == w);
                    lemma_deletion(w, id, key, OnDeleteView::Staged { id }, fuel);
                },
                None => {
                    let (u, reply) = perform(x, plan);
                    assert(run(x, plan, fuel) == (u, reply)) by {
                        reveal_with_fuel(run, 2);
                    }
                    lemma_without_stage(w.v.staged, id);
                    assert forall|other: u64| other != id implies #[trigger] contents(u, other)
                        == contents(w, other) by {
                        assert(stage_of(u.v.staged, other) == stage_of(w.v.staged, other));
                    }
                },
            }
        },
        None => {
            let (storage, dir) = dir_of(dirid)->0;
            let e = child_named(w.dirs[(storage, dir)], name)->0;
            law_real_id_round_trip(storage, e.handle);
            assert(x == w);
            let (w1, plan1) = perform(w, plan);
            assert(w1 == w);
            assert(plan1 == remove_object(w.v, id));
            assert(device_object(w.v, id) == gone);
            assert(run(w, plan, fuel) == run(w, plan1, (fuel - 1) as nat));
            lemma_deletion(w, id, gone->0, OnDeleteView::Object { id }, (fuel - 1) as nat);
        },
    }
}

/// The deletion of the object that belongs to a file, and what follows it.
proof fn lemma_deletion(w: World, id: u64, key: (usize, u64), after: OnDeleteView, fuel: nat)
    requires
        agrees(w),
        distinct_ids(w.v.staged),
        stands_for_object(w, id),
        contents(w, id) is Some,
        own_object(w, id) == Some(key),
        after == (OnDeleteView::Object { id }) || (after == (OnDeleteView::Staged { id })
            && stage_of(w.v.staged, id) is Some),
        fuel >= 2,
    ensures
        ({
            let plan = VolPlan::Delete { storage: key.0, handle: key.1, after };
            let (u, reply) = run(w, plan, fuel);
            &&& w.objects.contains_key(key) ==> {
                &&& reply == VolPlan::Done(Ok(VolReplyView::Nothing))
                &&& contents(u, id) is None
                &&& stage_of(u.v.staged, id) is None
                &&& u.objects == w.objects.remove(key)
                &&& forall|other: u64|
                    other != id && !names_object(other, Some(key)) ==> #[trigger] contents(u, other)
                        == contents(w, other)
            }
            &&& !w.objects.contains_key(key) ==> {
                &&& reply == VolPlan::Done(Err(NfsStat::Noent))
                &&& u.v == w.v
                &&& u.files == w.files
                &&& u.objects == w.objects
            }
        }),
{
    let plan = VolPlan::Delete { storage: key.0, handle: key.1, after };
    let (w1, plan1) = perform(w, plan);
    assert(run(w, plan, fuel) == run(w1, plan1, (fuel - 1) as nat));
    if w.objects.contains_key(key) {
        let (u, reply) = run(w, plan, fuel);
        if stage_of(w.v.staged, id) is Some {
            lemma_without_stage(w.v.staged, id);
            let (w2, plan2) = perform(w1, plan1);
            assert(run(w1, plan1, (fuel - 1) as nat) == (w2, plan2)) by {
                reveal_with_fuel(run, 2);
            }
        }
        assert(u.objects == w.objects.remove(key));
        assert forall|other: u64| other != id && !names_object(other, Some(key)) implies #[trigger] contents(
            u,
            other,
        ) == contents(w, other) by {
            assert(stage_of(u.v.staged, other) == stage_of(w.v.staged, other));
        }
    } else {
        assert(w.objects.remove(key) =~= w.objects);
    }
}

proof fn lemma_without_stage(s: Seq<StageView>, id: u64)
    requires
        distinct_ids(s),
    ensures
        stage_of(without_stage(s, id), id) is None,
        forall|other: u64| other != id ==> #[trigger] stage_of(without_stage(s, id), other)
            == stage_of(s, other),
{
    lemma_without_stage_distinct(s, id);
    let t = without_stage(s, id);
    lemma_stage_place(s, id, 0);
    if let Some(k) = stage_place(s, id, 0) {
        assert forall|other: u64| other != id implies #[trigger] stage_of(t, other) == stage_of(
            s,
            other,
        ) by {
            lemma_stage_place(s, other, 0);
            lemma_stage_place(t, other, 0);
            match stage_place(s, other, 0) {
                Some(i) => {
                    let j = if i < k {
                        i as int
                    } else {
                        i - 1
                    };
                    assert(t[j] == s[i as int]);
                    let m = stage_place(t, other, 0)->0;
                    assert(t[m as int].id == other);
                    assert(t[m as int] == s[if m < k {
                        m as int
                    } else {
                        m as int + 1
                    }]);
                },
                None => {
                    if let Some(m) = stage_place(t, other, 0) {
                        assert(t[m as int] == s[if m < k {
                        m as int
                    } else {
                        m as int + 1
                    }]);
                    }
                },
            }
        }
    }
}

} // verus!
