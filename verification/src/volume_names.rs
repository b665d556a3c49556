//! Where the files and directories of a volume are found: the names behind the
//! requests.
//!
//! A directory of the volume stands for a directory of the device. The laws say
//! of each request what is then found under which name, and that it changes no
//! other directory.

use vstd::prelude::*;

use crate::dirlist::{deduped, sorted, ChildView};
use crate::ids::{
    kind_of, law_real_id_round_trip, law_root_ids, real_id, virtual_id, Kind, HANDLE_BOUND,
    STORAGE_BASE_ID, STORAGE_BOUND, VIRT_FLAG,
};
use crate::model::Entry;
use crate::names::{law_same_name_ci, same_name_ci};
use crate::nfs::NfsStat;
use crate::session::child_named;
use crate::session_runs::{is_named, lemma_is_named};
use crate::text::trim;
use crate::volume::{
    all_encodable, commit_plan, device_copy, dir_of, entry_children, exclusive_turn, flushed_stage,
    fresh_stage, full_listing, lemma_with_stage, lookup_plan, mkdir_plan, readdir_plan, remove_turn,
    rename_turn, stage_new, stage_of, staged_children, staged_named, StageView, VolumeView,
};
use crate::volume_contents::{
    device_child, enlisted, entry_at, new_dir_entry, perform, run, unlisted, uploaded_entry, World,
};
use crate::volume_laws::law_listing_shows_every_name;
use crate::volume_step::{DirEntryView, NextView, VolPlan, VolReplyView};

verus! {

/// True when the id is the one of a directory of the device: of the root of a
/// storage, which is the object 0, or of the object `dir` in it.
pub open spec fn stands_for(dirid: u64, storage: usize, dir: u64) -> bool {
    &&& storage < STORAGE_BOUND
    &&& dir < HANDLE_BOUND
    &&& dirid == STORAGE_BASE_ID + storage && dir == 0 || dirid == real_id(storage, dir)
}

/// True when no child has the name.
pub open spec fn is_free(children: Seq<Entry>, name: Seq<char>) -> bool {
    forall|i: int| 0 <= i < children.len() ==> !same_name_ci((#[trigger] children[i]).name@, name)
}

pub proof fn lemma_stands_for(dirid: u64, storage: usize, dir: u64)
    requires
        stands_for(dirid, storage, dir),
    ensures
        dir_of(dirid) == Some((storage, dir)),
        kind_of(dirid) matches Some(Kind::StorageRoot(i)) ==> i == storage && dir == 0,
        kind_of(dirid) matches Some(Kind::Real(d)) ==> d.storage_index == storage && d.handle == dir,
        kind_of(dirid) is Some && !(kind_of(dirid)->0 is DeviceRoot),
{
    if dirid == real_id(storage, dir) {
        law_real_id_round_trip(storage, dir);
    } else {
        law_root_ids(storage as u64);
    }
}

proof fn lemma_free(children: Seq<Entry>, name: Seq<char>)
    ensures
        is_free(children, name) <==> child_named(children, name) is None,
    decreases children.len(),
{
    if children.len() > 0 {
        let rest = children.drop_first();
        lemma_free(rest, name);
        if is_free(children, name) {
            assert(!same_name_ci(children[0].name@, name));
            assert forall|i: int| 0 <= i < rest.len() implies !same_name_ci(
                (#[trigger] rest[i]).name@,
                name,
            ) by {
                assert(rest[i] == children[i + 1]);
            }
        }
        if child_named(children, name) is None {
            assert forall|i: int| 0 <= i < children.len() implies !same_name_ci(
                (#[trigger] children[i]).name@,
                name,
            ) by {
                if i > 0 {
                    assert(children[i] == rest[i - 1]);
                }
            }
        }
    }
}

proof fn lemma_pushed(children: Seq<Entry>, e: Entry, name: Seq<char>)
    requires
        is_free(children, name),
        same_name_ci(e.name@, name),
    ensures
        child_named(children.push(e), name) == Some(e),
{
    let all = children.push(e);
    let n = children.len() as int;
    assert(all[n] == e);
    assert forall|j: int| 0 <= j < n implies !same_name_ci((#[trigger] all[j]).name@, name) by {
        assert(all[j] == children[j]);
    }
    assert(is_named(all, name, e));
    lemma_is_named(all, name, e);
}

pub proof fn lemma_one(w: World, plan: VolPlan, fuel: nat)
    requires
        fuel >= 1,
    ensures
        plan is Done ==> run(w, plan, fuel) == (w, plan),
        !(plan is Done) && perform(w, plan).1 is Done ==> run(w, plan, fuel) == perform(w, plan),
        !(plan is Done) ==> run(w, plan, fuel) == run(
            perform(w, plan).0,
            perform(w, plan).1,
            (fuel - 1) as nat,
        ),
{
    reveal_with_fuel(run, 2);
}

// ---------------------------------------------------------------------------
// Looking up
// ---------------------------------------------------------------------------

/// A name in a directory leads to the file that is staged there under it, or else
/// to the first entry with that name in the directory of the device that the id
/// stands for; where there is neither, it leads to nothing.
pub proof fn law_lookup_finds_the_entry(
    w: World,
    dirid: u64,
    storage: usize,
    dir: u64,
    name: Seq<char>,
    e: Entry,
    fuel: nat,
)
    requires
        w.v.attached,
        stands_for(dirid, storage, dir),
        w.dirs.contains_key((storage, dir)),
        fuel >= 1,
    ensures
        ({
            let (u, reply) = run(w, lookup_plan(w.v, dirid, name), fuel);
            &&& u == w
            &&& staged_named(w.v.staged, dirid, name) matches Some(id) ==> reply == VolPlan::Done(
                Ok(VolReplyView::Id(id)),
            )
            &&& staged_named(w.v.staged, dirid, name) is None ==> {
                &&& is_named(w.dirs[(storage, dir)], name, e) && e.handle < HANDLE_BOUND ==> reply
                    == VolPlan::Done(Ok(VolReplyView::Id(real_id(storage, e.handle))))
                &&& is_free(w.dirs[(storage, dir)], name) ==> reply == VolPlan::Done(
                    Err(NfsStat::Noent),
                )
            }
        }),
{
    lemma_stands_for(dirid, storage, dir);
    lemma_free(w.dirs[(storage, dir)], name);
    lemma_is_named(w.dirs[(storage, dir)], name, e);
    lemma_one(w, lookup_plan(w.v, dirid, name), fuel);
}

/// A staged file has the directory and the name under which it is found.
pub proof fn law_staged_file_has_its_name(s: Seq<StageView>, dirid: u64, name: Seq<char>)
    ensures
        match staged_named(s, dirid, name) {
            Some(id) => exists|i: int|
                0 <= i < s.len() && (#[trigger] s[i]).id == id && s[i].parent_id == dirid
                    && same_name_ci(s[i].name, name),
            None => forall|i: int|
                0 <= i < s.len() ==> !((#[trigger] s[i]).parent_id == dirid && same_name_ci(
                    s[i].name,
                    name,
                )),
        },
    decreases s.len(),
{
    if s.len() > 0 {
        let t = s.drop_first();
        law_staged_file_has_its_name(t, dirid, name);
        match staged_named(t, dirid, name) {
            Some(id) => {
                let i = choose|i: int|
                    0 <= i < t.len() && (#[trigger] t[i]).id == id && t[i].parent_id == dirid
                        && same_name_ci(t[i].name, name);
                assert(s[i + 1] == t[i]);
                assert(s[0] == s.first());
            },
            None => {
                assert(s[0] == s.first());
                assert forall|i: int| 0 < i < s.len() implies !((#[trigger] s[i]).parent_id == dirid
                    && same_name_ci(s[i].name, name)) by {
                    assert(s[i] == t[i - 1]);
                }
            },
        }
    }
}

// ---------------------------------------------------------------------------
// Making directories
// ---------------------------------------------------------------------------

/// A new directory lies in the directory in which it was made, under the name it
/// was given: a lookup of that name there finds the id that was replied, the
/// directory of the device has one entry more, and it is empty. No other
/// directory and no file is changed.
pub proof fn law_new_directory_is_found_where_it_was_made(
    w: World,
    dirid: u64,
    storage: usize,
    dir: u64,
    name: String,
    fuel: nat,
)
    requires
        w.v.attached,
        w.v.writable,
        stands_for(dirid, storage, dir),
        w.dirs.contains_key((storage, dir)),
        is_free(w.dirs[(storage, dir)], name@),
        staged_named(w.v.staged, dirid, name@) is None,
        w.next < HANDLE_BOUND,
        w.next != dir,
        fuel >= 1,
    ensures
        ({
            let (u, reply) = run(w, mkdir_plan(w.v, dirid, name@), fuel);
            let id = real_id(storage, w.next);
            let before = w.dirs[(storage, dir)];
            let after = u.dirs[(storage, dir)];
            &&& reply matches VolPlan::Done(Ok(VolReplyView::Created { id: made, attr }))
            &&& made == id
            &&& attr.is_dir
            &&& run(u, lookup_plan(u.v, dirid, name@), fuel).1 == VolPlan::Done(
                Ok(VolReplyView::Id(id)),
            )
            &&& stands_for(id, storage, w.next)
            &&& u.dirs.contains_key((storage, w.next))
            &&& u.dirs[(storage, w.next)].len() == 0
            &&& after.len() == before.len() + 1
            &&& after.drop_last() == before
            &&& after.last().name@ == name@
            &&& after.last().handle == w.next
            &&& after.last().is_dir
            &&& forall|key: (usize, u64)|
                key != (storage, dir) && key != (storage, w.next) ==> (#[trigger] u.dirs.contains_key(
                    key,
                ) == w.dirs.contains_key(key)) && u.dirs[key] == w.dirs[key]
            &&& u.files == w.files
            &&& u.objects == w.objects
            &&& u.v.staged == w.v.staged
        }),
{
    lemma_stands_for(dirid, storage, dir);
    let plan = mkdir_plan(w.v, dirid, name@);
    lemma_one(w, plan, fuel);
    let (u, reply) = perform(w, plan);
    let e = new_dir_entry(w.next, dir, name@);
    assert(e.name@ == name@) by {
        let s = choose|s: String| s@ == name@;
        assert(name@ == name@);
    }
    assert(u.dirs[(storage, dir)] == w.dirs[(storage, dir)].push(e));
    assert(w.dirs[(storage, dir)].push(e).drop_last() =~= w.dirs[(storage, dir)]);
    law_same_name_ci(e.name@, name@);
    lemma_pushed(w.dirs[(storage, dir)], e, name@);
    lemma_is_named(u.dirs[(storage, dir)], name@, e);
    law_lookup_finds_the_entry(u, dirid, storage, dir, name@, e, fuel);
}

/// A directory is made in no file, in no root of the device and under no new
/// file: such a request is refused, and so is every one on a volume that is read
/// only.
pub proof fn law_directories_are_made_in_directories_only(
    v: VolumeView,
    dirid: u64,
    name: Seq<char>,
)
    ensures
        !v.writable ==> mkdir_plan(v, dirid, name) == VolPlan::Done(Err(NfsStat::Rofs)),
        v.writable && (dirid == crate::ids::DEVICE_ROOT_ID || kind_of(dirid) is None) ==> mkdir_plan(
            v,
            dirid,
            name,
        ) == VolPlan::Done(Err(NfsStat::Inval)),
{
    law_root_ids(0);
}

// ---------------------------------------------------------------------------
// Creating, committing
// ---------------------------------------------------------------------------

proof fn lemma_staged_push(s: Seq<StageView>, x: StageView, dirid: u64, name: Seq<char>)
    ensures
        staged_named(s.push(x), dirid, name) == match staged_named(s, dirid, name) {
            Some(id) => Some(id),
            None => if x.parent_id == dirid && same_name_ci(x.name, name) {
                Some(x.id)
            } else {
                None
            },
        },
    decreases s.len(),
{
    let t = s.push(x);
    if s.len() > 0 {
        assert(t.first() == s.first());
        assert(t.drop_first() =~= s.drop_first().push(x));
        lemma_staged_push(s.drop_first(), x, dirid, name);
    } else {
        assert(t.drop_first() =~= s);
    }
}

/// A file that is created under a name that is free is empty, and is found by a
/// lookup of that name in the directory in which it was created; and nowhere else
/// does a name lead to anything other than before.
pub proof fn law_new_file_is_found_where_it_was_created(
    w: World,
    dirid: u64,
    storage: usize,
    dir: u64,
    name: Seq<char>,
    fuel: nat,
)
    requires
        w.v.attached,
        w.v.writable,
        stands_for(dirid, storage, dir),
        w.dirs.contains_key((storage, dir)),
        is_free(w.dirs[(storage, dir)], name),
        staged_named(w.v.staged, dirid, name) is None,
        !name.contains('/'),
        trim(name).len() > 0,
        w.v.virt_seq < VIRT_FLAG - 1,
        stage_of(w.v.staged, virtual_id((w.v.virt_seq + 1) as u64)) is None,
        fuel >= 2,
    ensures
        ({
            let (v, plan) = stage_new(w.v, dirid, name, NextView::Create { size: None });
            let (u, reply) = run(World { v, ..w }, plan, fuel);
            let id = virtual_id((w.v.virt_seq + 1) as u64);
            &&& reply matches VolPlan::Done(Ok(VolReplyView::Created { id: made, attr }))
            &&& made == id
            &&& attr.size == 0
            &&& !attr.is_dir
            &&& u.files == w.files.insert(id, Seq::empty())
            &&& run(u, lookup_plan(u.v, dirid, name), fuel).1 == VolPlan::Done(
                Ok(VolReplyView::Id(id)),
            )
            &&& u.dirs == w.dirs
            &&& u.objects == w.objects
            &&& forall|other: u64, n: Seq<char>|
                other != dirid ==> #[trigger] staged_named(u.v.staged, other, n) == staged_named(
                    w.v.staged,
                    other,
                    n,
                )
        }),
{
    lemma_stands_for(dirid, storage, dir);
    lemma_free(w.dirs[(storage, dir)], name);
    let next = NextView::Create { size: None };
    let (v, plan) = stage_new(w.v, dirid, name, next);
    assert(v == w.v);
    let x = World { v, ..w };
    lemma_one(x, plan, fuel);
    let (x1, plan1) = perform(x, plan);
    lemma_one(x1, plan1, (fuel - 1) as nat);
    let (u, reply) = perform(x1, plan1);
    let id = virtual_id((w.v.virt_seq + 1) as u64);
    let s = fresh_stage(id, dirid, name);
    crate::volume::lemma_stage_place(w.v.staged, id, 0);
    assert(u.v.staged == w.v.staged.push(s));
    law_same_name_ci(name, name);
    lemma_staged_push(w.v.staged, s, dirid, name);
    law_lookup_finds_the_entry(u, dirid, storage, dir, name, arbitrary(), fuel);
    assert forall|other: u64, n: Seq<char>| other != dirid implies #[trigger] staged_named(
        u.v.staged,
        other,
        n,
    ) == staged_named(w.v.staged, other, n) by {
        lemma_staged_push(w.v.staged, s, other, n);
    }
}

/// Exclusive creation takes a free name only: where something has the name it is
/// refused and nothing changes, and where nothing has it a file is there
/// afterwards, empty, under the id that was replied.
pub proof fn law_exclusive_creation_takes_a_free_name(
    w: World,
    dirid: u64,
    storage: usize,
    dir: u64,
    name: Seq<char>,
    e: Entry,
    fuel: nat,
)
    requires
        w.v.attached,
        w.v.writable,
        stands_for(dirid, storage, dir),
        w.dirs.contains_key((storage, dir)),
        !name.contains('/'),
        trim(name).len() > 0,
        w.v.virt_seq < VIRT_FLAG - 1,
        stage_of(w.v.staged, virtual_id((w.v.virt_seq + 1) as u64)) is None,
        fuel >= 3,
    ensures
        ({
            let (v, plan) = exclusive_turn(w.v, dirid, name);
            let (u, reply) = run(World { v, ..w }, plan, fuel);
            let id = virtual_id((w.v.virt_seq + 1) as u64);
            &&& staged_named(w.v.staged, dirid, name) is Some || is_named(
                w.dirs[(storage, dir)],
                name,
                e,
            ) ==> u == w && reply == VolPlan::Done(Err(NfsStat::Exist))
            &&& staged_named(w.v.staged, dirid, name) is None && is_free(
                w.dirs[(storage, dir)],
                name,
            ) ==> {
                &&& reply == VolPlan::Done(Ok(VolReplyView::Id(id)))
                &&& u.files == w.files.insert(id, Seq::empty())
                &&& run(u, lookup_plan(u.v, dirid, name), fuel).1 == VolPlan::Done(
                    Ok(VolReplyView::Id(id)),
                )
                &&& u.dirs == w.dirs
                &&& u.objects == w.objects
            }
        }),
{
    lemma_stands_for(dirid, storage, dir);
    lemma_free(w.dirs[(storage, dir)], name);
    lemma_is_named(w.dirs[(storage, dir)], name, e);
    let (v, plan) = exclusive_turn(w.v, dirid, name);
    assert(v == w.v);
    lemma_one(w, plan, fuel);
    if staged_named(w.v.staged, dirid, name) is None && is_free(w.dirs[(storage, dir)], name) {
        let (x1, plan1) = perform(w, plan);
        assert((x1.v, plan1) == stage_new(w.v, dirid, name, NextView::Exclusive));
        assert(x1 == w);
        lemma_one(x1, plan1, (fuel - 1) as nat);
        let (x2, plan2) = perform(x1, plan1);
        lemma_one(x2, plan2, (fuel - 2) as nat);
        let (u, reply) = perform(x2, plan2);
        let id = virtual_id((w.v.virt_seq + 1) as u64);
        let s = fresh_stage(id, dirid, name);
        crate::volume::lemma_stage_place(w.v.staged, id, 0);
        assert(u.v.staged == w.v.staged.push(s));
        law_same_name_ci(name, name);
        lemma_staged_push(w.v.staged, s, dirid, name);
        law_lookup_finds_the_entry(u, dirid, storage, dir, name, arbitrary(), fuel);
    }
}

/// A commit puts the file into the directory of the device that its own stands
/// for, under its name and with its size, and takes the copy that was there away:
/// no other entry comes or goes.
#[verifier::rlimit(40)]
pub proof fn law_committed_file_lies_in_its_directory(
    w: World,
    id: u64,
    storage: usize,
    dir: u64,
    name: String,
    fuel: nat,
)
    requires
        w.v.attached,
        w.v.writable,
        stage_of(w.v.staged, id) matches Some(s) && s.dirty && s.name == name@ && stands_for(
            s.parent_id,
            storage,
            dir,
        ) && w.files.contains_key(id) && w.files[id].len() == s.size,
        w.dirs.contains_key((storage, dir)),
        fuel >= 2,
    ensures
        ({
            let s = stage_of(w.v.staged, id)->0;
            let (u, reply) = run(w, commit_plan(w.v, w.now, id), fuel);
            let listed = u.dirs[(storage, dir)];
            let e = listed.last();
            &&& reply matches VolPlan::Done(Ok(VolReplyView::Attr(a)))
            &&& a.size == s.size
            &&& listed.len() > 0
            &&& e.name@ == name@
            &&& e.handle == w.next
            &&& e.size == s.size
            &&& !e.is_dir
            &&& u.objects.contains_key((storage, w.next))
            &&& u.objects[(storage, w.next)].bytes == w.files[id]
            &&& listed.drop_last() == match device_copy(s) {
                Some(h) => w.dirs[(storage, dir)].filter(|x: Entry| x.handle != h),
                None => w.dirs[(storage, dir)],
            }
        }),
{
    let s = stage_of(w.v.staged, id)->0;
    crate::volume::lemma_stage_place(w.v.staged, id, 0);
    lemma_stands_for(s.parent_id, storage, dir);
    let plan = commit_plan(w.v, w.now, id);
    lemma_one(w, plan, fuel);
    let (x, upload) = if device_copy(s) is Some {
        perform(w, plan)
    } else {
        (w, plan)
    };
    let left = if device_copy(s) is Some {
        (fuel - 1) as nat
    } else {
        fuel
    };
    lemma_one(x, upload, left);
    let (u, reply) = perform(x, upload);
    lemma_with_stage(w.v.staged, flushed_stage(s, storage, w.next, s.size));
    let e = uploaded_entry(w.next, dir, name@, s.size);
    assert(e.name@ == name@) by {
        assert(name@ == name@);
    }
    assert(u.dirs[(storage, dir)] == x.dirs[(storage, dir)].push(e));
    assert(x.dirs[(storage, dir)].push(e).drop_last() =~= x.dirs[(storage, dir)]);
}

// ---------------------------------------------------------------------------
// Renaming, removing
// ---------------------------------------------------------------------------

/// True when the object `handle` is listed in one directory of a storage only.
pub open spec fn listed_once(w: World, storage: usize, dir: u64, handle: u64) -> bool {
    forall|key: (usize, u64), i: int|
        #![trigger w.dirs[key][i]]
        w.dirs.contains_key(key) && key.0 == storage && key.1 != dir && 0 <= i < w.dirs[key].len()
            ==> w.dirs[key][i].handle != handle
}

/// True when no child but the object `handle` has the name.
pub open spec fn free_but_for(children: Seq<Entry>, name: Seq<char>, handle: u64) -> bool {
    forall|i: int|
        0 <= i < children.len() && (#[trigger] children[i]).handle != handle ==> !same_name_ci(
            children[i].name@,
            name,
        )
}

proof fn lemma_without(children: Seq<Entry>, handle: u64, name: Seq<char>)
    ensures
        free_but_for(children, name, handle) ==> is_free(
            children.filter(|x: Entry| x.handle != handle),
            name,
        ),
        (forall|i: int| 0 <= i < children.len() ==> (#[trigger] children[i]).handle != handle)
            ==> children.filter(|x: Entry| x.handle != handle) == children,
    decreases children.len(),
{
    reveal(Seq::filter);
    let keep = |x: Entry| x.handle != handle;
    if children.len() > 0 {
        let t = children.drop_last();
        lemma_without(t, handle, name);
        let f = t.filter(keep);
        let r = children.filter(keep);
        if free_but_for(children, name, handle) {
            assert forall|i: int|
                0 <= i < t.len() && (#[trigger] t[i]).handle != handle implies !same_name_ci(
                t[i].name@,
                name,
            ) by {
                assert(t[i] == children[i]);
            }
            assert(children[children.len() - 1] == children.last());
            assert forall|i: int| 0 <= i < r.len() implies !same_name_ci(
                (#[trigger] r[i]).name@,
                name,
            ) by {
                if i < f.len() {
                    assert(r[i] == f[i]);
                }
            }
        }
        if forall|i: int| 0 <= i < children.len() ==> (#[trigger] children[i]).handle != handle {
            assert forall|i: int| 0 <= i < t.len() implies (#[trigger] t[i]).handle != handle by {
                assert(t[i] == children[i]);
            }
            assert(children[children.len() - 1].handle != handle);
            assert(f == t);
            assert(t.push(children.last()) =~= children);
        }
    } else {
        assert(children.filter(keep) =~= children);
    }
}

/// A rename of an object takes it out of its directory and puts it into the other
/// one under the new name: a lookup of the new name there finds the id that the
/// old name led to, and the old name leads to nothing any more. No other directory
/// is changed.
pub proof fn law_renamed_object_is_found_under_its_new_name(
    w: World,
    from_dirid: u64,
    from_name: Seq<char>,
    to_dirid: u64,
    to_name: String,
    storage: usize,
    from: u64,
    to: u64,
    e: Entry,
    fuel: nat,
)
    requires
        w.v.attached,
        w.v.writable,
        stands_for(from_dirid, storage, from),
        stands_for(to_dirid, storage, to),
        w.dirs.contains_key((storage, from)),
        w.dirs.contains_key((storage, to)),
        staged_named(w.v.staged, from_dirid, from_name) is None,
        staged_named(w.v.staged, to_dirid, to_name@) is None,
        is_named(w.dirs[(storage, from)], from_name, e),
        e.handle < HANDLE_BOUND,
        stage_of(w.v.staged, real_id(storage, e.handle)) is None,
        free_but_for(w.dirs[(storage, from)], from_name, e.handle),
        free_but_for(w.dirs[(storage, to)], to_name@, e.handle),
        listed_once(w, storage, from, e.handle),
        fuel >= 2,
    ensures
        ({
            let (v, plan) = rename_turn(w.v, from_dirid, from_name, to_dirid, to_name@);
            let (u, reply) = run(World { v, ..w }, plan, fuel);
            let id = real_id(storage, e.handle);
            &&& reply == VolPlan::Done(Ok(VolReplyView::Nothing))
            &&& run(w, lookup_plan(w.v, from_dirid, from_name), fuel).1 == VolPlan::Done(
                Ok(VolReplyView::Id(id)),
            )
            &&& run(u, lookup_plan(u.v, to_dirid, to_name@), fuel).1 == VolPlan::Done(
                Ok(VolReplyView::Id(id)),
            )
            &&& from != to || !same_name_ci(to_name@, from_name) ==> run(
                u,
                lookup_plan(u.v, from_dirid, from_name),
                fuel,
            ).1 == VolPlan::Done(Err(NfsStat::Noent))
            &&& forall|key: (usize, u64)|
                key != (storage, from) && key != (storage, to) && w.dirs.contains_key(key) ==> (
                #[trigger] u.dirs.contains_key(key)) && u.dirs[key] == w.dirs[key]
        }),
{
    let u = lemma_rename_runs(
        w,
        from_dirid,
        from_name,
        to_dirid,
        to_name,
        storage,
        from,
        to,
        e,
        fuel,
    );
    let moved = entry_at(e, to, to_name@);
    law_lookup_finds_the_entry(w, from_dirid, storage, from, from_name, e, fuel);
    lemma_moved_in(w.dirs, storage, to, e, to_name);
    lemma_is_named(u.dirs[(storage, to)], to_name@, moved);
    law_lookup_finds_the_entry(u, to_dirid, storage, to, to_name@, moved, fuel);
    if from != to || !same_name_ci(to_name@, from_name) {
        lemma_moved_out(w.dirs, storage, from, to, e, from_name, to_name);
        law_lookup_finds_the_entry(u, from_dirid, storage, from, from_name, e, fuel);
    }
    assert forall|key: (usize, u64)|
        key != (storage, from) && key != (storage, to) && w.dirs.contains_key(key) implies (
    #[trigger] u.dirs.contains_key(key)) && u.dirs[key] == w.dirs[key] by {
        lemma_others_stay(w, storage, from, e.handle, key);
    }
}

#[verifier::rlimit(50)]
proof fn lemma_rename_runs(
    w: World,
    from_dirid: u64,
    from_name: Seq<char>,
    to_dirid: u64,
    to_name: String,
    storage: usize,
    from: u64,
    to: u64,
    e: Entry,
    fuel: nat,
) -> (u: World)
    requires
        w.v.attached,
        w.v.writable,
        stands_for(from_dirid, storage, from),
        stands_for(to_dirid, storage, to),
        w.dirs.contains_key((storage, from)),
        staged_named(w.v.staged, from_dirid, from_name) is None,
        is_named(w.dirs[(storage, from)], from_name, e),
        e.handle < HANDLE_BOUND,
        stage_of(w.v.staged, real_id(storage, e.handle)) is None,
        fuel >= 2,
    ensures
        ({
            let (v, plan) = rename_turn(w.v, from_dirid, from_name, to_dirid, to_name@);
            &&& run(World { v, ..w }, plan, fuel) == (
                u,
                VolPlan::Done(Ok::<VolReplyView, NfsStat>(VolReplyView::Nothing)),
            )
            &&& u.dirs == after_rename(w.dirs, storage, to, e.handle, entry_at(e, to, to_name@))
            &&& u.v.staged == w.v.staged
            &&& u.v.attached
        }),
{
    lemma_stands_for(from_dirid, storage, from);
    lemma_stands_for(to_dirid, storage, to);
    law_real_id_round_trip(storage, e.handle);
    lemma_is_named(w.dirs[(storage, from)], from_name, e);
    let (v, plan) = rename_turn(w.v, from_dirid, from_name, to_dirid, to_name@);
    assert(v == w.v);
    assert(World { v, ..w } == w);
    lemma_one(w, plan, fuel);
    let (x, rename) = perform(w, plan);
    assert(x == w);
    assert(rename == (VolPlan::Rename {
        storage,
        from,
        from_name,
        to,
        to_name: to_name@,
        id: real_id(storage, e.handle),
        to_dirid,
    }));
    lemma_one(w, rename, (fuel - 1) as nat);
    let (u, reply) = perform(w, rename);
    assert(device_child(w, storage, from, from_name) == Some(e));
    u
}

/// The directories after an object was put into `to`.
pub open spec fn after_rename(
    dirs: Map<(usize, u64), Seq<Entry>>,
    storage: usize,
    to: u64,
    handle: u64,
    moved: Entry,
) -> Map<(usize, u64), Seq<Entry>> {
    enlisted(unlisted(dirs, storage, handle), storage, to, moved)
}

proof fn lemma_moved_in(
    dirs: Map<(usize, u64), Seq<Entry>>,
    storage: usize,
    to: u64,
    e: Entry,
    to_name: String,
)
    requires
        dirs.contains_key((storage, to)),
        free_but_for(dirs[(storage, to)], to_name@, e.handle),
    ensures
        ({
            let moved = entry_at(e, to, to_name@);
            let after = after_rename(dirs, storage, to, e.handle, moved);
            &&& after.contains_key((storage, to))
            &&& after[(storage, to)] == dirs[(storage, to)].filter(
                |y: Entry| y.handle != e.handle,
            ).push(moved)
            &&& child_named(after[(storage, to)], to_name@) == Some(moved)
            &&& moved.name@ == to_name@
            &&& moved.handle == e.handle
        }),
{
    let moved = entry_at(e, to, to_name@);
    assert(moved.name@ == to_name@) by {
        assert(to_name@ == to_name@);
    }
    lemma_without(dirs[(storage, to)], e.handle, to_name@);
    let rest = dirs[(storage, to)].filter(|y: Entry| y.handle != e.handle);
    law_same_name_ci(to_name@, to_name@);
    lemma_pushed(rest, moved, to_name@);
}

proof fn lemma_moved_out(
    dirs: Map<(usize, u64), Seq<Entry>>,
    storage: usize,
    from: u64,
    to: u64,
    e: Entry,
    from_name: Seq<char>,
    to_name: String,
)
    requires
        dirs.contains_key((storage, from)),
        dirs.contains_key((storage, to)),
        free_but_for(dirs[(storage, from)], from_name, e.handle),
        free_but_for(dirs[(storage, to)], to_name@, e.handle),
        from != to || !same_name_ci(to_name@, from_name),
    ensures
        ({
            let after = after_rename(dirs, storage, to, e.handle, entry_at(e, to, to_name@));
            after.contains_key((storage, from)) && is_free(after[(storage, from)], from_name)
        }),
{
    let after = after_rename(dirs, storage, to, e.handle, entry_at(e, to, to_name@));
    let kept = dirs[(storage, from)].filter(|y: Entry| y.handle != e.handle);
    let left = after[(storage, from)];
    lemma_without(dirs[(storage, from)], e.handle, from_name);
    lemma_moved_in(dirs, storage, to, e, to_name);
    if from == to {
        assert forall|i: int| 0 <= i < left.len() implies !same_name_ci(
            (#[trigger] left[i]).name@,
            from_name,
        ) by {
            if i < kept.len() {
                assert(left[i] == kept[i]);
            }
        }
    } else {
        assert(left == kept);
    }
}

proof fn lemma_others_stay(w: World, storage: usize, dir: u64, handle: u64, key: (usize, u64))
    requires
        listed_once(w, storage, dir, handle),
        key != (storage, dir),
        w.dirs.contains_key(key),
    ensures
        unlisted(w.dirs, storage, handle).contains_key(key),
        unlisted(w.dirs, storage, handle)[key] == w.dirs[key],
{
    if key.0 == storage {
        assert forall|i: int| 0 <= i < w.dirs[key].len() implies (
        #[trigger] w.dirs[key][i]).handle != handle by {
            assert(key.1 != dir);
        }
        lemma_without(w.dirs[key], handle, Seq::empty());
    }
}

/// A removal takes the object with the name out of its directory: the name leads
/// to nothing any more, and no other directory is changed.
pub proof fn law_removed_object_is_not_found(
    w: World,
    dirid: u64,
    name: Seq<char>,
    storage: usize,
    dir: u64,
    e: Entry,
    fuel: nat,
)
    requires
        w.v.attached,
        w.v.writable,
        stands_for(dirid, storage, dir),
        w.dirs.contains_key((storage, dir)),
        staged_named(w.v.staged, dirid, name) is None,
        is_named(w.dirs[(storage, dir)], name, e),
        e.handle < HANDLE_BOUND,
        stage_of(w.v.staged, real_id(storage, e.handle)) is None,
        free_but_for(w.dirs[(storage, dir)], name, e.handle),
        listed_once(w, storage, dir, e.handle),
        w.objects.contains_key((storage, e.handle)),
        fuel >= 2,
    ensures
        ({
            let (v, plan) = remove_turn(w.v, dirid, name);
            let (u, reply) = run(World { v, ..w }, plan, fuel);
            &&& reply == VolPlan::Done(Ok(VolReplyView::Nothing))
            &&& u.objects == w.objects.remove((storage, e.handle))
            &&& run(u, lookup_plan(u.v, dirid, name), fuel).1 == VolPlan::Done(
                Err(NfsStat::Noent),
            )
            &&& forall|key: (usize, u64)|
                key != (storage, dir) && w.dirs.contains_key(key) ==> (
                #[trigger] u.dirs.contains_key(key)) && u.dirs[key] == w.dirs[key]
        }),
{
    lemma_stands_for(dirid, storage, dir);
    law_real_id_round_trip(storage, e.handle);
    lemma_is_named(w.dirs[(storage, dir)], name, e);
    let (v, plan) = remove_turn(w.v, dirid, name);
    assert(v == w.v);
    lemma_one(w, plan, fuel);
    let (x, delete) = perform(w, plan);
    assert(x == w);
    lemma_one(w, delete, (fuel - 1) as nat);
    let (u, reply) = perform(w, delete);
    lemma_without(w.dirs[(storage, dir)], e.handle, name);
    law_lookup_finds_the_entry(u, dirid, storage, dir, name, e, fuel);
    assert forall|key: (usize, u64)| key != (storage, dir) && w.dirs.contains_key(key) implies (
    #[trigger] u.dirs.contains_key(key)) && u.dirs[key] == w.dirs[key] by {
        if key.0 == storage {
            assert forall|i: int| 0 <= i < w.dirs[key].len() implies (
            #[trigger] w.dirs[key][i]).handle != e.handle by {
                assert(key.1 != dir);
            }
            lemma_without(w.dirs[key], e.handle, name);
        }
    }
}

// ---------------------------------------------------------------------------
// Listing
// ---------------------------------------------------------------------------

/// True when an entry of a listing shows the object of the device: its id, its
/// name, whether it is a directory, and its size.
pub open spec fn shows_object(d: DirEntryView, storage: usize, e: Entry) -> bool {
    &&& d.fileid == real_id(storage, e.handle)
    &&& d.name == e.name@
    &&& d.attr.fileid == d.fileid
    &&& d.attr.is_dir == e.is_dir
    &&& d.attr.size == e.size
}

/// True when an entry of a listing shows the staged file.
pub open spec fn shows_stage(d: DirEntryView, s: StageView) -> bool {
    &&& d.fileid == s.id
    &&& d.name == s.name
    &&& d.attr.fileid == d.fileid
    &&& !d.attr.is_dir
    &&& d.attr.size == s.size
}

proof fn lemma_staged_child(s: Seq<StageView>, dirid: u64, c: ChildView) -> (i: int)
    requires
        staged_children(s, dirid).contains(c),
    ensures
        0 <= i < s.len(),
        s[i].parent_id == dirid,
        c.id == s[i].id,
        c.name == s[i].name,
        c.size == s[i].size,
        !c.is_dir,
    decreases s.len(),
{
    let all = staged_children(s, dirid);
    let k = choose|k: int| 0 <= k < all.len() && all[k] == c;
    let before = staged_children(s.drop_last(), dirid);
    if k < before.len() {
        assert(before[k] == c);
        let i = lemma_staged_child(s.drop_last(), dirid, c);
        assert(s.drop_last()[i] == s[i]);
        i
    } else {
        s.len() - 1
    }
}

/// A directory shows what is in the directory of the device that it stands for,
/// and what is staged in it: every entry of the listing shows an object there or
/// a file staged there, as it is, and every name there is shown. The whole of it
/// comes in one page when that many entries are asked for.
pub proof fn law_directory_shows_what_is_in_it(
    w: World,
    dirid: u64,
    storage: usize,
    dir: u64,
    max: usize,
    fuel: nat,
)
    requires
        w.v.attached,
        stands_for(dirid, storage, dir),
        w.dirs.contains_key((storage, dir)),
        forall|i: int|
            0 <= i < w.dirs[(storage, dir)].len() ==> (
            #[trigger] w.dirs[(storage, dir)][i]).handle < HANDLE_BOUND,
        max >= w.dirs[(storage, dir)].len() + w.v.staged.len(),
        fuel >= 1,
    ensures
        ({
            let (u, reply) = run(w, readdir_plan(w.v, dirid, 0, max), fuel);
            let found = w.dirs[(storage, dir)];
            &&& u == w
            &&& reply matches VolPlan::Done(Ok(VolReplyView::Dir { entries, end }))
            &&& end
            &&& forall|k: int|
                0 <= k < entries.len() ==> shows_something(
                    #[trigger] entries[k],
                    w.v.staged,
                    dirid,
                    storage,
                    found,
                )
            &&& forall|i: int|
                0 <= i < found.len() ==> is_shown(entries, (#[trigger] found[i]).name@)
        }),
{
    lemma_stands_for(dirid, storage, dir);
    let plan = readdir_plan(w.v, dirid, 0, max);
    let found = w.dirs[(storage, dir)];
    assert(all_encodable(storage, found));
    lemma_one(w, plan, fuel);
    let children = entry_children(storage, found);
    let all = full_listing(w.v, dirid, children);
    lemma_whole_page(w.v, dirid, storage, found, max);
    let entries = all.map_values(|c: ChildView| crate::volume::dir_entry(w.v, c));
    assert forall|k: int| 0 <= k < entries.len() implies shows_something(
        #[trigger] entries[k],
        w.v.staged,
        dirid,
        storage,
        found,
    ) by {
        assert(all.contains(all[k]));
        lemma_origin(w.v, dirid, storage, found, all[k]);
    }
    assert forall|i: int| 0 <= i < found.len() implies is_shown(
        entries,
        (#[trigger] found[i]).name@,
    ) by {
        lemma_name_is_shown(w.v, dirid, storage, found, i);
    }
}

/// True when an entry of a listing shows an object of the directory of the
/// device, or a file that is staged in it.
pub open spec fn shows_something(
    d: DirEntryView,
    staged: Seq<StageView>,
    dirid: u64,
    storage: usize,
    found: Seq<Entry>,
) -> bool {
    ||| exists|i: int| 0 <= i < found.len() && shows_object(d, storage, #[trigger] found[i])
    ||| exists|i: int|
        0 <= i < staged.len() && staged[i].parent_id == dirid && shows_stage(
            d,
            #[trigger] staged[i],
        )
}

/// True when an entry of the listing has the name.
pub open spec fn is_shown(entries: Seq<DirEntryView>, name: Seq<char>) -> bool {
    exists|k: int| 0 <= k < entries.len() && same_name_ci(name, (#[trigger] entries[k]).name)
}

pub proof fn lemma_whole_page(
    v: VolumeView,
    dirid: u64,
    storage: usize,
    found: Seq<Entry>,
    max: usize,
)
    requires
        max >= found.len() + v.staged.len(),
    ensures
        ({
            let all = full_listing(v, dirid, entry_children(storage, found));
            &&& all.len() <= max
            &&& crate::dirlist::page(all, 0, max as nat) == all
            &&& crate::dirlist::is_last_page(all, 0, max as nat)
        }),
{
    let both = staged_children(v.staged, dirid) + entry_children(storage, found);
    let all = full_listing(v, dirid, entry_children(storage, found));
    lemma_listing_is_no_longer(v.staged, dirid);
    lemma_deduped_is_no_longer(sorted(both));
    lemma_sorted_len(both);
    assert(crate::dirlist::page(all, 0, max as nat) =~= all);
}

proof fn lemma_origin(
    v: VolumeView,
    dirid: u64,
    storage: usize,
    found: Seq<Entry>,
    c: ChildView,
)
    requires
        full_listing(v, dirid, entry_children(storage, found)).contains(c),
    ensures
        shows_something(crate::volume::dir_entry(v, c), v.staged, dirid, storage, found),
{
    let children = entry_children(storage, found);
    let staged = staged_children(v.staged, dirid);
    let both = staged + children;
    let d = crate::volume::dir_entry(v, c);
    crate::volume_laws::lemma_deduped_shows(sorted(both), c);
    crate::volume_laws::lemma_sorted_contains(both, c);
    let j = choose|j: int| 0 <= j < both.len() && both[j] == c;
    if j < staged.len() {
        assert(staged[j] == c);
        let i = lemma_staged_child(v.staged, dirid, c);
        assert(shows_stage(d, v.staged[i]));
    } else {
        let i = j - staged.len();
        assert(children[i] == c);
        assert(shows_object(d, storage, found[i]));
    }
}

proof fn lemma_name_is_shown(
    v: VolumeView,
    dirid: u64,
    storage: usize,
    found: Seq<Entry>,
    i: int,
)
    requires
        0 <= i < found.len(),
    ensures
        is_shown(
            full_listing(v, dirid, entry_children(storage, found)).map_values(
                |c: ChildView| crate::volume::dir_entry(v, c),
            ),
            found[i].name@,
        ),
{
    let children = entry_children(storage, found);
    let staged = staged_children(v.staged, dirid);
    let both = staged + children;
    let all = full_listing(v, dirid, children);
    let entries = all.map_values(|c: ChildView| crate::volume::dir_entry(v, c));
    let c = children[i];
    assert(both[staged.len() + i] == c);
    law_listing_shows_every_name(both, c);
    let k = choose|k: int| 0 <= k < all.len() && same_name_ci(c.name, (#[trigger] all[k]).name);
    assert(entries[k].name == all[k].name);
}

proof fn lemma_listing_is_no_longer(s: Seq<StageView>, dirid: u64)
    ensures
        staged_children(s, dirid).len() <= s.len(),
    decreases s.len(),
{
    if s.len() > 0 {
        lemma_listing_is_no_longer(s.drop_last(), dirid);
    }
}

pub proof fn lemma_deduped_is_no_longer(s: Seq<ChildView>)
    ensures
        deduped(s).len() <= s.len(),
    decreases s.len(),
{
    if s.len() > 0 {
        lemma_deduped_is_no_longer(s.drop_last());
    }
}

pub proof fn lemma_sorted_len(s: Seq<ChildView>)
    ensures
        sorted(s).len() == s.len(),
{
    broadcast use vstd::seq_lib::group_to_multiset_ensures;

    crate::dirlist::law_listing_is_sorted(s);
    assert(sorted(s).to_multiset().len() == s.to_multiset().len());
}

} // verus!
