//! What the requests to a session come to on the device.
//!
//! A phone is modelled by the entries of the directories of each storage and by
//! what it says of each object. Every call that a request asks for is answered
//! by the phone, up to the reply; what the calls change is recorded. The laws
//! say of each request which object of the phone it reaches, in terms of the
//! names of the path alone.

use vstd::prelude::*;

use crate::cache::{dropped, fresh_listing, stored};
use crate::error::ErrorView;
use crate::model::{Entry, Resolved, StorageSummary};
use crate::names::same_name_ci;
use crate::path::{parsed, DevPathView};
use crate::session::{
    advance, after_descent, arrived, arrived_with, child_named, created_plan, created_session,
    deeper, deleted_plan, deleted_session, descend, entered, holder, informed_plan, left_dir,
    left_file, listed_plan, listed_session, missing, moved_plan, moved_session, number_of, proceed,
    renamed_plan, renamed_session, request_plan, seek_destination, start, storage_index,
    storage_named, DescentView, Request, SessionView,
};
use crate::session_laws::{
    coherent, law_answered_listing_goes_on, law_cached_walk_is_the_device_walk,
    law_deletion_counts_each_object, law_deletion_goes_contents_first,
    law_deletion_starts_with_the_whole_tree, law_stored_listing_agrees,
    lemma_dropped_keeps_agreeing, lemma_stack_remains, lookup, post_order, ranked, remaining,
    stack_agrees, Tree,
};
use crate::step::{
    AfterCreateView, AfterDeleteView, AfterListView, GoalView, Plan, ReplyView, TreeView, WalkView,
};
use crate::text::{dec, lemma_dec_reads_back};

verus! {

// ---------------------------------------------------------------------------
// The phone
// ---------------------------------------------------------------------------

/// A phone.
pub struct Phone {
    /// The entries of each directory of each storage.
    pub tree: spec_fn(usize) -> Tree,
    /// What the phone says of each object.
    pub info: spec_fn((usize, u64)) -> Entry,
    /// The handles that the phone gives to new directories, one after the other.
    pub fresh: spec_fn(nat) -> u64,
}

/// A change on the phone.
pub enum Change {
    /// A directory was made.
    Made { storage: usize, parent: u64, name: Seq<char> },
    /// An object was deleted.
    Deleted { storage: usize, handle: u64 },
    /// An object got another name.
    Renamed { storage: usize, handle: u64, name: Seq<char> },
    /// An object was put into another directory.
    Moved { storage: usize, handle: u64, dir: u64 },
}

/// A request as far as it has come.
pub struct Call {
    /// The session.
    pub v: SessionView,
    /// The next step.
    pub plan: Plan,
    /// What was changed so far.
    pub changes: Seq<Change>,
}

/// One step, carried out by the phone at the time `now`. The directories are
/// listed as they were when the request began.
pub open spec fn answered(p: Phone, c: Call, now: u64) -> Call {
    match c.plan {
        Plan::List { storage, dir, after } => {
            let r = Ok((p.tree)(storage)(dir));
            Call {
                v: listed_session(c.v, now, after, r),
                plan: listed_plan(c.v, now, after, r),
                ..c
            }
        },
        Plan::Info { storage, handle, after } => Call {
            plan: informed_plan(after, Ok((p.info)((storage, handle)))),
            ..c
        },
        Plan::CreateFolder { storage, parent, name, after } => {
            let r = Ok((p.fresh)(c.changes.len()));
            Call {
                v: created_session(c.v, after, r),
                plan: created_plan(c.v, after, r),
                changes: c.changes.push(Change::Made { storage, parent, name }),
            }
        },
        Plan::Delete { storage, handle, after } => Call {
            v: deleted_session(c.v, after, Ok(())),
            plan: deleted_plan(c.v, now, after, Ok(())),
            changes: c.changes.push(Change::Deleted { storage, handle }),
        },
        Plan::Rename { storage, handle, name, after } => Call {
            v: renamed_session(c.v, after, Ok(())),
            plan: renamed_plan(c.v, after, Ok(())),
            changes: c.changes.push(Change::Renamed { storage, handle, name }),
        },
        Plan::Move { storage, handle, dir, after } => Call {
            v: moved_session(c.v, after, Ok(())),
            plan: moved_plan(c.v, after, Ok(())),
            changes: c.changes.push(Change::Moved { storage, handle, dir }),
        },
        Plan::Again(t) => Call { plan: advance(c.v, now, t), ..c },
        _ => c,
    }
}

/// A request carried on: at most `fuel` steps, the one before the last `n` of
/// them at the time `clock(n)`.
pub open spec fn carried_on(p: Phone, c: Call, clock: spec_fn(nat) -> u64, fuel: nat) -> Call
    decreases fuel,
{
    if fuel == 0 || c.plan is Done {
        c
    } else {
        let left = (fuel - 1) as nat;
        carried_on(p, answered(p, c, clock(left)), clock, left)
    }
}

/// A whole request.
pub open spec fn served(
    p: Phone,
    v: SessionView,
    now: u64,
    req: Request,
    clock: spec_fn(nat) -> u64,
    fuel: nat,
) -> Call {
    carried_on(
        p,
        Call { v, plan: request_plan(v, now, req), changes: Seq::empty() },
        clock,
        fuel,
    )
}

// ---------------------------------------------------------------------------
// Names
// ---------------------------------------------------------------------------

/// True when `e` is the first of the children with the name.
pub open spec fn is_named(children: Seq<Entry>, name: Seq<char>, e: Entry) -> bool {
    exists|i: int|
        0 <= i < children.len() && #[trigger] children[i] == e && same_name_ci(e.name@, name)
            && forall|j: int| 0 <= j < i ==> !same_name_ci((#[trigger] children[j]).name@, name)
}

/// Where a way through a storage ends; the root is the object 0.
pub open spec fn end_of(way: Seq<Entry>) -> u64 {
    if way.len() == 0 {
        0
    } else {
        way.last().handle
    }
}

/// True when the names lead along the way: each entry of it lies in the one
/// before it, the first one in the root, under its name.
pub open spec fn leads(tree: Tree, names: Seq<Seq<char>>, way: Seq<Entry>) -> bool {
    &&& way.len() == names.len()
    &&& forall|k: int|
        0 <= k < names.len() ==> is_named(tree(end_of(way.take(k))), names[k], #[trigger] way[k])
}

/// True when `reference` addresses the storage `i`: the first one with that
/// description, or, when none has it, the one with that number counted from one.
pub open spec fn addresses(storages: Seq<StorageSummary>, reference: Seq<char>, i: int) -> bool {
    &&& 0 <= i < storages.len()
    &&& {
        ||| same_name_ci(storages[i].description@, reference) && forall|j: int|
            0 <= j < i ==> !same_name_ci((#[trigger] storages[j]).description@, reference)
        ||| reference == dec((i + 1) as nat) && forall|j: int|
            0 <= j < storages.len() ==> !same_name_ci(
                (#[trigger] storages[j]).description@,
                reference,
            )
    }
}

proof fn lemma_storage_named(storages: Seq<StorageSummary>, reference: Seq<char>, from: nat)
    ensures
        match storage_named(storages, reference, from) {
            Some(i) => from <= i < storages.len() && same_name_ci(
                storages[i as int].description@,
                reference,
            ) && forall|j: int|
                from <= j < i ==> !same_name_ci((#[trigger] storages[j]).description@, reference),
            None => forall|j: int|
                from <= j < storages.len() ==> !same_name_ci(
                    (#[trigger] storages[j]).description@,
                    reference,
                ),
        },
    decreases storages.len() - from,
{
    if from < storages.len() && !same_name_ci(storages[from as int].description@, reference) {
        lemma_storage_named(storages, reference, from + 1);
    }
}

/// A storage is found by its description, whatever its letter case, and by its
/// number; what is found is a storage of the table, and it has the description
/// or the number.
pub proof fn law_storage_is_found_by_its_reference(
    storages: Seq<StorageSummary>,
    reference: Seq<char>,
    i: int,
)
    ensures
        addresses(storages, reference, i) ==> storage_index(storages, reference) == Some(i as nat),
        storage_index(storages, reference) matches Some(k) ==> k < storages.len() && (same_name_ci(
            storages[k as int].description@,
            reference,
        ) || number_of(reference) == Some(k + 1)),
{
    lemma_storage_named(storages, reference, 0);
    lemma_dec_reads_back((i + 1) as nat);
    if addresses(storages, reference, i) {
        match storage_named(storages, reference, 0) {
            Some(k) => {
                if k < i {
                    assert(same_name_ci(storages[k as int].description@, reference));
                }
                if i < k {
                    assert(!same_name_ci(storages[i].description@, reference));
                }
            },
            None => {
                assert(!same_name_ci(storages[i].description@, reference));
                let s = dec((i + 1) as nat);
                assert(crate::text::is_dec_digit(s[0]));
            },
        }
    }
}

pub proof fn lemma_is_named(children: Seq<Entry>, name: Seq<char>, e: Entry)
    ensures
        is_named(children, name, e) <==> child_named(children, name) == Some(e),
    decreases children.len(),
{
    if children.len() > 0 {
        let rest = children.drop_first();
        lemma_is_named(rest, name, e);
        if same_name_ci(children.first().name@, name) {
            if is_named(children, name, e) {
                let i = choose|i: int|
                    0 <= i < children.len() && #[trigger] children[i] == e && same_name_ci(
                        e.name@,
                        name,
                    ) && forall|j: int|
                        0 <= j < i ==> !same_name_ci((#[trigger] children[j]).name@, name);
                if i > 0 {
                    assert(!same_name_ci(children[0].name@, name));
                }
            }
            if child_named(children, name) == Some(e) {
                assert(children[0] == e);
            }
        } else {
            if is_named(children, name, e) {
                let i = choose|i: int|
                    0 <= i < children.len() && #[trigger] children[i] == e && same_name_ci(
                        e.name@,
                        name,
                    ) && forall|j: int|
                        0 <= j < i ==> !same_name_ci((#[trigger] children[j]).name@, name);
                assert(i > 0);
                assert(rest[i - 1] == e);
                assert forall|j: int| 0 <= j < i - 1 implies !same_name_ci(
                    (#[trigger] rest[j]).name@,
                    name,
                ) by {
                    assert(rest[j] == children[j + 1]);
                }
                assert(is_named(rest, name, e));
            }
            if is_named(rest, name, e) {
                let i = choose|i: int|
                    0 <= i < rest.len() && #[trigger] rest[i] == e && same_name_ci(e.name@, name)
                        && forall|j: int|
                        0 <= j < i ==> !same_name_ci((#[trigger] rest[j]).name@, name);
                assert(children[i + 1] == e);
                assert forall|j: int| 0 <= j < i + 1 implies !same_name_ci(
                    (#[trigger] children[j]).name@,
                    name,
                ) by {
                    if j > 0 {
                        assert(children[j] == rest[j - 1]);
                    }
                }
                assert(is_named(children, name, e));
            }
        }
    }
}

/// A directory gives the first of its entries with a name, if it has one.
pub proof fn law_first_of_the_name_is_taken(children: Seq<Entry>, name: Seq<char>)
    ensures
        match child_named(children, name) {
            Some(e) => is_named(children, name, e),
            None => forall|i: int|
                0 <= i < children.len() ==> !same_name_ci((#[trigger] children[i]).name@, name),
        },
    decreases children.len(),
{
    match child_named(children, name) {
        Some(e) => {
            lemma_is_named(children, name, e);
        },
        None => {
            if children.len() > 0 {
                let rest = children.drop_first();
                law_first_of_the_name_is_taken(rest, name);
                assert forall|i: int| 0 <= i < children.len() implies !same_name_ci(
                    (#[trigger] children[i]).name@,
                    name,
                ) by {
                    if i > 0 {
                        assert(children[i] == rest[i - 1]);
                    }
                }
            }
        },
    }
}

// ---------------------------------------------------------------------------
// Walks
// ---------------------------------------------------------------------------

/// True when the first `n` entries of the way are directories.
pub open spec fn all_dirs(way: Seq<Entry>, n: nat) -> bool {
    forall|k: int| 0 <= k < n && k < way.len() ==> (#[trigger] way[k]).is_dir
}

/// A walk goes along the way.
proof fn lemma_lookup(tree: Tree, w: WalkView, way: Seq<Entry>)
    requires
        leads(tree, w.path.segments, way),
        w.at <= w.upto(),
        w.cur == end_of(way.take(w.at as int)),
        w.goal.needs_dirs() ==> all_dirs(way, w.upto()),
    ensures
        lookup(tree, w) == (DescentView::At { dir: end_of(way.take(w.upto() as int)) }),
    decreases w.upto() - w.at,
{
    if w.at < w.upto() {
        let k = w.at as int;
        let e = way[k];
        lemma_is_named(tree(w.cur), w.path.segments[k], e);
        assert(way.take(k + 1).last() == e);
        lemma_lookup(tree, deeper(w, e.handle), way);
    }
}

/// A walk that comes to its end has gone along a way.
proof fn lemma_way(tree: Tree, w: WalkView, way: Seq<Entry>) -> (all: Seq<Entry>)
    requires
        lookup(tree, w) is At,
        w.at <= w.upto(),
        w.at <= w.path.segments.len(),
        leads(tree, w.path.segments.take(w.at as int), way),
        w.cur == end_of(way),
    ensures
        leads(tree, w.path.segments.take(w.upto() as int), all),
        lookup(tree, w) == (DescentView::At { dir: end_of(all) }),
    decreases w.upto() - w.at,
{
    if w.at < w.upto() {
        let k = w.at as int;
        let e = child_named(tree(w.cur), w.path.segments[k])->0;
        lemma_is_named(tree(w.cur), w.path.segments[k], e);
        let more = way.push(e);
        let names = w.path.segments.take(k + 1);
        assert forall|j: int| 0 <= j < names.len() implies is_named(
            tree(end_of(more.take(j))),
            names[j],
            #[trigger] more[j],
        ) by {
            if j < k {
                assert(more[j] == way[j]);
                assert(more.take(j) =~= way.take(j));
                assert(names[j] == w.path.segments.take(k)[j]);
            } else {
                assert(more.take(k) =~= way);
            }
        }
        lemma_way(tree, deeper(w, e.handle), more)
    } else {
        way
    }
}

/// A walk is carried on to where the path leads.
proof fn lemma_walk(
    p: Phone,
    c: Call,
    w: WalkView,
    now: u64,
    clock: spec_fn(nat) -> u64,
    fuel: nat,
) -> (r: (Call, nat, u64))
    requires
        c.plan == proceed(c.v, now, w),
        w.storage < c.v.storages.len(),
        coherent(c.v.cache, c.v.id(w.storage), (p.tree)(w.storage)),
        w.at <= w.upto(),
        fuel >= w.upto() - w.at,
    ensures
        carried_on(p, c, clock, fuel) == carried_on(p, r.0, clock, r.1),
        r.1 + (w.upto() - w.at) >= fuel,
        r.0.plan == after_descent(r.0.v, r.2, w, lookup((p.tree)(w.storage), w)),
        r.0.v.storages == c.v.storages,
        coherent(r.0.v.cache, r.0.v.id(w.storage), (p.tree)(w.storage)),
        r.0.changes == c.changes,
    decreases w.upto() - w.at,
{
    let tree = (p.tree)(w.storage);
    let sid = c.v.id(w.storage);
    law_cached_walk_is_the_device_walk(c.v.cache, sid, now, w, tree);
    match descend(c.v.cache, sid, now, w) {
        DescentView::Need { dir, at } => {
            let left = (fuel - 1) as nat;
            let then = clock(left);
            let here = WalkView { cur: dir, at, ..w };
            let d = answered(p, c, then);
            assert(carried_on(p, c, clock, fuel) == carried_on(p, d, clock, left));
            law_stored_listing_agrees(c.v.cache, sid, dir, then, tree);
            law_answered_listing_goes_on(d.v.cache, sid, then, here, tree);
            match child_named(tree(dir), w.path.segments[at as int]) {
                None => (d, left, then),
                Some(e) => {
                    if w.goal.needs_dirs() && !e.is_dir {
                        (d, left, then)
                    } else {
                        let next = deeper(here, e.handle);
                        assert(lookup(tree, here) == lookup(tree, next));
                        assert(d.plan == proceed(d.v, then, next));
                        let (x, m, n) = lemma_walk(p, d, next, then, clock, left);
                        (x, m, n)
                    }
                },
            }
        },
        _ => (c, fuel, now),
    }
}

/// A walk that has come to its end has the listing that it is for.
proof fn lemma_arrival(
    p: Phone,
    c: Call,
    w: WalkView,
    dir: u64,
    now: u64,
    clock: spec_fn(nat) -> u64,
    fuel: nat,
) -> (r: (Call, nat, u64))
    requires
        c.plan == arrived(c.v, now, w, dir),
        w.storage < c.v.storages.len(),
        coherent(c.v.cache, c.v.id(w.storage), (p.tree)(w.storage)),
        fuel >= 1,
        !(w.goal is Mkdir || w.goal is Resolve || w.goal is Into),
    ensures
        carried_on(p, c, clock, fuel) == carried_on(p, r.0, clock, r.1),
        r.1 + 1 >= fuel,
        r.0.plan == arrived_with(r.0.v, r.2, w, dir, (p.tree)(w.storage)(dir)),
        r.0.v.storages == c.v.storages,
        coherent(r.0.v.cache, r.0.v.id(w.storage), (p.tree)(w.storage)),
        r.0.changes == c.changes,
{
    let tree = (p.tree)(w.storage);
    let sid = c.v.id(w.storage);
    let left = (fuel - 1) as nat;
    let then = clock(left);
    if c.plan is List && (w.goal.refreshes() || fresh_listing(c.v.cache, sid, dir, now) is None) {
        let d = answered(p, c, then);
        assert(carried_on(p, c, clock, fuel) == carried_on(p, d, clock, left));
        law_stored_listing_agrees(c.v.cache, sid, dir, then, tree);
        (d, left, then)
    } else {
        (c, fuel, now)
    }
}

// ---------------------------------------------------------------------------
// Reading
// ---------------------------------------------------------------------------

/// The steps that a request takes at most on its way down a path.
pub open spec fn way_down(p: DevPathView) -> nat {
    p.segments.len() + 2
}

/// True when the path leads along the way in the storage `i` of the phone, and
/// what the session knows of that storage agrees with the phone.
pub open spec fn reaches(
    p: Phone,
    v: SessionView,
    raw: Seq<char>,
    path: DevPathView,
    i: usize,
    way: Seq<Entry>,
) -> bool {
    &&& parsed(raw) == Ok::<DevPathView, ErrorView>(path)
    &&& path.storage_ref.len() > 0
    &&& addresses(v.storages, path.storage_ref, i as int)
    &&& coherent(v.cache, v.id(i), (p.tree)(i))
    &&& leads((p.tree)(i), path.segments, way)
}

/// Nothing was changed, and the reply is an error.
pub open spec fn refused(c: Call) -> bool {
    c.changes.len() == 0 && c.plan matches Plan::Done(Err(_))
}

/// A listing by path shows what is in the directory that the path leads to, in
/// the storage that its first part addresses, each entry as the phone gave it.
/// It changes nothing, and it is refused where a file lies on the way.
pub proof fn law_listing_shows_the_directory(
    p: Phone,
    v: SessionView,
    now: u64,
    raw: String,
    refresh: bool,
    path: DevPathView,
    i: usize,
    way: Seq<Entry>,
    clock: spec_fn(nat) -> u64,
    fuel: nat,
)
    requires
        reaches(p, v, raw@, path, i, way),
        fuel >= way_down(path),
    ensures
        ({
            let end = served(p, v, now, Request::List { path: raw, refresh }, clock, fuel);
            let found = (p.tree)(i)(end_of(way));
            &&& end.changes.len() == 0
            &&& all_dirs(way, way.len()) ==> {
                &&& end.plan matches Plan::Done(Ok(ReplyView::Entries(shown)))
                &&& shown.len() == found.len()
                &&& forall|k: int| 0 <= k < shown.len() ==> {
                    &&& (#[trigger] shown[k]).name == found[k].name@
                    &&& shown[k].handle == found[k].handle
                    &&& shown[k].parent == found[k].parent
                    &&& shown[k].is_dir == found[k].is_dir
                    &&& shown[k].size == found[k].size
                }
            }
            &&& !all_dirs(way, way.len()) ==> end.plan matches Plan::Done(
                Err(ErrorView::WrongKind(_)),
            )
        }),
{
    law_storage_is_found_by_its_reference(v.storages, path.storage_ref, i as int);
    let w = start(GoalView::List { refresh }, i as nat, path);
    let tree = (p.tree)(i);
    let c = Call {
        v,
        plan: request_plan(v, now, Request::List { path: raw, refresh }),
        changes: Seq::empty(),
    };
    let (d, m, n) = lemma_walk(p, c, w, now, clock, fuel);
    assert(way.take(0) =~= Seq::empty());
    assert(way.take(way.len() as int) =~= way);
    if all_dirs(way, way.len()) {
        lemma_lookup(tree, w, way);
        let (e, k, t) = lemma_arrival(p, d, w, end_of(way), n, clock, m);
        assert(carried_on(p, e, clock, k) == e);
    } else {
        let x = choose|x: int| 0 <= x < way.len() && !(#[trigger] way[x]).is_dir;
        lemma_file_in_the_way(tree, w, way, x);
        assert(carried_on(p, d, clock, m) == d);
    }
}

proof fn lemma_file_in_the_way(tree: Tree, w: WalkView, way: Seq<Entry>, x: int)
    requires
        leads(tree, w.path.segments, way),
        w.at <= w.upto(),
        w.upto() == way.len(),
        w.cur == end_of(way.take(w.at as int)),
        w.goal.needs_dirs(),
        w.at <= x < way.len(),
        !way[x].is_dir,
    ensures
        lookup(tree, w) is NotDir,
    decreases w.upto() - w.at,
{
    let k = w.at as int;
    let e = way[k];
    lemma_is_named(tree(w.cur), w.path.segments[k], e);
    if e.is_dir {
        assert(way.take(k + 1).last() == e);
        lemma_file_in_the_way(tree, deeper(w, e.handle), way, x);
    }
}

/// The path of the device root lists the storages: one directory for each, in
/// their order, with its description.
pub proof fn law_root_shows_the_storages(
    p: Phone,
    v: SessionView,
    now: u64,
    raw: String,
    refresh: bool,
    path: DevPathView,
    clock: spec_fn(nat) -> u64,
    fuel: nat,
)
    requires
        parsed(raw@) == Ok::<DevPathView, ErrorView>(path),
        path.storage_ref.len() == 0,
    ensures
        ({
            let end = served(p, v, now, Request::List { path: raw, refresh }, clock, fuel);
            &&& end.changes.len() == 0
            &&& end.plan matches Plan::Done(Ok(ReplyView::Entries(shown)))
            &&& shown.len() == v.storages.len()
            &&& forall|k: int|
                0 <= k < shown.len() ==> (#[trigger] shown[k]).is_dir && shown[k].name
                    == v.storages[k].description@
        }),
{
}

/// A path is resolved to the object that it leads to, in the storage that its
/// first part addresses, with what the phone says of that object; the path of a
/// storage to its root.
pub proof fn law_path_is_resolved_to_its_object(
    p: Phone,
    v: SessionView,
    now: u64,
    raw: String,
    refresh: bool,
    path: DevPathView,
    i: usize,
    way: Seq<Entry>,
    clock: spec_fn(nat) -> u64,
    fuel: nat,
)
    requires
        reaches(p, v, raw@, path, i, way),
        fuel >= way_down(path),
    ensures
        ({
            let end = served(p, v, now, Request::Resolve { path: raw, refresh }, clock, fuel);
            &&& end.changes.len() == 0
            &&& end.plan matches Plan::Done(
                Ok(ReplyView::Resolved { storage_index: at, handle, entry }),
            )
            &&& at == i
            &&& handle == end_of(way)
            &&& if way.len() == 0 {
                entry.is_dir && entry.name == v.storages[i as int].description@ && entry.handle == 0
            } else {
                entry == (p.info)((i, handle))@
            }
        }),
{
    law_storage_is_found_by_its_reference(v.storages, path.storage_ref, i as int);
    if way.len() > 0 {
        let w = start(GoalView::Resolve { refresh }, i as nat, path);
        let tree = (p.tree)(i);
        let c = Call {
            v,
            plan: request_plan(v, now, Request::Resolve { path: raw, refresh }),
            changes: Seq::empty(),
        };
        assert(way.take(0) =~= Seq::empty());
        assert(way.take(way.len() as int) =~= way);
        lemma_lookup(tree, w, way);
        let (d, m, n) = lemma_walk(p, c, w, now, clock, fuel);
        let e = answered(p, d, clock((m - 1) as nat));
        assert(carried_on(p, d, clock, m) == carried_on(p, e, clock, (m - 1) as nat));
        assert(carried_on(p, e, clock, (m - 1) as nat) == e);
    }
}

// ---------------------------------------------------------------------------
// Changing
// ---------------------------------------------------------------------------

/// A walk for a request that acts on the last name of its path comes to the
/// entry with that name.
proof fn lemma_pick(
    p: Phone,
    c: Call,
    w: WalkView,
    now: u64,
    way: Seq<Entry>,
    clock: spec_fn(nat) -> u64,
    fuel: nat,
) -> (r: (Call, nat, u64))
    requires
        c.plan == proceed(c.v, now, w),
        w.goal.picks(),
        w.storage < c.v.storages.len(),
        coherent(c.v.cache, c.v.id(w.storage), (p.tree)(w.storage)),
        leads((p.tree)(w.storage), w.path.segments, way),
        way.len() > 0,
        w.at == 0,
        w.cur == 0,
        fuel >= way.len() + 1,
    ensures
        carried_on(p, c, clock, fuel) == carried_on(p, r.0, clock, r.1),
        r.1 + way.len() >= fuel,
        r.0.plan == crate::session::picked(
            r.0.v,
            r.2,
            w,
            end_of(way.drop_last()),
            way.last(),
        ),
        r.0.v.storages == c.v.storages,
        coherent(r.0.v.cache, r.0.v.id(w.storage), (p.tree)(w.storage)),
        r.0.changes == c.changes,
{
    let tree = (p.tree)(w.storage);
    let n = way.len() - 1;
    assert(way.take(0) =~= Seq::empty());
    assert(way.take(n) =~= way.drop_last());
    lemma_lookup(tree, w, way);
    let (d, m, t) = lemma_walk(p, c, w, now, clock, fuel);
    let dir = end_of(way.drop_last());
    let (e, k, u) = lemma_arrival(p, d, w, dir, t, clock, m);
    assert(is_named(tree(end_of(way.take(n))), w.path.segments[n], way[n]));
    lemma_is_named(tree(dir), w.path.segments[n], way[n]);
    (e, k, u)
}

/// Without an object at the end of the path nothing is done.
proof fn lemma_nothing_to_pick(
    p: Phone,
    c: Call,
    w: WalkView,
    now: u64,
    clock: spec_fn(nat) -> u64,
    fuel: nat,
)
    requires
        c.plan == proceed(c.v, now, w),
        c.changes.len() == 0,
        w.goal.picks(),
        w.storage < c.v.storages.len(),
        coherent(c.v.cache, c.v.id(w.storage), (p.tree)(w.storage)),
        forall|way: Seq<Entry>| !#[trigger] leads((p.tree)(w.storage), w.path.segments, way),
        w.path.segments.len() > 0,
        w.at == 0,
        w.cur == 0,
        fuel >= w.path.segments.len() + 1,
    ensures
        refused(carried_on(p, c, clock, fuel)),
{
    let tree = (p.tree)(w.storage);
    let (d, m, t) = lemma_walk(p, c, w, now, clock, fuel);
    match lookup(tree, w) {
        DescentView::At { dir } => {
            let none = Seq::<Entry>::empty();
            let way = lemma_way(tree, w, none);
            let (e, k, u) = lemma_arrival(p, d, w, dir, t, clock, m);
            let last = w.path.segments.last();
            if let Some(x) = child_named(tree(dir), last) {
                lemma_is_named(tree(dir), last, x);
                let more = way.push(x);
                let names = w.path.segments;
                let n = names.len() - 1;
                assert forall|j: int| 0 <= j < names.len() implies is_named(
                    tree(end_of(more.take(j))),
                    names[j],
                    #[trigger] more[j],
                ) by {
                    if j < n {
                        assert(more[j] == way[j]);
                        assert(more.take(j) =~= way.take(j));
                        assert(names[j] == names.take(n)[j]);
                    } else {
                        assert(more.take(n) =~= way);
                    }
                }
                assert(leads(tree, names, more));
            }
            assert(carried_on(p, e, clock, k) == e);
        },
        _ => {
            lemma_never_needs(tree, w);
            assert(carried_on(p, d, clock, m) == d);
        },
    }
}

proof fn lemma_never_needs(tree: Tree, w: WalkView)
    ensures
        !(lookup(tree, w) is Need),
    decreases w.upto() - w.at,
{
    if w.at < w.upto() {
        if let Some(e) = child_named(tree(w.cur), w.path.segments[w.at as int]) {
            if !(w.goal.needs_dirs() && !e.is_dir) {
                lemma_never_needs(tree, deeper(w, e.handle));
            }
        }
    }
}

/// A recursive deletion goes on to its end.
proof fn lemma_tree_goes(
    p: Phone,
    c: Call,
    t: TreeView,
    now: u64,
    rank: spec_fn(u64) -> nat,
    clock: spec_fn(nat) -> u64,
    fuel: nat,
)
    requires
        c.plan == advance(c.v, now, t),
        t.storage < c.v.storages.len(),
        coherent(c.v.cache, c.v.id(t.storage), (p.tree)(t.storage)),
        ranked((p.tree)(t.storage), rank),
        stack_agrees((p.tree)(t.storage), t.stack),
        t.count + remaining((p.tree)(t.storage), rank, t.stack).len() <= u32::MAX,
        fuel + t.stack.len() >= 2 * remaining((p.tree)(t.storage), rank, t.stack).len(),
    ensures
        ({
            let end = carried_on(p, c, clock, fuel);
            let rest = remaining((p.tree)(t.storage), rank, t.stack);
            &&& end.changes == c.changes + deletions(t.storage, rest)
            &&& end.plan == Plan::Done(Ok(ReplyView::Count((t.count + rest.len()) as u32)))
        }),
    decreases fuel,
{
    let tree = (p.tree)(t.storage);
    let rest = remaining(tree, rank, t.stack);
    law_deletion_goes_contents_first(c.v, now, t, tree, rank);
    law_deletion_counts_each_object(c.v, now, t, tree, rank);
    lemma_stack_remains(tree, rank, t.stack);
    if t.stack.len() == 0 {
        assert(c.changes + deletions(t.storage, rest) =~= c.changes);
        assert(carried_on(p, c, clock, fuel) == c);
    } else {
        let left = (fuel - 1) as nat;
        let then = clock(left);
        let sid = c.v.id(t.storage);
        let next = answered(p, c, then);
        assert(carried_on(p, c, clock, fuel) == carried_on(p, next, clock, left));
        match c.plan {
            Plan::Delete { storage, handle, after } => {
                let u = match after {
                    AfterDeleteView::Child(u) => left_file(u),
                    AfterDeleteView::Dir(u) => left_dir(u),
                    _ => t,
                };
                match after {
                    AfterDeleteView::Child(x) => {
                        lemma_dropped_keeps_agreeing(c.v.cache, sid, x.stack.last().dir, tree);
                    },
                    AfterDeleteView::Dir(x) => {
                        let cache = dropped(c.v.cache, sid, x.stack.last().dir);
                        lemma_dropped_keeps_agreeing(c.v.cache, sid, x.stack.last().dir, tree);
                        lemma_dropped_keeps_agreeing(cache, sid, holder(x), tree);
                    },
                    _ => {},
                }
                lemma_tree_goes(p, next, u, then, rank, clock, left);
                let more = remaining(tree, rank, u.stack);
                assert(rest == seq![handle] + more);
                assert(next.changes + deletions(t.storage, more) =~= c.changes + deletions(
                    t.storage,
                    rest,
                ));
            },
            Plan::List { dir, after, .. } => {
                law_stored_listing_agrees(c.v.cache, sid, dir, then, tree);
                if let AfterListView::Tree { tree: u, .. } = after {
                    lemma_tree_goes(
                        p,
                        next,
                        entered(u, dir, tree(dir)),
                        then,
                        rank,
                        clock,
                        left,
                    );
                }
            },
            Plan::Again(u) => {
                lemma_tree_goes(p, next, u, then, rank, clock, left);
            },
            _ => {},
        }
    }
}

/// The deletion of each of the objects of a storage.
pub open spec fn deletions(storage: usize, handles: Seq<u64>) -> Seq<Change> {
    handles.map_values(|handle: u64| Change::Deleted { storage, handle })
}

/// A removal deletes the object that the path leads to, in the storage that its
/// first part addresses: a file alone; a directory, if that was asked for, after
/// everything below it; and nothing else. It replies with the number of the
/// objects. A directory is left alone when it was not asked for.
pub proof fn law_removal_deletes_what_the_path_leads_to(
    p: Phone,
    v: SessionView,
    now: u64,
    raw: String,
    recursive: bool,
    path: DevPathView,
    i: usize,
    way: Seq<Entry>,
    rank: spec_fn(u64) -> nat,
    clock: spec_fn(nat) -> u64,
    fuel: nat,
)
    requires
        reaches(p, v, raw@, path, i, way),
        way.len() > 0,
        ranked((p.tree)(i), rank),
        post_order((p.tree)(i), rank, end_of(way)).len() <= u32::MAX,
        fuel >= way_down(path) + 2 * post_order((p.tree)(i), rank, end_of(way)).len(),
    ensures
        ({
            let end = served(p, v, now, Request::Remove { path: raw, recursive }, clock, fuel);
            let all = if way.last().is_dir {
                post_order((p.tree)(i), rank, end_of(way))
            } else {
                seq![end_of(way)]
            };
            &&& way.last().is_dir && !recursive ==> refused(end)
            &&& !way.last().is_dir || recursive ==> {
                &&& end.changes.len() == all.len()
                &&& forall|k: int|
                    0 <= k < all.len() ==> #[trigger] end.changes[k] == (Change::Deleted {
                        storage: i,
                        handle: all[k],
                    })
                &&& end.plan == Plan::Done(Ok(ReplyView::Count(all.len() as u32)))
                &&& all.last() == end_of(way)
            }
        }),
{
    law_storage_is_found_by_its_reference(v.storages, path.storage_ref, i as int);
    let w = start(GoalView::Remove { recursive }, i as nat, path);
    let tree = (p.tree)(i);
    let req = Request::Remove { path: raw, recursive };
    let c = Call { v, plan: request_plan(v, now, req), changes: Seq::empty() };
    let (d, m, n) = lemma_pick(p, c, w, now, way, clock, fuel);
    let e = way.last();
    let left = (m - 1) as nat;
    let then = clock(left);
    let next = answered(p, d, then);
    if !e.is_dir {
        assert(carried_on(p, d, clock, m) == carried_on(p, next, clock, left));
        assert(carried_on(p, next, clock, left) == next);
    } else if !recursive {
        assert(carried_on(p, d, clock, m) == d);
    } else {
        let t = TreeView {
            storage: i,
            parent: end_of(way.drop_last()),
            stack: Seq::empty(),
            count: 0,
        };
        let u = entered(t, e.handle, tree(e.handle));
        let all = post_order(tree, rank, e.handle);
        law_deletion_starts_with_the_whole_tree(tree, rank, t, e.handle);
        assert(carried_on(p, d, clock, m) == carried_on(p, next, clock, left));
        law_stored_listing_agrees(d.v.cache, d.v.id(i), e.handle, then, tree);
        assert(next.plan == advance(next.v, then, u));
        lemma_tree_goes(p, next, u, then, rank, clock, left);
        assert(next.changes + deletions(i, all) =~= deletions(i, all));
    }
}

/// A removal, a rename and a move of what is not there change nothing and are
/// refused.
pub proof fn law_what_is_not_there_is_not_changed(
    p: Phone,
    v: SessionView,
    now: u64,
    raw: String,
    recursive: bool,
    new_name: String,
    path: DevPathView,
    i: usize,
    clock: spec_fn(nat) -> u64,
    fuel: nat,
)
    requires
        parsed(raw@) == Ok::<DevPathView, ErrorView>(path),
        path.storage_ref.len() > 0,
        addresses(v.storages, path.storage_ref, i as int),
        coherent(v.cache, v.id(i), (p.tree)(i)),
        forall|way: Seq<Entry>| !#[trigger] leads((p.tree)(i), path.segments, way),
        fuel >= way_down(path),
    ensures
        refused(served(p, v, now, Request::Remove { path: raw, recursive }, clock, fuel)),
        refused(served(p, v, now, Request::Rename { path: raw, new_name }, clock, fuel)),
{
    law_storage_is_found_by_its_reference(v.storages, path.storage_ref, i as int);
    if path.segments.len() == 0 {
        assert(leads((p.tree)(i), path.segments, Seq::empty()));
    }
    let req = Request::Remove { path: raw, recursive };
    let c = Call { v, plan: request_plan(v, now, req), changes: Seq::empty() };
    lemma_nothing_to_pick(
        p,
        c,
        start(GoalView::Remove { recursive }, i as nat, path),
        now,
        clock,
        fuel,
    );
    let req = Request::Rename { path: raw, new_name };
    let c = Call { v, plan: request_plan(v, now, req), changes: Seq::empty() };
    if !new_name@.contains('/') {
        lemma_nothing_to_pick(
            p,
            c,
            start(GoalView::Rename { new_name: new_name@ }, i as nat, path),
            now,
            clock,
            fuel,
        );
    }
}

/// A rename gives the new name to the object that the path leads to, in the
/// storage that its first part addresses, and changes nothing else. It replies
/// with what the phone then says of the object. A name with a slash is refused.
pub proof fn law_rename_names_what_the_path_leads_to(
    p: Phone,
    v: SessionView,
    now: u64,
    raw: String,
    new_name: String,
    path: DevPathView,
    i: usize,
    way: Seq<Entry>,
    clock: spec_fn(nat) -> u64,
    fuel: nat,
)
    requires
        reaches(p, v, raw@, path, i, way),
        way.len() > 0,
        fuel >= way_down(path) + 1,
    ensures
        ({
            let end = served(p, v, now, Request::Rename { path: raw, new_name }, clock, fuel);
            &&& new_name@.contains('/') ==> refused(end)
            &&& !new_name@.contains('/') ==> {
                &&& end.changes.len() == 1
                &&& end.changes[0] == (Change::Renamed {
                    storage: i,
                    handle: end_of(way),
                    name: new_name@,
                })
                &&& end.plan == Plan::Done(
                    Ok(ReplyView::Entry((p.info)((i, end_of(way)))@)),
                )
            }
        }),
{
    law_storage_is_found_by_its_reference(v.storages, path.storage_ref, i as int);
    let w = start(GoalView::Rename { new_name: new_name@ }, i as nat, path);
    let req = Request::Rename { path: raw, new_name };
    let c = Call { v, plan: request_plan(v, now, req), changes: Seq::empty() };
    if !new_name@.contains('/') {
        let (d, m, n) = lemma_pick(p, c, w, now, way, clock, fuel);
        let d1 = answered(p, d, clock((m - 1) as nat));
        assert(carried_on(p, d, clock, m) == carried_on(p, d1, clock, (m - 1) as nat));
        let d2 = answered(p, d1, clock((m - 2) as nat));
        assert(carried_on(p, d1, clock, (m - 1) as nat) == carried_on(
            p,
            d2,
            clock,
            (m - 2) as nat,
        ));
        assert(carried_on(p, d2, clock, (m - 2) as nat) == d2);
    }
}

/// A move puts the object that the first path leads to into the directory that
/// the second path leads to, both in one storage, and changes nothing else. A
/// destination that is no directory is refused, and so is one in another storage.
pub proof fn law_move_puts_the_object_into_the_directory(
    p: Phone,
    v: SessionView,
    now: u64,
    src: String,
    dst: String,
    from: DevPathView,
    to: DevPathView,
    i: usize,
    j: usize,
    way: Seq<Entry>,
    target: Seq<Entry>,
    clock: spec_fn(nat) -> u64,
    fuel: nat,
)
    requires
        reaches(p, v, src@, from, i, way),
        reaches(p, v, dst@, to, j, target),
        way.len() > 0,
        target.len() > 0,
        fuel >= way_down(from) + way_down(to) + 2,
    ensures
        ({
            let end = served(p, v, now, Request::MoveInto { src, dst_dir: dst }, clock, fuel);
            &&& i != j || !(p.info)((j, end_of(target))).is_dir ==> refused(end)
            &&& i == j && (p.info)((j, end_of(target))).is_dir ==> {
                &&& end.changes.len() == 1
                &&& end.changes[0] == (Change::Moved {
                    storage: i,
                    handle: end_of(way),
                    dir: end_of(target),
                })
                &&& end.plan == Plan::Done(
                    Ok(ReplyView::Entry((p.info)((i, end_of(way)))@)),
                )
            }
        }),
{
    law_storage_is_found_by_its_reference(v.storages, from.storage_ref, i as int);
    law_storage_is_found_by_its_reference(v.storages, to.storage_ref, j as int);
    let req = Request::MoveInto { src, dst_dir: dst };
    let c = Call { v, plan: request_plan(v, now, req), changes: Seq::empty() };
    if i == j {
        let w = start(GoalView::Move { dst: to, dst_raw: dst@ }, i as nat, from);
        let (d, m, n) = lemma_pick(p, c, w, now, way, clock, fuel);
        let x = WalkView {
            goal: GoalView::Into {
                object: end_of(way),
                src_parent: end_of(way.drop_last()),
                dst_raw: dst@,
            },
            storage: i,
            path: to,
            cur: 0,
            at: 0,
        };
        assert(d.plan == seek_destination(d.v, n, x));
        assert(d.plan == proceed(d.v, n, x));
        let (e, k, t) = lemma_walk(p, d, x, n, clock, m);
        assert(target.take(0) =~= Seq::empty());
        assert(target.take(target.len() as int) =~= target);
        lemma_lookup((p.tree)(i), x, target);
        let e1 = answered(p, e, clock((k - 1) as nat));
        assert(carried_on(p, e, clock, k) == carried_on(p, e1, clock, (k - 1) as nat));
        if (p.info)((j, end_of(target))).is_dir {
            let e2 = answered(p, e1, clock((k - 2) as nat));
            assert(carried_on(p, e1, clock, (k - 1) as nat) == carried_on(
                p,
                e2,
                clock,
                (k - 2) as nat,
            ));
            let e3 = answered(p, e2, clock((k - 3) as nat));
            assert(carried_on(p, e2, clock, (k - 2) as nat) == carried_on(
                p,
                e3,
                clock,
                (k - 3) as nat,
            ));
            assert(carried_on(p, e3, clock, (k - 3) as nat) == e3);
        } else {
            assert(carried_on(p, e1, clock, (k - 1) as nat) == e1);
        }
    }
}

// ---------------------------------------------------------------------------
// Making directories
// ---------------------------------------------------------------------------

/// A walk that finds the first names of the path, and not the next one.
proof fn lemma_lookup_missing(tree: Tree, w: WalkView, way: Seq<Entry>)
    requires
        w.goal is Mkdir,
        way.len() < w.path.segments.len(),
        leads(tree, w.path.segments.take(way.len() as int), way),
        all_dirs(way, way.len()),
        forall|e: Entry|
            !#[trigger] is_named(tree(end_of(way)), w.path.segments[way.len() as int], e),
        w.at <= way.len(),
        w.cur == end_of(way.take(w.at as int)),
    ensures
        lookup(tree, w) == (DescentView::Missing { dir: end_of(way), at: way.len() }),
    decreases way.len() - w.at,
{
    let names = w.path.segments.take(way.len() as int);
    let k = w.at as int;
    if k < way.len() {
        let e = way[k];
        assert(names[k] == w.path.segments[k]);
        lemma_is_named(tree(w.cur), w.path.segments[k], e);
        assert(way.take(k + 1).last() == e);
        lemma_lookup_missing(tree, deeper(w, e.handle), way);
    } else {
        assert(way.take(k) =~= way);
        if let Some(e) = child_named(tree(w.cur), w.path.segments[k]) {
            lemma_is_named(tree(w.cur), w.path.segments[k], e);
        }
    }
}

/// The directories of a path from the segment `at` on are made one inside the
/// other.
proof fn lemma_making(
    p: Phone,
    c: Call,
    path: DevPathView,
    i: usize,
    parent: u64,
    at: nat,
    clock: spec_fn(nat) -> u64,
    fuel: nat,
)
    requires
        i < c.v.storages.len(),
        at < path.segments.len(),
        c.plan == (Plan::CreateFolder {
            storage: i,
            parent,
            name: path.segments[at as int],
            after: AfterCreateView::Path { storage: i, path, parent, at },
        }),
        fuel >= path.segments.len() - at,
    ensures
        ({
            let end = carried_on(p, c, clock, fuel);
            let n = c.changes.len();
            let made = path.segments.len() - at;
            &&& end.changes.len() == n + made
            &&& forall|j: int| 0 <= j < n ==> #[trigger] end.changes[j] == c.changes[j]
            &&& forall|j: int|
                n <= j < n + made ==> #[trigger] end.changes[j] == (Change::Made {
                    storage: i,
                    parent: if j == n {
                        parent
                    } else {
                        (p.fresh)((j - 1) as nat)
                    },
                    name: path.segments[at + j - n],
                })
            &&& end.plan matches Plan::Done(Ok(ReplyView::Entry(e)))
            &&& e.handle == (p.fresh)((n + made - 1) as nat)
            &&& e.is_dir
            &&& e.name == path.segments.last()
        }),
    decreases path.segments.len() - at,
{
    let left = (fuel - 1) as nat;
    let d = answered(p, c, clock(left));
    assert(carried_on(p, c, clock, fuel) == carried_on(p, d, clock, left));
    if at + 1 < path.segments.len() {
        lemma_making(p, d, path, i, (p.fresh)(c.changes.len()), at + 1, clock, left);
        let end = carried_on(p, d, clock, left);
        let n = c.changes.len() as int;
        assert(end.changes[n] == d.changes[n]);
        assert forall|j: int| 0 <= j < n implies #[trigger] end.changes[j] == c.changes[j] by {
            assert(end.changes[j] == d.changes[j]);
        }
    } else {
        assert(carried_on(p, d, clock, left) == d);
    }
}

/// Making a directory by path makes exactly the directories of the path that are
/// missing, in the storage that its first part addresses: the first one in the
/// last directory that is there, each other one inside the one made before it,
/// under the names of the path. It replies with the last one; where nothing is
/// missing, with the directory that is there.
pub proof fn law_missing_directories_are_made(
    p: Phone,
    v: SessionView,
    now: u64,
    raw: String,
    path: DevPathView,
    i: usize,
    way: Seq<Entry>,
    clock: spec_fn(nat) -> u64,
    fuel: nat,
)
    requires
        parsed(raw@) == Ok::<DevPathView, ErrorView>(path),
        path.storage_ref.len() > 0,
        addresses(v.storages, path.storage_ref, i as int),
        coherent(v.cache, v.id(i), (p.tree)(i)),
        way.len() <= path.segments.len(),
        leads((p.tree)(i), path.segments.take(way.len() as int), way),
        all_dirs(way, way.len()),
        way.len() < path.segments.len() ==> forall|e: Entry|
            !#[trigger] is_named(
                (p.tree)(i)(end_of(way)),
                path.segments[way.len() as int],
                e,
            ),
        fuel >= way_down(path) + path.segments.len(),
    ensures
        ({
            let end = served(p, v, now, Request::MkdirAll { path: raw }, clock, fuel);
            let n = path.segments.len() - way.len();
            &&& end.changes.len() == n
            &&& forall|j: int|
                0 <= j < n ==> #[trigger] end.changes[j] == (Change::Made {
                    storage: i,
                    parent: if j == 0 {
                        end_of(way)
                    } else {
                        (p.fresh)((j - 1) as nat)
                    },
                    name: path.segments[way.len() + j],
                })
            &&& end.plan matches Plan::Done(Ok(ReplyView::Entry(e)))
            &&& e.is_dir
            &&& e.handle == if n == 0 {
                end_of(way)
            } else {
                (p.fresh)((n - 1) as nat)
            }
            &&& path.segments.len() > 0 ==> e.name == path.segments.last()
        }),
{
    law_storage_is_found_by_its_reference(v.storages, path.storage_ref, i as int);
    let w = start(GoalView::Mkdir, i as nat, path);
    let tree = (p.tree)(i);
    let c = Call {
        v,
        plan: request_plan(v, now, Request::MkdirAll { path: raw }),
        changes: Seq::empty(),
    };
    assert(way.take(0) =~= Seq::empty());
    assert(way.take(way.len() as int) =~= way);
    let (d, m, n) = lemma_walk(p, c, w, now, clock, fuel);
    if way.len() < path.segments.len() {
        lemma_lookup_missing(tree, w, way);
        lemma_making(p, d, path, i, end_of(way), way.len(), clock, m);
    } else {
        assert(path.segments.take(way.len() as int) =~= path.segments);
        lemma_lookup(tree, w, way);
        assert(carried_on(p, d, clock, m) == d);
    }
}

/// A file in the way of a new directory is left alone: nothing is made, and the
/// request is refused for it.
pub proof fn law_no_directory_is_made_below_a_file(
    p: Phone,
    v: SessionView,
    now: u64,
    raw: String,
    path: DevPathView,
    i: usize,
    way: Seq<Entry>,
    x: int,
    clock: spec_fn(nat) -> u64,
    fuel: nat,
)
    requires
        reaches(p, v, raw@, path, i, way),
        0 <= x < way.len(),
        !way[x].is_dir,
        fuel >= way_down(path),
    ensures
        ({
            let end = served(p, v, now, Request::MkdirAll { path: raw }, clock, fuel);
            &&& end.changes.len() == 0
            &&& end.plan matches Plan::Done(Err(ErrorView::WrongKind(_)))
        }),
{
    law_storage_is_found_by_its_reference(v.storages, path.storage_ref, i as int);
    let w = start(GoalView::Mkdir, i as nat, path);
    let c = Call {
        v,
        plan: request_plan(v, now, Request::MkdirAll { path: raw }),
        changes: Seq::empty(),
    };
    assert(way.take(0) =~= Seq::empty());
    let (d, m, n) = lemma_walk(p, c, w, now, clock, fuel);
    lemma_file_in_the_way((p.tree)(i), w, way, x);
    assert(carried_on(p, d, clock, m) == d);
}

// ---------------------------------------------------------------------------
// Requests by handle, and refusals
// ---------------------------------------------------------------------------

/// A request by handle reaches the object with that handle in that storage, and
/// no other: what is listed, described, read, deleted, made and stored is what
/// was asked for.
pub proof fn law_handle_requests_reach_their_object(
    p: Phone,
    v: SessionView,
    now: u64,
    storage: usize,
    handle: u64,
    name: String,
    size: u64,
    offset: u64,
    count: u32,
    clock: spec_fn(nat) -> u64,
    fuel: nat,
)
    requires
        storage < v.storages.len(),
        coherent(v.cache, v.id(storage), (p.tree)(storage)),
        fuel >= 1,
    ensures
        ({
            let list = served(
                p,
                v,
                now,
                Request::HList { storage_index: storage, dir: handle },
                clock,
                fuel,
            );
            let found = (p.tree)(storage)(handle);
            &&& list.changes.len() == 0
            &&& list.plan matches Plan::Done(Ok(ReplyView::Entries(shown)))
            &&& shown.len() == found.len()
            &&& forall|k: int| 0 <= k < shown.len() ==> #[trigger] shown[k] == found[k]@
        }),
        ({
            let info = served(
                p,
                v,
                now,
                Request::HInfo { storage_index: storage, handle },
                clock,
                fuel,
            );
            &&& info.changes.len() == 0
            &&& info.plan == Plan::Done(Ok(ReplyView::Entry((p.info)((storage, handle))@)))
        }),
        ({
            let gone = served(
                p,
                v,
                now,
                Request::HDelete { storage_index: storage, handle },
                clock,
                fuel,
            );
            &&& gone.changes.len() == 1
            &&& gone.changes[0] == (Change::Deleted { storage, handle })
            &&& gone.plan == Plan::Done(Ok(ReplyView::Nothing))
        }),
        ({
            let made = served(
                p,
                v,
                now,
                Request::HMkdir { storage_index: storage, parent: handle, name },
                clock,
                fuel,
            );
            &&& made.changes.len() == 1
            &&& made.changes[0] == (Change::Made { storage, parent: handle, name: name@ })
            &&& made.plan matches Plan::Done(Ok(ReplyView::Entry(e)))
            &&& e.handle == (p.fresh)(0)
            &&& e.parent == handle
            &&& e.name == name@
            &&& e.is_dir
        }),
        request_plan(
            v,
            now,
            Request::HRead { storage_index: storage, handle, offset, count },
        ) matches Plan::Read { storage: s, handle: h, offset: o, count: n } && s == storage && h
            == handle && o == offset && n == count,
        request_plan(
            v,
            now,
            Request::HUpload { storage_index: storage, parent: handle, name, size },
        ) matches Plan::Upload { storage: s, parent: d, name: n, size: m, .. } && s == storage && d
            == handle && n == name@ && m == size,
{
    let list = Request::HList { storage_index: storage, dir: handle };
    let c = Call { v, plan: request_plan(v, now, list), changes: Seq::empty() };
    let left = (fuel - 1) as nat;
    lemma_one_step(p, c, clock, fuel);
    let info = Request::HInfo { storage_index: storage, handle };
    lemma_one_step(
        p,
        Call { v, plan: request_plan(v, now, info), changes: Seq::empty() },
        clock,
        fuel,
    );
    let gone = Request::HDelete { storage_index: storage, handle };
    lemma_one_step(
        p,
        Call { v, plan: request_plan(v, now, gone), changes: Seq::empty() },
        clock,
        fuel,
    );
    let made = Request::HMkdir { storage_index: storage, parent: handle, name };
    lemma_one_step(
        p,
        Call { v, plan: request_plan(v, now, made), changes: Seq::empty() },
        clock,
        fuel,
    );
}

proof fn lemma_one_step(p: Phone, c: Call, clock: spec_fn(nat) -> u64, fuel: nat)
    requires
        fuel >= 1,
    ensures
        c.plan is Done ==> carried_on(p, c, clock, fuel) == c,
        ({
            let d = answered(p, c, clock((fuel - 1) as nat));
            !(c.plan is Done) && d.plan is Done ==> carried_on(p, c, clock, fuel) == d
        }),
{
    let left = (fuel - 1) as nat;
    let d = answered(p, c, clock(left));
    if !(c.plan is Done) {
        assert(carried_on(p, c, clock, fuel) == carried_on(p, d, clock, left));
        if d.plan is Done {
            assert(carried_on(p, d, clock, left) == d);
        }
    }
}

/// A rename by handles takes the entry with the old name out of the one
/// directory and puts it into the other one under the new name: it is moved if
/// the directories differ, and renamed if the names do. Without such an entry
/// nothing is changed.
pub proof fn law_rename_by_handles_moves_the_entry(
    p: Phone,
    v: SessionView,
    now: u64,
    storage: usize,
    from: u64,
    from_name: String,
    to: u64,
    to_name: String,
    e: Entry,
    clock: spec_fn(nat) -> u64,
    fuel: nat,
)
    requires
        storage < v.storages.len(),
        coherent(v.cache, v.id(storage), (p.tree)(storage)),
        is_named((p.tree)(storage)(from), from_name@, e),
        fuel >= 3,
    ensures
        ({
            let end = served(
                p,
                v,
                now,
                Request::HRename { storage_index: storage, from, from_name, to, to_name },
                clock,
                fuel,
            );
            let moved = Change::Moved { storage, handle: e.handle, dir: to };
            let renamed = Change::Renamed { storage, handle: e.handle, name: to_name@ };
            &&& end.plan == Plan::Done(Ok(ReplyView::Nothing))
            &&& from == to && e.name@ == to_name@ ==> end.changes.len() == 0
            &&& from == to && e.name@ != to_name@ ==> end.changes =~= seq![renamed]
            &&& from != to && e.name@ == to_name@ ==> end.changes =~= seq![moved]
            &&& from != to && e.name@ != to_name@ ==> end.changes =~= seq![moved, renamed]
        }),
{
    let tree = (p.tree)(storage);
    let req = Request::HRename { storage_index: storage, from, from_name, to, to_name };
    let c = Call { v, plan: request_plan(v, now, req), changes: Seq::empty() };
    lemma_is_named(tree(from), from_name@, e);
    let (d, m) = if c.plan is List {
        let d = answered(p, c, clock((fuel - 1) as nat));
        assert(carried_on(p, c, clock, fuel) == carried_on(p, d, clock, (fuel - 1) as nat));
        (d, (fuel - 1) as nat)
    } else {
        (c, fuel)
    };
    if !(d.plan is Done) {
        let d1 = answered(p, d, clock((m - 1) as nat));
        assert(carried_on(p, d, clock, m) == carried_on(p, d1, clock, (m - 1) as nat));
        if !(d1.plan is Done) {
            lemma_one_step(p, d1, clock, (m - 1) as nat);
        } else {
            assert(carried_on(p, d1, clock, (m - 1) as nat) == d1);
        }
    } else {
        assert(carried_on(p, d, clock, m) == d);
    }
}

/// A download streams the object that was resolved, and an upload goes into the
/// directory that was resolved, under the name and with the size given.
pub proof fn law_transfers_reach_what_was_resolved(
    v: SessionView,
    now: u64,
    target: Resolved,
    name: String,
    size: u64,
)
    requires
        target.storage_index < v.storages.len(),
    ensures
        request_plan(v, now, Request::Download { target }) matches Plan::Download {
            storage,
            handle,
        } && storage == target.storage_index && handle == target.handle,
        request_plan(v, now, Request::Upload { parent: target, name, size }) matches Plan::Upload {
            storage,
            parent,
            name: n,
            size: m,
            ..
        } && storage == target.storage_index && parent == target.handle && n == name@ && m == size,
{
}

/// A malformed path, a storage that is not there, and the root of a storage or
/// of the device where an object in a storage is needed: no call is made for
/// them, and they are refused.
pub proof fn law_wrong_addresses_are_refused(
    v: SessionView,
    now: u64,
    raw: String,
    recursive: bool,
    new_name: String,
    other: String,
)
    ensures
        parsed(raw@) matches Err(e) ==> {
            let no = Plan::Done(Err::<ReplyView, ErrorView>(e));
            &&& request_plan(v, now, Request::List { path: raw, refresh: recursive }) == no
            &&& request_plan(v, now, Request::Resolve { path: raw, refresh: recursive }) == no
            &&& request_plan(v, now, Request::MkdirAll { path: raw }) == no
            &&& request_plan(v, now, Request::Remove { path: raw, recursive }) == no
            &&& request_plan(v, now, Request::Rename { path: raw, new_name }) == no
            &&& request_plan(v, now, Request::MoveInto { src: raw, dst_dir: other }) == no
        },
        parsed(raw@) matches Ok(p) ==> (p.storage_ref.len() == 0 ==> {
            &&& is_bad_argument(request_plan(v, now, Request::Resolve { path: raw, refresh: recursive }))
            &&& is_bad_argument(request_plan(v, now, Request::MkdirAll { path: raw }))
            &&& is_bad_argument(request_plan(v, now, Request::Remove { path: raw, recursive }))
            &&& is_bad_argument(request_plan(v, now, Request::Rename { path: raw, new_name }))
        }),
        parsed(raw@) matches Ok(p) ==> (p.segments.len() == 0 ==> {
            &&& is_bad_argument(request_plan(v, now, Request::Remove { path: raw, recursive }))
            &&& is_bad_argument(request_plan(v, now, Request::Rename { path: raw, new_name }))
        }),
        parsed(raw@) matches Ok(p) ==> (p.storage_ref.len() > 0 && p.segments.len() > 0
            && number_of(p.storage_ref) is None && (forall|j: int|
            0 <= j < v.storages.len() ==> !same_name_ci(
                (#[trigger] v.storages[j]).description@,
                p.storage_ref,
            )) ==> {
            &&& is_not_found(request_plan(v, now, Request::List { path: raw, refresh: recursive }))
            &&& is_not_found(request_plan(v, now, Request::Resolve { path: raw, refresh: recursive }))
            &&& is_not_found(request_plan(v, now, Request::MkdirAll { path: raw }))
            &&& is_not_found(request_plan(v, now, Request::Remove { path: raw, recursive }))
            &&& !new_name@.contains('/') ==> is_not_found(
                request_plan(v, now, Request::Rename { path: raw, new_name }),
            )
        }),
{
    if let Ok(p) = parsed(raw@) {
        law_storage_is_found_by_its_reference(v.storages, p.storage_ref, 0);
    }
}

/// Refused as a request that makes no sense.
pub open spec fn is_bad_argument(plan: Plan) -> bool {
    plan matches Plan::Done(Err(ErrorView::InvalidArgument(_)))
}

/// Refused because something is not there.
pub open spec fn is_not_found(plan: Plan) -> bool {
    plan matches Plan::Done(Err(ErrorView::NotFound(_)))
}

/// What is asked of the device as a whole is answered from what is known of it:
/// its storages, each as it is, and its summary. A ping makes one call to the
/// device, and the end of a session none.
pub proof fn law_device_requests_are_answered(
    v: SessionView,
    now: u64,
    manufacturer: String,
    model: String,
    serial: String,
    version: String,
)
    ensures
        request_plan(v, now, Request::Storages) == Plan::Done(
            Ok(ReplyView::Storages(v.storages)),
        ),
        request_plan(v, now, Request::Info { manufacturer, model, serial, version }) matches Plan::Done(
            Ok(ReplyView::Summary(s)),
        ) && s.storages == v.storages && (model@.len() > 0 ==> s.product == Some(model@)) && (
        manufacturer@.len() > 0 ==> s.manufacturer == Some(manufacturer@)) && (serial@.len() > 0
            ==> s.serial == Some(serial@)) && (version@.len() > 0 ==> s.firmware == Some(version@)),
        v.storages.len() > 0 ==> request_plan(v, now, Request::Ping) is Probe,
        request_plan(v, now, Request::Shutdown) == Plan::Done(Ok(ReplyView::Nothing)),
{
}

/// A storage that the device does not have is refused, and no call is made for
/// it.
pub proof fn law_storages_out_of_range_are_refused(
    v: SessionView,
    now: u64,
    storage: usize,
    handle: u64,
    name: String,
    size: u64,
    offset: u64,
    count: u32,
)
    requires
        storage >= v.storages.len(),
    ensures
        is_error(request_plan(v, now, Request::HList { storage_index: storage, dir: handle })),
        is_error(request_plan(v, now, Request::HInfo { storage_index: storage, handle })),
        is_error(
            request_plan(
                v,
                now,
                Request::HRead { storage_index: storage, handle, offset, count },
            ),
        ),
        is_error(request_plan(v, now, Request::HDelete { storage_index: storage, handle })),
        is_error(
            request_plan(
                v,
                now,
                Request::HUpload { storage_index: storage, parent: handle, name, size },
            ),
        ),
        is_error(
            request_plan(v, now, Request::HMkdir { storage_index: storage, parent: handle, name }),
        ),
{
}

/// True when the plan ends with an error.
pub open spec fn is_error(plan: Plan) -> bool {
    plan matches Plan::Done(Err(_))
}

} // verus!
