//! What holds of whole operations of a session.
//!
//! The device is modelled as a function from a directory to its entries. A
//! cache that agrees with the device never changes where an operation leads,
//! and every operation that changes the device leaves a cache that agrees with
//! it again.

use vstd::prelude::*;

use crate::cache::{dropped, fresh_listing, known_parent, stored, CacheView};
use crate::error::ErrorView;
use crate::model::{Entry, StorageSummary};
use crate::names::same_name_ci;
use crate::session::{
    advance, child_named, created_in, created_plan, created_session, deeper, deleted_plan,
    deleted_session, descend, descend_from, enter, entered, fail, holder, informed_plan, left_dir,
    left_file, listed_plan, listed_session, made_dir, missing, moved_between, moved_plan,
    moved_session, past_entry, picked, remove_plan, renamed_plan, renamed_session, summary_of,
    uploaded_plan, uploaded_session, DescentView, SessionView, Uploaded,
};
use crate::path::parsed;
use crate::step::{
    AfterCreateView, AfterDeleteView, AfterInfoView, AfterListView, AfterMoveView, AfterRename,
    AfterUpload, FrameView, GoalView, Plan, ReplyView, TreeView, WalkView,
};

verus! {

/// The contents of a storage: the entries of each directory.
pub type Tree = spec_fn(u64) -> Seq<Entry>;

/// True when every listing of the storage that the cache holds is what the
/// device holds.
pub open spec fn coherent(c: CacheView, sid: u32, tree: Tree) -> bool {
    c.contains_key(sid) ==> forall|dir: u64| #[trigger]
        c[sid].listings.contains_key(dir) ==> c[sid].listings[dir].children == tree(dir)
}

// ---------------------------------------------------------------------------
// Walks
// ---------------------------------------------------------------------------

/// Where a path leads on the device.
pub open spec fn lookup(tree: Tree, w: WalkView) -> DescentView
    decreases w.upto() - w.at,
{
    if w.at >= w.upto() {
        DescentView::At { dir: w.cur }
    } else {
        match child_named(tree(w.cur), w.path.segments[w.at as int]) {
            None => DescentView::Missing { dir: w.cur, at: w.at },
            Some(e) => if w.goal.needs_dirs() && !e.is_dir {
                DescentView::NotDir { at: w.at }
            } else {
                lookup(tree, deeper(w, e.handle))
            },
        }
    }
}

/// The whole walk: every listing that is asked for is answered by the device
/// and stored, at times given by `clock`.
pub open spec fn run_walk(
    c: CacheView,
    sid: u32,
    clock: spec_fn(nat) -> u64,
    w: WalkView,
    tree: Tree,
    fuel: nat,
) -> DescentView
    decreases fuel,
{
    match descend(c, sid, clock(fuel), w) {
        DescentView::Need { dir, at } => if fuel == 0 {
            DescentView::Need { dir, at }
        } else {
            let here = WalkView { cur: dir, at, ..w };
            let d = stored(c, sid, dir, tree(dir), clock(fuel));
            match child_named(tree(dir), w.path.segments[at as int]) {
                None => DescentView::Missing { dir, at },
                Some(e) => if w.goal.needs_dirs() && !e.is_dir {
                    DescentView::NotDir { at }
                } else {
                    run_walk(d, sid, clock, deeper(here, e.handle), tree, (fuel - 1) as nat)
                },
            }
        },
        d => d,
    }
}

/// Storing what the device holds keeps the cache in agreement with it.
pub proof fn law_stored_listing_agrees(c: CacheView, sid: u32, dir: u64, now: u64, tree: Tree)
    requires
        coherent(c, sid, tree),
    ensures
        coherent(stored(c, sid, dir, tree(dir), now), sid, tree),
{
}

/// As far as a cache that agrees with the device leads, it leads where the
/// device leads; and where it leads no further, the listing it needs is the one
/// of a directory on the way.
pub proof fn law_cached_walk_is_the_device_walk(
    c: CacheView,
    sid: u32,
    now: u64,
    w: WalkView,
    tree: Tree,
)
    requires
        coherent(c, sid, tree),
    ensures
        match descend(c, sid, now, w) {
            DescentView::Need { dir, at } => {
                &&& w.at <= at < w.upto()
                &&& lookup(tree, w) == lookup(tree, WalkView { cur: dir, at, ..w })
            },
            d => d == lookup(tree, w),
        },
    decreases w.upto() - w.at,
{
    if w.at < w.upto() && !w.goal.refreshes() {
        match fresh_listing(c, sid, w.cur, now) {
            None => {},
            Some(children) => {
                assert(children == tree(w.cur));
                match child_named(children, w.path.segments[w.at as int]) {
                    None => {},
                    Some(e) => {
                        if !(w.goal.needs_dirs() && !e.is_dir) {
                            law_cached_walk_is_the_device_walk(
                                c,
                                sid,
                                now,
                                deeper(w, e.handle),
                                tree,
                            );
                        }
                    },
                }
            },
        }
    }
}

/// The cache is transparent: whatever it holds, as long as that agrees with the
/// device, a walk whose questions the device answers ends where the path leads
/// on the device. It asks at most once for each segment.
pub proof fn law_walk_ends_where_the_path_leads(
    c: CacheView,
    sid: u32,
    clock: spec_fn(nat) -> u64,
    w: WalkView,
    tree: Tree,
    fuel: nat,
)
    requires
        coherent(c, sid, tree),
        fuel >= w.upto() - w.at,
    ensures
        run_walk(c, sid, clock, w, tree, fuel) == lookup(tree, w),
    decreases fuel,
{
    law_cached_walk_is_the_device_walk(c, sid, clock(fuel), w, tree);
    match descend(c, sid, clock(fuel), w) {
        DescentView::Need { dir, at } => {
            let here = WalkView { cur: dir, at, ..w };
            let d = stored(c, sid, dir, tree(dir), clock(fuel));
            law_stored_listing_agrees(c, sid, dir, clock(fuel), tree);
            match child_named(tree(dir), w.path.segments[at as int]) {
                None => {},
                Some(e) => {
                    if !(w.goal.needs_dirs() && !e.is_dir) {
                        law_walk_ends_where_the_path_leads(
                            d,
                            sid,
                            clock,
                            deeper(here, e.handle),
                            tree,
                            (fuel - 1) as nat,
                        );
                    }
                },
            }
        },
        _ => {},
    }
}

/// Going on from an answered listing is one round of the whole walk.
pub proof fn law_answered_listing_goes_on(
    c: CacheView,
    sid: u32,
    now: u64,
    w: WalkView,
    tree: Tree,
)
    requires
        coherent(c, sid, tree),
        w.at < w.upto(),
    ensures
        descend_from(c, sid, now, w, tree(w.cur)) == match child_named(
            tree(w.cur),
            w.path.segments[w.at as int],
        ) {
            None => DescentView::Missing { dir: w.cur, at: w.at },
            Some(e) => if w.goal.needs_dirs() && !e.is_dir {
                DescentView::NotDir { at: w.at }
            } else {
                descend(c, sid, now, deeper(w, e.handle))
            },
        },
{
}

// ---------------------------------------------------------------------------
// Failures
// ---------------------------------------------------------------------------

/// A device call that fails ends the operation with the error of that call, and
/// the session knows no more and no less than before.
pub proof fn law_failed_call_ends_the_operation(
    v: SessionView,
    now: u64,
    e: ErrorView,
    list: AfterListView,
    info: AfterInfoView,
    create: AfterCreateView,
    delete: AfterDeleteView,
    rename: AfterRename,
    moving: AfterMoveView,
)
    requires
        !(delete is Discard),
    ensures
        listed_plan(v, now, list, Err(e)) == fail(e),
        listed_session(v, now, list, Err(e)) == v,
        informed_plan(info, Err(e)) == fail(e),
        created_plan(v, create, Err(e)) == fail(e),
        created_session(v, create, Err(e)) == v,
        deleted_plan(v, now, delete, Err(e)) == fail(e),
        deleted_session(v, delete, Err(e)) == v,
        renamed_plan(v, rename, Err(e)) == fail(e),
        renamed_session(v, rename, Err(e)) == v,
        moved_plan(v, moving, Err(e)) == fail(e),
        moved_session(v, moving, Err(e)) == v,
{
}

/// An upload succeeds only when every byte arrived. Otherwise what it left on
/// the device is deleted, and the operation fails whether or not that works.
pub proof fn law_incomplete_upload_is_removed(
    v: SessionView,
    now: u64,
    after: AfterUpload,
    r: Uploaded,
    cleanup: std::result::Result<(), ErrorView>,
)
    requires
        after.storage < v.storages.len(),
    ensures
        match r {
            Uploaded::Stored { handle, sent } => if sent == after.size {
                uploaded_plan(v, after, r) == (Plan::Info {
                    storage: after.storage,
                    handle,
                    after: AfterInfoView::Entry,
                })
            } else {
                &&& uploaded_plan(v, after, r) matches Plan::Delete { handle: h, after: then_fail, .. }
                &&& h == handle
                &&& deleted_plan(v, now, then_fail, cleanup) matches Plan::Done(Err(_))
            },
            Uploaded::Failed { error, partial } => match partial {
                Some(handle) => {
                    &&& uploaded_plan(v, after, r) matches Plan::Delete {
                        handle: h,
                        after: then_fail,
                        ..
                    }
                    &&& h == handle
                    &&& deleted_plan(v, now, then_fail, cleanup) == fail(error@)
                },
                None => uploaded_plan(v, after, r) == fail(error@),
            },
        },
{
}

/// Without `recursive` no directory is deleted: a file is deleted, or the
/// operation fails. The root of a storage is never deleted.
pub proof fn law_remove_spares_directories(
    v: SessionView,
    now: u64,
    w: WalkView,
    dir: u64,
    e: Entry,
    raw: Seq<char>,
    recursive: bool,
)
    requires
        w.goal == (GoalView::Remove { recursive: false }),
    ensures
        e.is_dir ==> picked(v, now, w, dir, e) matches Plan::Done(Err(ErrorView::WrongKind(_))),
        !e.is_dir ==> picked(v, now, w, dir, e) == (Plan::Delete {
            storage: w.storage,
            handle: e.handle,
            after: AfterDeleteView::File { storage: w.storage, parent: dir },
        }),
        parsed(raw) matches Ok(p) && p.segments.len() == 0 ==> remove_plan(
            v,
            now,
            raw,
            recursive,
        ) is Done,
{
}

// ---------------------------------------------------------------------------
// Changes
// ---------------------------------------------------------------------------

/// True when two states of a storage differ in the directories `a` and `b` at
/// most.
pub open spec fn differ_in(old_tree: Tree, new_tree: Tree, a: u64, b: u64) -> bool {
    forall|dir: u64| dir != a && dir != b ==> #[trigger] new_tree(dir) == old_tree(dir)
}

proof fn lemma_dropped_agrees(c: CacheView, sid: u32, a: u64, b: u64, before: Tree, now: Tree)
    requires
        coherent(c, sid, before),
        differ_in(before, now, a, b),
    ensures
        coherent(dropped(dropped(c, sid, a), sid, b), sid, now),
{
    let d = dropped(dropped(c, sid, a), sid, b);
    if d.contains_key(sid) {
        assert forall|dir: u64| #[trigger] d[sid].listings.contains_key(dir) implies d[sid].listings[dir].children
            == now(dir) by {
            assert(c[sid].listings.contains_key(dir));
            assert(now(dir) == before(dir));
        }
    }
}

proof fn lemma_dropped_twice(c: CacheView, sid: u32, a: u64)
    ensures
        dropped(dropped(c, sid, a), sid, a) == dropped(c, sid, a),
{
    let d = dropped(c, sid, a);
    if c.contains_key(sid) {
        assert(d[sid].listings.remove(a) =~= d[sid].listings);
        assert(dropped(d, sid, a) =~= d);
    }
}

/// After every change the cache agrees with the device again. A new directory
/// changes its parent; a deleted file its directory; a deleted directory itself
/// and the one that held it; a rename its directory; a move both directories; an
/// upload its parent.
pub proof fn law_changes_are_seen_at_once(
    v: SessionView,
    before: Tree,
    now: Tree,
    handle: u64,
    create: AfterCreateView,
    delete: AfterDeleteView,
    rename: AfterRename,
    moving: AfterMoveView,
    upload: AfterUpload,
    r: Uploaded,
)
    ensures
        ({
            let (s, parent) = created_in(create);
            s < v.storages.len() && coherent(v.cache, v.id(s), before) && differ_in(
                before,
                now,
                parent,
                parent,
            ) ==> coherent(created_session(v, create, Ok(handle)).cache, v.id(s), now)
        }),
        delete matches AfterDeleteView::File { storage, parent } ==> (storage < v.storages.len()
            && coherent(v.cache, v.id(storage), before) && differ_in(before, now, parent, parent)
            ==> coherent(deleted_session(v, delete, Ok(())).cache, v.id(storage), now)),
        delete matches AfterDeleteView::Child(t) ==> (t.storage < v.storages.len() && t.stack.len()
            > 0 && coherent(v.cache, v.id(t.storage), before) && differ_in(
            before,
            now,
            t.stack.last().dir,
            t.stack.last().dir,
        ) ==> coherent(deleted_session(v, delete, Ok(())).cache, v.id(t.storage), now)),
        delete matches AfterDeleteView::Dir(t) ==> (t.storage < v.storages.len() && t.stack.len()
            > 0 && coherent(v.cache, v.id(t.storage), before) && differ_in(
            before,
            now,
            t.stack.last().dir,
            holder(t),
        ) ==> coherent(deleted_session(v, delete, Ok(())).cache, v.id(t.storage), now)),
        ({
            let (s, parent) = match rename {
                AfterRename::Reply { storage, parent, .. } => (storage, parent),
                AfterRename::Done { storage, parent } => (storage, parent),
            };
            s < v.storages.len() && coherent(v.cache, v.id(s), before) && differ_in(
                before,
                now,
                parent,
                parent,
            ) ==> coherent(renamed_session(v, rename, Ok(())).cache, v.id(s), now)
        }),
        ({
            let (s, from, to) = moved_between(moving);
            s < v.storages.len() && coherent(v.cache, v.id(s), before) && differ_in(
                before,
                now,
                from,
                to,
            ) ==> coherent(moved_session(v, moving, Ok(())).cache, v.id(s), now)
        }),
        r is Stored && upload.storage < v.storages.len() && coherent(
            v.cache,
            v.id(upload.storage),
            before,
        ) && differ_in(before, now, upload.parent, upload.parent) ==> coherent(
            uploaded_session(v, upload, r).cache,
            v.id(upload.storage),
            now,
        ),
{
    {
        let (s, parent) = created_in(create);
        if s < v.storages.len() && coherent(v.cache, v.id(s), before) && differ_in(
            before,
            now,
            parent,
            parent,
        ) {
            lemma_dropped_agrees(v.cache, v.id(s), parent, parent, before, now);
            lemma_dropped_twice(v.cache, v.id(s), parent);
        }
    }
    match delete {
        AfterDeleteView::File { storage, parent } => {
            if storage < v.storages.len() && coherent(v.cache, v.id(storage), before) && differ_in(
                before,
                now,
                parent,
                parent,
            ) {
                lemma_dropped_agrees(v.cache, v.id(storage), parent, parent, before, now);
                lemma_dropped_twice(v.cache, v.id(storage), parent);
            }
        },
        AfterDeleteView::Child(t) => {
            let d = t.stack.last().dir;
            if t.storage < v.storages.len() && t.stack.len() > 0 && coherent(
                v.cache,
                v.id(t.storage),
                before,
            ) && differ_in(before, now, d, d) {
                lemma_dropped_agrees(v.cache, v.id(t.storage), d, d, before, now);
                lemma_dropped_twice(v.cache, v.id(t.storage), d);
            }
        },
        AfterDeleteView::Dir(t) => {
            let d = t.stack.last().dir;
            if t.storage < v.storages.len() && t.stack.len() > 0 && coherent(
                v.cache,
                v.id(t.storage),
                before,
            ) && differ_in(before, now, d, holder(t)) {
                lemma_dropped_agrees(v.cache, v.id(t.storage), d, holder(t), before, now);
            }
        },
        _ => {},
    }
    {
        let (s, parent) = match rename {
            AfterRename::Reply { storage, parent, .. } => (storage, parent),
            AfterRename::Done { storage, parent } => (storage, parent),
        };
        if s < v.storages.len() && coherent(v.cache, v.id(s), before) && differ_in(
            before,
            now,
            parent,
            parent,
        ) {
            lemma_dropped_agrees(v.cache, v.id(s), parent, parent, before, now);
            lemma_dropped_twice(v.cache, v.id(s), parent);
        }
    }
    {
        let (s, from, to) = moved_between(moving);
        if s < v.storages.len() && coherent(v.cache, v.id(s), before) && differ_in(
            before,
            now,
            from,
            to,
        ) {
            lemma_dropped_agrees(v.cache, v.id(s), from, to, before, now);
        }
    }
    if r is Stored && upload.storage < v.storages.len() && coherent(
        v.cache,
        v.id(upload.storage),
        before,
    ) && differ_in(before, now, upload.parent, upload.parent) {
        lemma_dropped_agrees(
            v.cache,
            v.id(upload.storage),
            upload.parent,
            upload.parent,
            before,
            now,
        );
        lemma_dropped_twice(v.cache, v.id(upload.storage), upload.parent);
    }
}

/// After the deletion of an object that is known by its handle alone, the cache
/// agrees with the device again, whether it knew the directory of the object or
/// not.
pub proof fn law_deletion_by_handle_is_seen_at_once(
    v: SessionView,
    storage: usize,
    handle: u64,
    dir: u64,
    before: Tree,
    now: Tree,
)
    requires
        storage < v.storages.len(),
        coherent(v.cache, v.id(storage), before),
        differ_in(before, now, dir, dir),
        known_parent(v.cache, v.id(storage), handle) is None || known_parent(
            v.cache,
            v.id(storage),
            handle,
        ) == Some(dir),
    ensures
        coherent(
            deleted_session(v, AfterDeleteView::Handle { storage, handle }, Ok(())).cache,
            v.id(storage),
            now,
        ),
{
    let c = v.cache;
    let sid = v.id(storage);
    match known_parent(c, sid, handle) {
        None => {},
        Some(p) => {
            let d = dropped(c, sid, p);
            assert forall|x: u64| #[trigger] d[sid].listings.contains_key(x) implies d[sid].listings[x].children
                == now(x) by {
                assert(c[sid].listings.contains_key(x));
                assert(now(x) == before(x));
            }
        },
    }
}

// ---------------------------------------------------------------------------
// Deleting a tree
// ---------------------------------------------------------------------------

/// The handles of the entries from `i` on and of everything below them, in the
/// order of a deletion that empties each directory before it deletes it. `rank`
/// gives the height of each directory; `r` is the one of the directory at hand.
pub open spec fn doomed(tree: Tree, rank: spec_fn(u64) -> nat, r: nat, entries: Seq<Entry>, i: nat) -> Seq<
    u64,
>
    decreases r, entries.len() - i,
{
    if i >= entries.len() {
        Seq::empty()
    } else {
        let e = entries[i as int];
        let head = if e.is_dir {
            if rank(e.handle) < r {
                doomed(tree, rank, rank(e.handle), tree(e.handle), 0).push(e.handle)
            } else {
                Seq::empty()
            }
        } else {
            seq![e.handle]
        };
        head + doomed(tree, rank, r, entries, i + 1)
    }
}

/// Everything in the directory `dir`, and then the directory itself.
pub open spec fn post_order(tree: Tree, rank: spec_fn(u64) -> nat, dir: u64) -> Seq<u64> {
    doomed(tree, rank, rank(dir), tree(dir), 0).push(dir)
}

/// What a deletion has yet to delete, in order.
pub open spec fn remaining(tree: Tree, rank: spec_fn(u64) -> nat, stack: Seq<FrameView>) -> Seq<u64>
    decreases stack.len(),
{
    if stack.len() == 0 {
        Seq::empty()
    } else {
        let top = stack.last();
        doomed(tree, rank, rank(top.dir), top.entries, top.next).push(top.dir) + remaining(
            tree,
            rank,
            stack.drop_last(),
        )
    }
}

/// True when the directories of a storage lie below each other without a circle.
pub open spec fn ranked(tree: Tree, rank: spec_fn(u64) -> nat) -> bool {
    forall|dir: u64, i: int|
        0 <= i < tree(dir).len() && (#[trigger] tree(dir)[i]).is_dir ==> rank(tree(dir)[i].handle)
            < rank(dir)
}

/// True when every listing on the stack is the one of its directory.
pub open spec fn stack_agrees(tree: Tree, stack: Seq<FrameView>) -> bool {
    forall|i: int| 0 <= i < stack.len() ==> (#[trigger] stack[i]).entries == tree(stack[i].dir)
}

/// A recursive deletion starts with everything in the directory, and then the
/// directory itself, to delete.
pub proof fn law_deletion_starts_with_the_whole_tree(
    tree: Tree,
    rank: spec_fn(u64) -> nat,
    t: TreeView,
    dir: u64,
)
    requires
        t.stack.len() == 0,
    ensures
        remaining(tree, rank, entered(t, dir, tree(dir)).stack) == post_order(tree, rank, dir),
{
    let s = entered(t, dir, tree(dir)).stack;
    assert(s.drop_last() =~= t.stack);
    assert(remaining(tree, rank, s.drop_last()) =~= Seq::empty());
    assert(remaining(tree, rank, s) =~= post_order(tree, rank, dir));
}

/// Each step of a recursive deletion deletes the first object of those that
/// remain, or goes down into a directory without changing what remains; it ends
/// when nothing remains. So the objects go in the order of [`post_order`]:
/// the contents of a directory before the directory, and nothing else.
pub proof fn law_deletion_goes_contents_first(
    v: SessionView,
    now: u64,
    t: TreeView,
    tree: Tree,
    rank: spec_fn(u64) -> nat,
)
    requires
        coherent(v.cache, v.id(t.storage), tree),
        ranked(tree, rank),
        stack_agrees(tree, t.stack),
    ensures
        match advance(v, now, t) {
            Plan::Delete { handle, after: AfterDeleteView::Child(u), .. } => {
                &&& remaining(tree, rank, t.stack) == seq![handle] + remaining(
                    tree,
                    rank,
                    left_file(u).stack,
                )
                &&& stack_agrees(tree, left_file(u).stack)
            },
            Plan::Delete { handle, after: AfterDeleteView::Dir(u), .. } => {
                &&& remaining(tree, rank, t.stack) == seq![handle] + remaining(
                    tree,
                    rank,
                    left_dir(u).stack,
                )
                &&& stack_agrees(tree, left_dir(u).stack)
            },
            Plan::Again(u) => {
                &&& remaining(tree, rank, t.stack) == remaining(tree, rank, u.stack)
                &&& stack_agrees(tree, u.stack)
            },
            Plan::List { after: AfterListView::Tree { tree: u, dir }, .. } => {
                &&& remaining(tree, rank, t.stack) == remaining(
                    tree,
                    rank,
                    entered(u, dir, tree(dir)).stack,
                )
                &&& stack_agrees(tree, entered(u, dir, tree(dir)).stack)
            },
            p => p is Done && remaining(tree, rank, t.stack) == Seq::<u64>::empty(),
        },
{
    if t.stack.len() > 0 {
        let top = t.stack.last();
        let below = t.stack.drop_last();
        let rest = remaining(tree, rank, below);
        assert(top.entries == tree(top.dir));
        if top.next >= top.entries.len() {
            assert(doomed(tree, rank, rank(top.dir), top.entries, top.next) =~= Seq::empty());
            assert(left_dir(t).stack =~= below);
            assert(remaining(tree, rank, t.stack) =~= seq![top.dir] + rest);
        } else {
            let e = top.entries[top.next as int];
            let u = past_entry(t);
            let next = u.stack.last();
            assert(u.stack.drop_last() =~= below);
            let later = doomed(tree, rank, rank(top.dir), top.entries, top.next + 1);
            assert(remaining(tree, rank, u.stack) =~= later.push(top.dir) + rest);
            assert(stack_agrees(tree, u.stack)) by {
                assert forall|i: int| 0 <= i < u.stack.len() implies (
                #[trigger] u.stack[i]).entries == tree(u.stack[i].dir) by {
                    if i < below.len() {
                        assert(u.stack[i] == t.stack[i]);
                    }
                }
            }
            if e.is_dir {
                assert(tree(top.dir)[top.next as int].is_dir);
                assert(rank(e.handle) < rank(top.dir));
                let inner = doomed(tree, rank, rank(e.handle), tree(e.handle), 0).push(e.handle);
                let w = entered(u, e.handle, tree(e.handle));
                assert(w.stack.drop_last() =~= u.stack);
                assert(remaining(tree, rank, w.stack) =~= inner + remaining(tree, rank, u.stack));
                assert(remaining(tree, rank, t.stack) =~= (inner + later).push(top.dir) + rest);
                assert(remaining(tree, rank, t.stack) =~= remaining(tree, rank, w.stack));
                assert(stack_agrees(tree, w.stack)) by {
                    assert forall|i: int| 0 <= i < w.stack.len() implies (
                    #[trigger] w.stack[i]).entries == tree(w.stack[i].dir) by {
                        if i < u.stack.len() {
                            assert(w.stack[i] == u.stack[i]);
                        }
                    }
                }
                match fresh_listing(v.cache, v.id(t.storage), e.handle, now) {
                    Some(children) => {
                        assert(children == tree(e.handle));
                    },
                    None => {},
                }
            } else {
                assert(remaining(tree, rank, t.stack) =~= (seq![e.handle] + later).push(top.dir)
                    + rest);
                assert(remaining(tree, rank, t.stack) =~= seq![e.handle] + remaining(
                    tree,
                    rank,
                    u.stack,
                ));
            }
        }
    }
}

/// Each step of a recursive deletion leaves the sum of what is counted and of
/// what remains as it is; and the reply, when nothing remains, is the count. (The
/// counter holds up to 2^32 objects.)
pub proof fn law_deletion_counts_each_object(
    v: SessionView,
    now: u64,
    t: TreeView,
    tree: Tree,
    rank: spec_fn(u64) -> nat,
)
    requires
        coherent(v.cache, v.id(t.storage), tree),
        ranked(tree, rank),
        stack_agrees(tree, t.stack),
        t.count + remaining(tree, rank, t.stack).len() <= u32::MAX,
    ensures
        ({
            let sum = t.count + remaining(tree, rank, t.stack).len();
            match advance(v, now, t) {
                Plan::Delete { after: AfterDeleteView::Child(u), .. } => {
                    let w = left_file(u);
                    w.count == t.count + 1 && w.count + remaining(tree, rank, w.stack).len() == sum
                },
                Plan::Delete { after: AfterDeleteView::Dir(u), .. } => {
                    let w = left_dir(u);
                    w.count == t.count + 1 && w.count + remaining(tree, rank, w.stack).len() == sum
                },
                Plan::Again(u) => u.count + remaining(tree, rank, u.stack).len() == sum,
                Plan::List { after: AfterListView::Tree { tree: u, dir }, .. } => {
                    let w = entered(u, dir, tree(dir));
                    w.count + remaining(tree, rank, w.stack).len() == sum
                },
                p => p == Plan::Done(Ok(ReplyView::Count(sum as u32))),
            }
        }),
{
    law_deletion_goes_contents_first(v, now, t, tree, rank);
}

/// A deletion with the objects that went.
pub struct Removal {
    /// The session.
    pub v: SessionView,
    /// Its next step.
    pub plan: Plan,
    /// The objects that were deleted, in order.
    pub gone: Seq<u64>,
}

/// A recursive deletion on a device that deletes what it is told to, and that
/// lists each directory below as it was when the deletion began: at most `fuel`
/// steps, the one before the last `n` of them at the time `clock(n)`.
pub open spec fn removal_run(
    m: Removal,
    tree: Tree,
    clock: spec_fn(nat) -> u64,
    fuel: nat,
) -> Removal
    decreases fuel,
{
    if fuel == 0 || m.plan is Done {
        m
    } else {
        let left = (fuel - 1) as nat;
        let now = clock(left);
        let next = match m.plan {
            Plan::Delete { handle, after, .. } => Removal {
                v: deleted_session(m.v, after, Ok(())),
                plan: deleted_plan(m.v, now, after, Ok(())),
                gone: m.gone.push(handle),
            },
            Plan::List { dir, after, .. } => Removal {
                v: listed_session(m.v, now, after, Ok(tree(dir))),
                plan: listed_plan(m.v, now, after, Ok(tree(dir))),
                ..m
            },
            Plan::Again(t) => Removal { plan: advance(m.v, now, t), ..m },
            _ => m,
        };
        removal_run(next, tree, clock, left)
    }
}

/// Whatever the cache loses, what is left of it still agrees.
pub proof fn lemma_dropped_keeps_agreeing(c: CacheView, sid: u32, dir: u64, tree: Tree)
    requires
        coherent(c, sid, tree),
    ensures
        coherent(dropped(c, sid, dir), sid, tree),
{
    lemma_dropped_twice(c, sid, dir);
    lemma_dropped_agrees(c, sid, dir, dir, tree, tree);
}

pub proof fn lemma_stack_remains(tree: Tree, rank: spec_fn(u64) -> nat, stack: Seq<FrameView>)
    ensures
        remaining(tree, rank, stack).len() >= stack.len(),
    decreases stack.len(),
{
    if stack.len() > 0 {
        lemma_stack_remains(tree, rank, stack.drop_last());
    }
}

proof fn lemma_removal(
    m: Removal,
    t: TreeView,
    now: u64,
    tree: Tree,
    rank: spec_fn(u64) -> nat,
    clock: spec_fn(nat) -> u64,
    fuel: nat,
)
    requires
        m.plan == advance(m.v, now, t),
        t.storage < m.v.storages.len(),
        coherent(m.v.cache, m.v.id(t.storage), tree),
        ranked(tree, rank),
        stack_agrees(tree, t.stack),
        t.count + remaining(tree, rank, t.stack).len() <= u32::MAX,
        fuel + t.stack.len() >= 2 * remaining(tree, rank, t.stack).len(),
    ensures
        ({
            let end = removal_run(m, tree, clock, fuel);
            let rest = remaining(tree, rank, t.stack);
            &&& end.gone == m.gone + rest
            &&& end.plan == Plan::Done(Ok(ReplyView::Count((t.count + rest.len()) as u32)))
        }),
    decreases fuel,
{
    let rest = remaining(tree, rank, t.stack);
    law_deletion_goes_contents_first(m.v, now, t, tree, rank);
    law_deletion_counts_each_object(m.v, now, t, tree, rank);
    lemma_stack_remains(tree, rank, t.stack);
    if t.stack.len() == 0 {
        assert(m.gone + rest =~= m.gone);
        assert(removal_run(m, tree, clock, fuel) == m);
    } else {
        let left = (fuel - 1) as nat;
        let then = clock(left);
        let sid = m.v.id(t.storage);
        match m.plan {
            Plan::Delete { handle, after, .. } => {
                let u = match after {
                    AfterDeleteView::Child(u) => left_file(u),
                    AfterDeleteView::Dir(u) => left_dir(u),
                    _ => t,
                };
                let next = Removal {
                    v: deleted_session(m.v, after, Ok(())),
                    plan: deleted_plan(m.v, then, after, Ok(())),
                    gone: m.gone.push(handle),
                };
                assert(removal_run(m, tree, clock, fuel) == removal_run(next, tree, clock, left));
                match after {
                    AfterDeleteView::Child(x) => {
                        lemma_dropped_keeps_agreeing(m.v.cache, sid, x.stack.last().dir, tree);
                    },
                    AfterDeleteView::Dir(x) => {
                        let c = dropped(m.v.cache, sid, x.stack.last().dir);
                        lemma_dropped_keeps_agreeing(m.v.cache, sid, x.stack.last().dir, tree);
                        lemma_dropped_keeps_agreeing(c, sid, holder(x), tree);
                    },
                    _ => {},
                }
                lemma_removal(next, u, then, tree, rank, clock, left);
                assert(next.gone + remaining(tree, rank, u.stack) =~= m.gone + rest);
            },
            Plan::List { dir, after, .. } => {
                let next = Removal {
                    v: listed_session(m.v, then, after, Ok(tree(dir))),
                    plan: listed_plan(m.v, then, after, Ok(tree(dir))),
                    ..m
                };
                assert(removal_run(m, tree, clock, fuel) == removal_run(next, tree, clock, left));
                law_stored_listing_agrees(m.v.cache, sid, dir, then, tree);
                if let AfterListView::Tree { tree: u, .. } = after {
                    lemma_removal(next, entered(u, dir, tree(dir)), then, tree, rank, clock, left);
                }
            },
            Plan::Again(u) => {
                let next = Removal { plan: advance(m.v, then, u), ..m };
                assert(removal_run(m, tree, clock, fuel) == removal_run(next, tree, clock, left));
                lemma_removal(next, u, then, tree, rank, clock, left);
            },
            _ => {},
        }
    }
}

/// A recursive deletion deletes everything in the directory and then the
/// directory itself, each object once and in the order of [`post_order`], and
/// replies with the number of the objects that went. (The counter holds up to
/// 2^32 objects.)
pub proof fn law_removal_replies_with_the_count(
    v: SessionView,
    storage: usize,
    parent: u64,
    dir: u64,
    now: u64,
    tree: Tree,
    rank: spec_fn(u64) -> nat,
    clock: spec_fn(nat) -> u64,
    fuel: nat,
)
    requires
        storage < v.storages.len(),
        coherent(v.cache, v.id(storage), tree),
        ranked(tree, rank),
        post_order(tree, rank, dir).len() <= u32::MAX,
        fuel >= 2 * post_order(tree, rank, dir).len(),
    ensures
        ({
            let t = TreeView { storage, parent, stack: Seq::empty(), count: 0 };
            let all = post_order(tree, rank, dir);
            let m = Removal { v, plan: enter(v, now, t, dir), gone: Seq::empty() };
            let end = removal_run(m, tree, clock, fuel);
            &&& end.gone == all
            &&& end.plan == Plan::Done(Ok(ReplyView::Count(all.len() as u32)))
        }),
{
    let t = TreeView { storage, parent, stack: Seq::empty(), count: 0 };
    let all = post_order(tree, rank, dir);
    let m = Removal { v, plan: enter(v, now, t, dir), gone: Seq::empty() };
    let u = entered(t, dir, tree(dir));
    law_deletion_starts_with_the_whole_tree(tree, rank, t, dir);
    assert(m.gone + all =~= all);
    let left = (fuel - 1) as nat;
    let then = clock(left);
    match m.plan {
        Plan::List { after, .. } => {
            let next = Removal {
                v: listed_session(v, then, after, Ok(tree(dir))),
                plan: listed_plan(v, then, after, Ok(tree(dir))),
                ..m
            };
            assert(removal_run(m, tree, clock, fuel) == removal_run(next, tree, clock, left));
            law_stored_listing_agrees(v.cache, v.id(storage), dir, then, tree);
            lemma_removal(next, u, then, tree, rank, clock, left);
        },
        _ => {
            let next = Removal { plan: advance(v, then, u), ..m };
            assert(removal_run(m, tree, clock, fuel) == removal_run(next, tree, clock, left));
            lemma_removal(next, u, then, tree, rank, clock, left);
        },
    }
}

// ---------------------------------------------------------------------------
// Making directories
// ---------------------------------------------------------------------------

proof fn lemma_child_is_listed(children: Seq<Entry>, name: Seq<char>) -> (i: int)
    requires
        child_named(children, name) is Some,
    ensures
        0 <= i < children.len(),
        children[i] == child_named(children, name)->0,
    decreases children.len(),
{
    if same_name_ci(children.first().name@, name) {
        0
    } else {
        let j = lemma_child_is_listed(children.drop_first(), name);
        j + 1
    }
}

proof fn lemma_walk_goes_down(tree: Tree, rank: spec_fn(u64) -> nat, w: WalkView, dir: u64, at: nat)
    requires
        w.goal.needs_dirs(),
        ranked(tree, rank),
        lookup(tree, w) == (DescentView::Missing { dir, at }),
    ensures
        w.at <= at < w.upto(),
        rank(dir) <= rank(w.cur),
        at > w.at ==> rank(dir) < rank(w.cur),
    decreases w.upto() - w.at,
{
    match child_named(tree(w.cur), w.path.segments[w.at as int]) {
        None => {},
        Some(e) => {
            let i = lemma_child_is_listed(tree(w.cur), w.path.segments[w.at as int]);
            assert(tree(w.cur)[i].is_dir);
            lemma_walk_goes_down(tree, rank, deeper(w, e.handle), dir, at);
        },
    }
}

proof fn lemma_made_directory(
    before: Tree,
    now: Tree,
    rank: spec_fn(u64) -> nat,
    w: WalkView,
    dir: u64,
    at: nat,
    made: Entry,
)
    requires
        w.goal.needs_dirs(),
        ranked(before, rank),
        lookup(before, w) == (DescentView::Missing { dir, at }),
        differ_in(before, now, dir, dir),
        child_named(now(dir), w.path.segments[at as int]) == Some(made),
        made.is_dir,
    ensures
        lookup(now, w) == lookup(now, WalkView { cur: made.handle, at: at + 1, ..w }),
        at < w.upto(),
    decreases w.upto() - w.at,
{
    lemma_walk_goes_down(before, rank, w, dir, at);
    match child_named(before(w.cur), w.path.segments[w.at as int]) {
        None => {},
        Some(e) => {
            let i = lemma_child_is_listed(before(w.cur), w.path.segments[w.at as int]);
            assert(before(w.cur)[i].is_dir);
            lemma_walk_goes_down(before, rank, deeper(w, e.handle), dir, at);
            assert(now(w.cur) == before(w.cur));
            lemma_made_directory(before, now, rank, deeper(w, e.handle), dir, at, made);
        },
    }
}

/// The directories of a path are made one inside the other, each exactly where
/// the path comes to nothing, until all of the path is there: then it leads to
/// the directory that is replied with. `now` is the device after the directory
/// `made` was made in `dir`.
pub proof fn law_made_directories_complete_the_path(
    v: SessionView,
    before: Tree,
    now: Tree,
    rank: spec_fn(u64) -> nat,
    w: WalkView,
    dir: u64,
    at: nat,
    made: Entry,
)
    requires
        w.goal is Mkdir,
        w.storage < v.storages.len(),
        ranked(before, rank),
        lookup(before, w) == (DescentView::Missing { dir, at }),
        differ_in(before, now, dir, dir),
        child_named(now(dir), w.path.segments[at as int]) == Some(made),
        made.is_dir,
        now(made.handle).len() == 0,
    ensures
        missing(w, dir, at) matches Plan::CreateFolder { parent, name, after, .. } && parent == dir
            && name == w.path.segments[at as int] && match created_plan(v, after, Ok(made.handle)) {
            Plan::CreateFolder { parent: p, name: n, after: next, .. } => {
                &&& lookup(now, w) == (DescentView::Missing { dir: made.handle, at: at + 1 })
                &&& p == made.handle
                &&& n == w.path.segments[(at + 1) as int]
                &&& next == (AfterCreateView::Path {
                    storage: w.storage,
                    path: w.path,
                    parent: made.handle,
                    at: at + 1,
                })
            },
            plan => {
                &&& lookup(now, w) == (DescentView::At { dir: made.handle })
                &&& plan == made_dir(made.handle, w.path)
            },
        },
{
    lemma_made_directory(before, now, rank, w, dir, at, made);
    if at + 1 < w.path.segments.len() {
        assert(child_named(now(made.handle), w.path.segments[(at + 1) as int]) is None);
    }
}

/// The summary of a device shows what the device tells of itself, each value as
/// what it is; what is empty is not known.
pub proof fn law_summary_shows_the_device(
    storages: Seq<StorageSummary>,
    manufacturer: Seq<char>,
    model: Seq<char>,
    serial: Seq<char>,
    version: Seq<char>,
)
    ensures
        ({
            let s = summary_of(storages, manufacturer, model, serial, version);
            &&& s.storages == storages
            &&& manufacturer.len() > 0 ==> s.manufacturer == Some(manufacturer)
            &&& model.len() > 0 ==> s.product == Some(model)
            &&& serial.len() > 0 ==> s.serial == Some(serial)
            &&& version.len() > 0 ==> s.firmware == Some(version)
            &&& manufacturer.len() == 0 ==> s.manufacturer is None
            &&& model.len() == 0 ==> s.product is None
            &&& serial.len() == 0 ==> s.serial is None
            &&& version.len() == 0 ==> s.firmware is None
            &&& s.speed is None
        }),
{
}

} // verus!
