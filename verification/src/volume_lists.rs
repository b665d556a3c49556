//! The pages of a directory, the storages in the root, and attributes that are
//! remembered.

use vstd::prelude::*;

use crate::dirlist::{page, sorted, ChildView};
use crate::ids::{
    kind_of, law_root_ids, Kind, DEVICE_ROOT_ID, HANDLE_BOUND, STORAGE_BASE_ID, VIRT_FLAG,
};
use crate::model::{Entry, StorageSummary};
use crate::names::same_name_ci;
use crate::nfs::NfsStat;
use crate::text::dec;
use crate::volume::{
    all_encodable, entry_children, full_listing, getattr_plan, informed_turn, lookup_plan,
    read_turn, readdir_plan, setattr_plan, stage_of, staged_children, staged_named, storage_at,
    storage_children, takes_changes, uploaded_turn, StageView, VolumeView,
};
use crate::volume_contents::{run, World};
use crate::volume_laws::{law_listing_shows_every_name, lemma_deduped_shows, lemma_sorted_contains};
use crate::volume_names::{
    is_shown, lemma_deduped_is_no_longer, lemma_one, lemma_sorted_len, lemma_stands_for,
    lemma_whole_page, stands_for,
};
use crate::volume_step::{DirEntryView, OnInfoView, OnReadView, VolPlan, VolReplyView};

verus! {

// ---------------------------------------------------------------------------
// Pages
// ---------------------------------------------------------------------------

/// A page of a directory is the part of the whole listing that it asks for: it
/// starts where it is told to, it has as many entries as were asked for while
/// there are that many, and it is said to be the last one exactly when nothing
/// comes after it.
pub proof fn law_page_is_a_part_of_the_listing(
    w: World,
    dirid: u64,
    storage: usize,
    dir: u64,
    start: u64,
    count: usize,
    max: usize,
    fuel: nat,
)
    requires
        w.v.attached,
        stands_for(dirid, storage, dir),
        w.dirs.contains_key((storage, dir)),
        forall|i: int|
            0 <= i < w.dirs[(storage, dir)].len() ==> (
            #[trigger] w.dirs[(storage, dir)][i]).handle < HANDLE_BOUND,
        max >= w.dirs[(storage, dir)].len() + w.v.staged.len(),
        fuel >= 1,
    ensures
        ({
            let (_, whole) = run(w, readdir_plan(w.v, dirid, 0, max), fuel);
            let (u, part) = run(w, readdir_plan(w.v, dirid, start, count), fuel);
            &&& u == w
            &&& whole matches VolPlan::Done(Ok(VolReplyView::Dir { entries: all, .. }))
            &&& part matches VolPlan::Done(Ok(VolReplyView::Dir { entries: some, end }))
            &&& start <= all.len() ==> {
                &&& start + some.len() <= all.len()
                &&& some == all.subrange(start as int, start + some.len())
                &&& some.len() <= count
                &&& some.len() < count ==> end
                &&& end <==> start + some.len() == all.len()
            }
            &&& start > all.len() ==> some.len() == 0 && end
        }),
{
    lemma_stands_for(dirid, storage, dir);
    let found = w.dirs[(storage, dir)];
    assert(all_encodable(storage, found));
    lemma_one(w, readdir_plan(w.v, dirid, 0, max), fuel);
    lemma_one(w, readdir_plan(w.v, dirid, start, count), fuel);
    lemma_whole_page(w.v, dirid, storage, found, max);
    let all = full_listing(w.v, dirid, entry_children(storage, found));
    let shown = all.map_values(|c: ChildView| crate::volume::dir_entry(w.v, c));
    let some = page(all, start, count as nat).map_values(
        |c: ChildView| crate::volume::dir_entry(w.v, c),
    );
    if start <= all.len() {
        assert(some =~= shown.subrange(start as int, start + some.len()));
    }
}

// ---------------------------------------------------------------------------
// The root
// ---------------------------------------------------------------------------

/// The root of the volume shows the storages: each has an entry with its name,
/// and each entry is a directory with the name and the id of a storage.
pub proof fn law_root_lists_the_storages(v: VolumeView, max: usize, i: int)
    requires
        v.storages.len() < VIRT_FLAG - STORAGE_BASE_ID,
        max >= v.storages.len(),
        forall|k: int|
            0 <= k < v.staged.len() ==> (#[trigger] v.staged[k]).parent_id != DEVICE_ROOT_ID,
        0 <= i < v.storages.len(),
    ensures
        ({
            let reply = readdir_plan(v, DEVICE_ROOT_ID, 0, max);
            &&& reply matches VolPlan::Done(Ok(VolReplyView::Dir { entries, end }))
            &&& end
            &&& is_shown(entries, v.storages[i].description@)
            &&& forall|k: int|
                0 <= k < entries.len() ==> shows_storage(#[trigger] entries[k], v.storages)
        }),
{
    law_root_ids(0);
    let children = storage_children(v.storages);
    lemma_nothing_staged(v.staged, DEVICE_ROOT_ID);
    let none = staged_children(v.staged, DEVICE_ROOT_ID);
    assert(none + children =~= children);
    let all = full_listing(v, DEVICE_ROOT_ID, children);
    lemma_deduped_is_no_longer(sorted(children));
    lemma_sorted_len(children);
    assert(page(all, 0, max as nat) =~= all);
    let entries = all.map_values(|c: ChildView| crate::volume::dir_entry(v, c));
    assert forall|k: int| 0 <= k < entries.len() implies shows_storage(
        #[trigger] entries[k],
        v.storages,
    ) by {
        assert(all.contains(all[k]));
        lemma_deduped_shows(sorted(children), all[k]);
        lemma_sorted_contains(children, all[k]);
        let j = choose|j: int| 0 <= j < children.len() && children[j] == all[k];
        assert(is_storage(entries[k], v.storages, j));
    }
    let c = children[i];
    assert(children.contains(c));
    law_listing_shows_every_name(children, c);
    let k = choose|k: int| 0 <= k < all.len() && same_name_ci(c.name, (#[trigger] all[k]).name);
    assert(entries[k].name == all[k].name);
}

proof fn lemma_nothing_staged(s: Seq<StageView>, dirid: u64)
    requires
        forall|k: int| 0 <= k < s.len() ==> (#[trigger] s[k]).parent_id != dirid,
    ensures
        staged_children(s, dirid).len() == 0,
    decreases s.len(),
{
    if s.len() > 0 {
        assert forall|k: int| 0 <= k < s.drop_last().len() implies (
        #[trigger] s.drop_last()[k]).parent_id != dirid by {
            assert(s.drop_last()[k] == s[k]);
        }
        assert(s[s.len() - 1].parent_id != dirid);
        lemma_nothing_staged(s.drop_last(), dirid);
    }
}

/// True when the entry shows the `j`th storage.
pub open spec fn is_storage(d: DirEntryView, storages: Seq<StorageSummary>, j: int) -> bool {
    &&& 0 <= j < storages.len()
    &&& d.name == storages[j].description@
    &&& d.fileid == 2 + j
    &&& d.attr.fileid == 2 + j
    &&& d.attr.is_dir
}

/// True when the entry shows a storage.
pub open spec fn shows_storage(d: DirEntryView, storages: Seq<StorageSummary>) -> bool {
    exists|j: int| is_storage(d, storages, j)
}

/// A storage is found in the root by its description, and by its position
/// counted from one; the first of several is taken. Its id is that of the root of
/// the storage, which is a directory as long as what is in use on it. Any other
/// name leads to nothing.
pub proof fn law_root_leads_to_the_storages(v: VolumeView, now: u64, name: Seq<char>, i: int)
    requires
        v.storages.len() < VIRT_FLAG - STORAGE_BASE_ID,
        v.storages.len() <= usize::MAX,
        staged_named(v.staged, DEVICE_ROOT_ID, name) is None,
        0 <= i <= v.storages.len(),
        forall|j: int|
            0 <= j < i ==> !same_name_ci((#[trigger] v.storages[j]).description@, name) && name
                != dec((j + 1) as nat),
    ensures
        i == v.storages.len() ==> lookup_plan(v, DEVICE_ROOT_ID, name) == VolPlan::Done(
            Err(NfsStat::Noent),
        ),
        i < v.storages.len() && (same_name_ci(v.storages[i].description@, name) || name == dec(
            (i + 1) as nat,
        )) ==> {
            let id = (2 + i) as u64;
            &&& lookup_plan(v, DEVICE_ROOT_ID, name) == VolPlan::Done(Ok(VolReplyView::Id(id)))
            &&& stage_of(v.staged, id) is None && v.storages[i].free <= v.storages[i].capacity ==> {
                &&& getattr_plan(v, now, id) matches VolPlan::Done(Ok(VolReplyView::Attr(a)))
                &&& a.is_dir
                &&& a.fileid == id
                &&& a.size == v.storages[i].capacity - v.storages[i].free
            }
        },
{
    law_root_ids(0);
    if i < v.storages.len() {
        law_root_ids(i as u64);
    }
    lemma_storage_at(v.storages, name, 0, i);
}

proof fn lemma_storage_at(storages: Seq<StorageSummary>, name: Seq<char>, from: nat, i: int)
    requires
        from <= i <= storages.len(),
        forall|j: int|
            from <= j < i ==> !same_name_ci((#[trigger] storages[j]).description@, name) && name
                != dec((j + 1) as nat),
    ensures
        storage_at(storages, name, from) == storage_at(storages, name, i as nat),
    decreases i - from,
{
    if from < i {
        assert(!same_name_ci(storages[from as int].description@, name));
        lemma_storage_at(storages, name, from + 1, i);
    }
}

// ---------------------------------------------------------------------------
// Attributes
// ---------------------------------------------------------------------------

/// The attributes of an object are those that the device tells. They are served
/// for two seconds without asking again, and asked for anew after that, of the
/// object that the id stands for.
pub proof fn law_attributes_are_those_of_the_device(
    v: VolumeView,
    now: u64,
    id: u64,
    e: Entry,
    later: u64,
)
    requires
        v.attached,
        stage_of(v.staged, id) is None,
        kind_of(id) matches Some(Kind::Real(_)),
        now <= later,
    ensures
        ({
            let (u, reply) = informed_turn(v, now, OnInfoView::Attr { id }, Ok(e));
            &&& reply matches VolPlan::Done(Ok(VolReplyView::Attr(a)))
            &&& a.is_dir == e.is_dir
            &&& a.size == e.size
            &&& a.fileid == id
            &&& later - now <= 2_000_000_000 ==> getattr_plan(u, later, id) == reply
            &&& later - now > 2_000_000_000 ==> asks_for(getattr_plan(u, later, id), id)
            &&& u.staged == v.staged
        }),
{
}

/// True when the plan asks the device for the object that the id stands for.
pub open spec fn asks_for(plan: VolPlan, id: u64) -> bool {
    match (plan, kind_of(id)) {
        (VolPlan::Info { storage, handle, .. }, Some(Kind::Real(d))) => storage == d.storage_index
            && handle == d.handle,
        _ => false,
    }
}

/// A request to change attributes that gives no size changes nothing: it is
/// answered with the attributes.
pub proof fn law_only_the_size_is_set(v: VolumeView, now: u64, id: u64)
    requires
        v.writable,
    ensures
        setattr_plan(v, now, id, None) == getattr_plan(v, now, id),
{
}

// ---------------------------------------------------------------------------
// Traffic
// ---------------------------------------------------------------------------

/// What is read from the device is counted, and handed on as it came; what is
/// sent to it is counted when it has arrived.
pub proof fn law_traffic_is_counted(
    v: VolumeView,
    now: u64,
    data: Seq<u8>,
    at: OnReadView,
    id: u64,
    storage: usize,
    size: u64,
    handle: u64,
)
    requires
        v.stats.rx + data.len() <= u64::MAX,
        v.stats.tx + size <= u64::MAX,
        data.len() > 0,
        at matches OnReadView::First { count, .. } ==> count == data.len(),
    ensures
        read_turn(v, at, Ok(data)).0.stats.rx == v.stats.rx + data.len(),
        read_turn(v, at, Ok(data)).0.stats.tx == v.stats.tx,
        hands_on(read_turn(v, at, Ok(data)).1, data),
        uploaded_turn(v, now, id, storage, size, Ok(handle)).0.stats.tx == v.stats.tx + size,
        uploaded_turn(v, now, id, storage, size, Ok(handle)).0.stats.rx == v.stats.rx,
{
}

/// True when the plan hands the bytes to the client, or to the staging file.
pub open spec fn hands_on(plan: VolPlan, data: Seq<u8>) -> bool {
    match plan {
        VolPlan::Done(Ok(VolReplyView::Data { bytes, .. })) => bytes == data,
        VolPlan::Store { data: bytes, .. } => bytes == data,
        _ => false,
    }
}

/// A device takes changes when one of its storages does, and when it shows none.
pub proof fn law_one_writable_storage_is_enough(storages: Seq<StorageSummary>, i: int)
    ensures
        0 <= i < storages.len() && storages[i].writable ==> takes_changes(storages),
        storages.len() == 0 ==> takes_changes(storages),
        storages.len() > 0 && (forall|k: int|
            0 <= k < storages.len() ==> !(#[trigger] storages[k]).writable) ==> !takes_changes(
            storages,
        ),
{
}

} // verus!
