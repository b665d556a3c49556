//! What holds of the volume across requests.

use vstd::prelude::*;

use crate::dirlist::{
    deduped, in_order, inserted, law_listing_is_sorted, law_neighbours_have_different_names,
    lemma_text_le, sort_key, sorted, text_le, ChildView,
};
use crate::error::ErrorView;
use crate::ids::{kind_of, law_virtual_ids_stay_apart, virtual_id, VIRT_FLAG};
use crate::model::Entry;
use crate::names::{law_same_name_ci, lowercase_of, same_name, same_name_ci};
use crate::nfs::{status_of, NfsStat};
use crate::session::child_named;
use crate::volume::{
    brand_new, commit_plan, deleted_turn, device_copy, dir_of, exclusive_turn, flushed_stage,
    full_listing, getattr_plan, informed_turn, lemma_with_stage, length_turn, listed_turn, mkdir_plan,
    new_file_turn, pull_more, pulled_stage, read_plan, remove_turn, rename_turn,
    renamed_turn, set_len_turn, setattr_plan, stage_attr, stage_for_writes, stage_new, stage_of,
    stage_place, staged_children, uploaded_turn, with_stage, without_stage, written_stage, written_turn, StageView,
    VolumeView, CHUNK,
};
use crate::volume_step::{
    NextView, OnDeleteView, OnInfoView, OnListView, OnNewFileView, PullView, Stability,
    VolPlan, VolReplyView,
};

verus! {

// ---------------------------------------------------------------------------
// Read-only volumes
// ---------------------------------------------------------------------------

/// A read-only volume refuses every change, and stays as it is.
pub proof fn law_read_only_volume_refuses_changes(
    v: VolumeView,
    now: u64,
    id: u64,
    to: u64,
    name: Seq<char>,
    to_name: Seq<char>,
    size: Option<u64>,
    next: NextView,
)
    requires
        !v.writable,
    ensures
        setattr_plan(v, now, id, size) == VolPlan::Done(Err(NfsStat::Rofs)),
        stage_for_writes(v, id, next) == VolPlan::Done(Err(NfsStat::Rofs)),
        stage_new(v, id, name, next) == (v, VolPlan::Done(Err(NfsStat::Rofs))),
        mkdir_plan(v, id, name) == VolPlan::Done(Err(NfsStat::Rofs)),
        remove_turn(v, id, name) == (v, VolPlan::Done(Err(NfsStat::Rofs))),
        rename_turn(v, id, name, to, to_name) == (v, VolPlan::Done(Err(NfsStat::Rofs))),
        commit_plan(v, now, id) == VolPlan::Done(Err(NfsStat::Rofs)),
{
}

/// On a read-only volume the creation of a file that must not exist fails
/// because it exists or because the volume is read-only, at once or when the
/// directory was listed.
pub proof fn law_read_only_volume_refuses_exclusive_creation(
    v: VolumeView,
    dirid: u64,
    name: Seq<char>,
    storage: usize,
    r: std::result::Result<Seq<Entry>, ErrorView>,
)
    requires
        !v.writable,
    ensures
        exclusive_turn(v, dirid, name).0 == v,
        match exclusive_turn(v, dirid, name).1 {
            VolPlan::Done(Err(s)) => s == NfsStat::Exist || s == NfsStat::Rofs,
            VolPlan::List { after, .. } => after is Exclusive,
            _ => false,
        },
        listed_turn(v, OnListView::Exclusive { storage, dirid, name }, r).0 == v,
        match listed_turn(v, OnListView::Exclusive { storage, dirid, name }, r).1 {
            VolPlan::Done(Err(s)) => s == NfsStat::Exist || s == NfsStat::Rofs,
            _ => false,
        },
{
}

// ---------------------------------------------------------------------------
// Writes
// ---------------------------------------------------------------------------

/// A client sees its own writes at once: after a write the file has the size
/// that the write gave it, is read from its stage, and no other staged file has
/// changed.
pub proof fn law_writes_are_seen_at_once(
    v: VolumeView,
    now: u64,
    id: u64,
    offset: u64,
    len: usize,
    at: u64,
    count: u32,
)
    requires
        stage_of(v.staged, id) is Some,
    ensures
        ({
            let s = stage_of(v.staged, id)->0;
            let w = written_turn(v, id, offset, len, true).0;
            &&& stage_of(w.staged, id) == Some(written_stage(s, offset, len as nat))
            &&& written_stage(s, offset, len as nat).dirty
            &&& getattr_plan(w, now, id) == VolPlan::Done(
                Ok(VolReplyView::Attr(stage_attr(w, written_stage(s, offset, len as nat)))),
            )
            &&& read_plan(w, id, at, count) == (VolPlan::ReadAt { id, offset: at, count })
            &&& forall|other: u64|
                other != id ==> #[trigger] stage_of(w.staged, other) == stage_of(v.staged, other)
        }),
{
    lemma_stage_has_its_id(v.staged, id);
    lemma_with_stage(v.staged, written_stage(stage_of(v.staged, id)->0, offset, len as nat));
}

/// No write claims to be durable before it is committed.
pub proof fn law_writes_are_unstable(v: VolumeView, id: u64, offset: u64, len: usize, ok: bool)
    ensures
        match written_turn(v, id, offset, len, ok).1 {
            VolPlan::Done(Ok(r)) => r matches VolReplyView::Written { stability, .. } && stability
                == Stability::Unstable,
            VolPlan::Done(Err(_)) => true,
            _ => false,
        },
{
}

/// A directory is never staged as a file.
pub proof fn law_directories_are_not_staged(
    v: VolumeView,
    now: u64,
    e: Entry,
    id: u64,
    storage: usize,
    handle: u64,
    dirid: u64,
    next: NextView,
)
    requires
        e.is_dir,
    ensures
        informed_turn(v, now, OnInfoView::Stage { id, storage, handle, next }, Ok(e)) == (
            v,
            VolPlan::Done(Err(NfsStat::Isdir)),
        ),
        informed_turn(v, now, OnInfoView::New { id, storage, handle, dirid, next }, Ok(e)) == (
            v,
            VolPlan::Done(Err(NfsStat::Exist)),
        ),
{
}

/// An object is staged only when all of it arrived; otherwise its staging file
/// is given up and the request fails.
pub proof fn law_only_complete_objects_are_staged(
    v: VolumeView,
    p: PullView,
    length: Option<u64>,
)
    ensures
        length == Some(p.size) ==> stage_of(length_turn(v, p, length).0.staged, p.id) == Some(
            pulled_stage(p),
        ),
        length != Some(p.size) ==> length_turn(v, p, length).0 == v && match length {
            Some(_) => length_turn(v, p, length).1 == (VolPlan::Discard { id: p.id, ok: false }),
            None => length_turn(v, p, length).1 == VolPlan::Done(Err(NfsStat::Io)),
        },
{
    lemma_with_stage(v.staged, pulled_stage(p));
}

/// The pieces of an object are asked for in order, none of them empty, none
/// larger than the limit and none beyond the end of the object.
pub proof fn law_pull_stays_in_bounds(v: VolumeView, p: PullView)
    ensures
        match pull_more(v, p) {
            VolPlan::Read { offset, count, storage, handle, .. } => {
                &&& offset == p.off
                &&& storage == p.storage
                &&& handle == p.handle
                &&& 1 <= count <= CHUNK
                &&& offset + count <= p.size
            },
            VolPlan::Length { pull } => pull == p && p.off >= p.size,
            plan => plan == VolPlan::Done(Err(NfsStat::Io)) && !v.attached,
        },
{
}

/// Creating a file that exists keeps its contents: the object is staged as it
/// is, with the size that the device gives.
pub proof fn law_create_keeps_contents(
    v: VolumeView,
    now: u64,
    storage: usize,
    dirid: u64,
    name: Seq<char>,
    next: NextView,
    children: Seq<Entry>,
    e: Entry,
)
    requires
        v.attached,
        !e.is_dir,
        child_named(children, name) is Some,
    ensures
        ({
            let (w, plan) = listed_turn(
                v,
                OnListView::New { storage, dirid, name, next },
                Ok(children),
            );
            match plan {
                VolPlan::Info { after, .. } => {
                    &&& w == v
                    &&& after matches OnInfoView::New { id, .. }
                    &&& stage_of(v.staged, id) is None ==> (informed_turn(v, now, after, Ok(e)).1
                        matches VolPlan::NewFile { after: OnNewFileView::Pull(p), .. } && p.size
                        == e.size)
                },
                VolPlan::Done(Err(s)) => w == v && s == NfsStat::Badhandle,
                _ => false,
            }
        }),
{
    let id_of = crate::volume::listed_id(storage, children, name);
    if id_of is Ok {
        let c = child_named(children, name)->0;
        crate::ids::law_real_id_round_trip(storage, c.handle);
    }
}

// ---------------------------------------------------------------------------
// Commits
// ---------------------------------------------------------------------------

/// Committing a file that is not staged, or was not changed since it was
/// flushed, asks nothing of the device beyond its attributes.
pub proof fn law_clean_commit_changes_nothing(v: VolumeView, now: u64, id: u64)
    requires
        v.writable,
        stage_of(v.staged, id) matches Some(s) ==> !s.dirty,
    ensures
        commit_plan(v, now, id) == getattr_plan(v, now, id),
        stage_of(v.staged, id) is Some ==> commit_plan(v, now, id) is Done,
{
}

/// The copies of a file that the device should hold, as its stage has it.
pub open spec fn copies_of(s: StageView) -> Set<u64> {
    match device_copy(s) {
        Some(h) => Set::empty().insert(h),
        None => Set::empty(),
    }
}

/// A commit neither duplicates nor orphans a copy. It deletes exactly the copy
/// that the stage stands for, uploads the staged contents, and binds the stage
/// to the new object; then the device holds the one copy that the stage stands
/// for, and committing again does nothing. That the deletion fails does not
/// matter where there was nothing left to delete; where the device refuses to
/// delete a copy that it has, it keeps that copy.
pub proof fn law_commit_keeps_one_copy(
    v: VolumeView,
    now: u64,
    id: u64,
    copies: Set<u64>,
    r: std::result::Result<(), ErrorView>,
    handle: u64,
)
    requires
        v.writable,
        v.attached,
        stage_of(v.staged, id) matches Some(s) && s.dirty && dir_of(s.parent_id) is Some
            && copies.subset_of(copies_of(s)),
        r is Err ==> copies == Set::<u64>::empty(),
    ensures
        ({
            let s = stage_of(v.staged, id)->0;
            let (storage, parent) = dir_of(s.parent_id)->0;
            let first = commit_plan(v, now, id);
            let upload = VolPlan::Upload { id, storage, parent, name: s.name, size: s.size };
            let w = uploaded_turn(v, now, id, storage, s.size, Ok(handle)).0;
            let t = flushed_stage(s, storage, handle, s.size);
            let replaced = match device_copy(s) {
                Some(old_copy) => {
                    &&& first matches VolPlan::Delete { handle: h, after, .. }
                    &&& h == old_copy
                    &&& deleted_turn(v, after, r) == (v, upload)
                    &&& copies.remove(old_copy).insert(handle) == copies_of(t)
                },
                None => first == upload && copies.insert(handle) == copies_of(t),
            };
            &&& replaced
            &&& stage_of(w.staged, id) == Some(t)
            &&& !t.dirty
            &&& commit_plan(w, now, id) == VolPlan::Done(
                Ok(VolReplyView::Attr(stage_attr(w, t))),
            )
        }),
{
    let s = stage_of(v.staged, id)->0;
    lemma_stage_has_its_id(v.staged, id);
    let (storage, parent) = dir_of(s.parent_id)->0;
    let t = flushed_stage(s, storage, handle, s.size);
    lemma_with_stage(v.staged, t);
    match device_copy(s) {
        Some(h) => {
            assert(copies.remove(h) =~= Set::empty());
        },
        None => {
            assert(copies =~= Set::empty());
        },
    }
}

/// An upload that fails leaves the stage as it is: the contents are still there,
/// and the next commit tries again.
pub proof fn law_failed_upload_keeps_the_stage(
    v: VolumeView,
    now: u64,
    id: u64,
    storage: usize,
    size: u64,
    e: ErrorView,
)
    ensures
        uploaded_turn(v, now, id, storage, size, Err(e)) == (
            v,
            VolPlan::Done(Err(status_of(e))),
        ),
{
}

/// A staged file is given up only after the device has dropped its copy: when
/// that fails, the stage stays.
pub proof fn law_failed_removal_keeps_the_stage(v: VolumeView, id: u64, e: ErrorView)
    ensures
        deleted_turn(v, OnDeleteView::Staged { id }, Err(e)).0 == v,
        deleted_turn(v, OnDeleteView::Object { id }, Err(e)).0 == v,
{
}

/// The removal of a staged file deletes the copy that the device holds, and a
/// file that never was on the device is removed without it.
pub proof fn law_removal_deletes_the_device_copy(
    v: VolumeView,
    dirid: u64,
    name: Seq<char>,
    id: u64,
)
    requires
        v.writable,
        v.attached,
        crate::volume::staged_named(v.staged, dirid, name) == Some(id),
        stage_of(v.staged, id) is Some,
    ensures
        match device_copy(stage_of(v.staged, id)->0) {
            Some(h) => remove_turn(v, dirid, name).0 == v && (remove_turn(v, dirid, name).1
                matches VolPlan::Delete { handle, after, .. } && handle == h && after
                == (OnDeleteView::Staged { id })),
            None => remove_turn(v, dirid, name).1 == (VolPlan::Discard { id, ok: true }),
        },
{
}

// ---------------------------------------------------------------------------
// The staging table
// ---------------------------------------------------------------------------

/// True when no two stages have the same id.
pub open spec fn distinct_ids(s: Seq<StageView>) -> bool {
    forall|i: int, j: int| 0 <= i < j < s.len() ==> (#[trigger] s[i]).id != (#[trigger] s[j]).id
}

proof fn lemma_places(s: Seq<StageView>, id: u64, from: nat)
    ensures
        match stage_place(s, id, from) {
            Some(i) => from <= i < s.len() && s[i as int].id == id,
            None => forall|j: int| from <= j < s.len() ==> (#[trigger] s[j]).id != id,
        },
    decreases s.len() - from,
{
    if from < s.len() && s[from as int].id != id {
        lemma_places(s, id, from + 1);
    }
}

proof fn lemma_stage_has_its_id(s: Seq<StageView>, id: u64)
    ensures
        stage_of(s, id) matches Some(x) ==> x.id == id,
{
    lemma_places(s, id, 0);
}

proof fn lemma_with_stage_distinct(s: Seq<StageView>, x: StageView)
    requires
        distinct_ids(s),
    ensures
        distinct_ids(with_stage(s, x)),
{
    lemma_places(s, x.id, 0);
    let t = with_stage(s, x);
    assert forall|i: int, j: int| 0 <= i < j < t.len() implies (#[trigger] t[i]).id != (
    #[trigger] t[j]).id by {
        match stage_place(s, x.id, 0) {
            Some(k) => {
                assert(i != k ==> t[i] == s[i]);
                assert(j != k ==> t[j] == s[j]);
                assert(s[i].id != s[j].id);
            },
            None => {
                assert(t[i] == s[i]);
                if j < s.len() {
                    assert(t[j] == s[j]);
                    assert(s[i].id != s[j].id);
                }
            },
        }
    }
}

pub proof fn lemma_without_stage_distinct(s: Seq<StageView>, id: u64)
    requires
        distinct_ids(s),
    ensures
        distinct_ids(without_stage(s, id)),
        stage_of(without_stage(s, id), id) is None,
{
    lemma_places(s, id, 0);
    let t = without_stage(s, id);
    lemma_places(t, id, 0);
    match stage_place(s, id, 0) {
        Some(k) => {
            assert forall|i: int, j: int| 0 <= i < j < t.len() implies (#[trigger] t[i]).id != (
            #[trigger] t[j]).id by {
                let a = if i < k {
                    i
                } else {
                    i + 1
                };
                let b = if j < k {
                    j
                } else {
                    j + 1
                };
                assert(t[i] == s[a] && t[j] == s[b]);
                assert(s[a].id != s[b].id);
            }
            assert forall|j: int| 0 <= j < t.len() implies (#[trigger] t[j]).id != id by {
                let b = if j < k {
                    j
                } else {
                    j + 1
                };
                assert(t[j] == s[b]);
                assert(s[k as int].id == id);
                if b < k {
                    assert(s[b].id != s[k as int].id);
                } else {
                    assert(s[k as int].id != s[b].id);
                }
            }
        },
        None => {},
    }
}

/// Every id stands for one staged file: no step of the volume gives two stages
/// the same id.
pub proof fn law_stage_ids_stay_distinct(
    v: VolumeView,
    now: u64,
    id: u64,
    dirid: u64,
    name: Seq<char>,
    to: u64,
    to_name: Seq<char>,
    next: NextView,
    p: PullView,
    length: Option<u64>,
    new_file: OnNewFileView,
    list: OnListView,
    delete: OnDeleteView,
    listing: std::result::Result<Seq<Entry>, ErrorView>,
    done: std::result::Result<(), ErrorView>,
    uploaded: std::result::Result<u64, ErrorView>,
    storage: usize,
    size: u64,
    len: usize,
    flag: bool,
    ok: bool,
)
    requires
        distinct_ids(v.staged),
    ensures
        distinct_ids(stage_new(v, dirid, name, next).0.staged),
        distinct_ids(listed_turn(v, list, listing).0.staged),
        distinct_ids(new_file_turn(v, id, new_file, ok).0.staged),
        distinct_ids(length_turn(v, p, length).0.staged),
        distinct_ids(set_len_turn(v, id, size, flag, ok).0.staged),
        distinct_ids(written_turn(v, id, size, len, ok).0.staged),
        distinct_ids(remove_turn(v, dirid, name).0.staged),
        distinct_ids(deleted_turn(v, delete, done).0.staged),
        distinct_ids(rename_turn(v, dirid, name, to, to_name).0.staged),
        distinct_ids(renamed_turn(v, id, to, to_name, done).0.staged),
        distinct_ids(uploaded_turn(v, now, id, storage, size, uploaded).0.staged),
{
    assert forall|x: StageView| distinct_ids(#[trigger] with_stage(v.staged, x)) by {
        lemma_with_stage_distinct(v.staged, x);
    }
    assert forall|i: u64| distinct_ids(#[trigger] without_stage(v.staged, i)) by {
        lemma_without_stage_distinct(v.staged, i);
    }
}

/// True when every staged file is an object of the device or has one of the ids
/// that were given out.
pub open spec fn ids_accounted(v: VolumeView) -> bool {
    forall|i: int|
        0 <= i < v.staged.len() ==> kind_of((#[trigger] v.staged[i]).id) is Some || exists|n: u64|
            1 <= n <= v.virt_seq && v.staged[i].id == #[trigger] virtual_id(n)
}

/// A file that does not exist yet gets an id that no staged file has.
pub proof fn law_new_ids_are_fresh(v: VolumeView, dirid: u64, name: Seq<char>, next: NextView)
    requires
        ids_accounted(v),
        v.virt_seq < VIRT_FLAG - 1,
    ensures
        brand_new(v, dirid, name, next).1 matches VolPlan::NewFile { id, .. } && stage_of(
            v.staged,
            id,
        ) is None && kind_of(id) is None && ids_accounted(
            new_file_turn(
                brand_new(v, dirid, name, next).0,
                id,
                OnNewFileView::Fresh { dirid, name, next },
                true,
            ).0,
        ),
{
    let m = (v.virt_seq + 1) as u64;
    let id = virtual_id(m);
    law_virtual_ids_stay_apart(m, m, 0, 0);
    lemma_places(v.staged, id, 0);
    match stage_place(v.staged, id, 0) {
        Some(i) => {
            let s = v.staged[i as int];
            assert(s.id == id);
            if kind_of(s.id) is None {
                let n = choose|n: u64| 1 <= n <= v.virt_seq && s.id == #[trigger] virtual_id(n);
                law_virtual_ids_stay_apart(n, m, 0, 0);
            }
        },
        None => {},
    }
    let u = brand_new(v, dirid, name, next).0;
    let w = new_file_turn(u, id, OnNewFileView::Fresh { dirid, name, next }, true).0;
    assert forall|i: int| 0 <= i < w.staged.len() implies kind_of((#[trigger] w.staged[i]).id) is Some
        || exists|n: u64| 1 <= n <= w.virt_seq && w.staged[i].id == #[trigger] virtual_id(n) by {
        if i < v.staged.len() {
            assert(w.staged[i] == v.staged[i]);
            if kind_of(v.staged[i].id) is None {
                let n = choose|n: u64|
                    1 <= n <= v.virt_seq && v.staged[i].id == #[trigger] virtual_id(n);
                assert(w.staged[i].id == virtual_id(n));
            }
        } else {
            assert(w.staged[i].id == virtual_id(m));
        }
    }
}

// ---------------------------------------------------------------------------
// Directory listings
// ---------------------------------------------------------------------------

proof fn lemma_text_le_antisymmetric(a: Seq<char>, b: Seq<char>)
    requires
        text_le(a, b),
        text_le(b, a),
    ensures
        a == b,
    decreases a.len(),
{
    if a.len() > 0 {
        lemma_text_le_antisymmetric(a.drop_first(), b.drop_first());
        assert(a =~= seq![a.first()] + a.drop_first());
        assert(b =~= seq![b.first()] + b.drop_first());
    } else {
        assert(a =~= b);
    }
}

proof fn lemma_deduped_in_order(s: Seq<ChildView>)
    requires
        in_order(s),
    ensures
        in_order(deduped(s)),
        s.len() > 0 ==> deduped(s).len() > 0 && text_le(
            sort_key(deduped(s).last()),
            sort_key(s.last()),
        ),
    decreases s.len(),
{
    if s.len() > 0 {
        let t = s.drop_last();
        assert(in_order(t)) by {
            assert forall|i: int, j: int| 0 <= i <= j < t.len() implies text_le(
                sort_key(#[trigger] t[i]),
                sort_key(#[trigger] t[j]),
            ) by {
                assert(t[i] == s[i] && t[j] == s[j]);
            }
        }
        lemma_deduped_in_order(t);
        let k = deduped(t);
        let d = deduped(s);
        lemma_text_le(sort_key(s.last()), sort_key(s.last()), sort_key(s.last()));
        if t.len() > 0 {
            assert(text_le(sort_key(s[s.len() - 2]), sort_key(s[s.len() - 1])));
            assert(t.last() == s[s.len() - 2]);
            lemma_text_le(sort_key(k.last()), sort_key(t.last()), sort_key(s.last()));
        }
        assert forall|i: int, j: int| 0 <= i <= j < d.len() implies text_le(
            sort_key(#[trigger] d[i]),
            sort_key(#[trigger] d[j]),
        ) by {
            if j < k.len() {
                assert(d[i] == k[i] && d[j] == k[j]);
            } else if i < k.len() {
                assert(d[i] == k[i]);
                assert(text_le(sort_key(k[i]), sort_key(k[k.len() - 1])));
                lemma_text_le(sort_key(k[i]), sort_key(k.last()), sort_key(s.last()));
            }
        }
    }
}

/// A directory shows each name once: no two entries of a listing have names
/// that differ in letter case alone.
pub proof fn law_listing_shows_each_name_once(s: Seq<ChildView>)
    ensures
        forall|i: int, j: int|
            0 <= i < j < deduped(sorted(s)).len() ==> lowercase_of(
                (#[trigger] deduped(sorted(s))[i]).name,
            ) != lowercase_of((#[trigger] deduped(sorted(s))[j]).name),
{
    let d = deduped(sorted(s));
    law_listing_is_sorted(s);
    lemma_deduped_in_order(sorted(s));
    law_neighbours_have_different_names(sorted(s));
    assert forall|i: int, j: int| 0 <= i < j < d.len() implies lowercase_of((#[trigger] d[i]).name)
        != lowercase_of((#[trigger] d[j]).name) by {
        if lowercase_of(d[i].name) == lowercase_of(d[j].name) {
            assert(text_le(sort_key(d[i]), sort_key(d[i + 1])));
            assert(text_le(sort_key(d[i + 1]), sort_key(d[j])));
            lemma_text_le_antisymmetric(sort_key(d[i]), sort_key(d[i + 1]));
            assert(same_name(lowercase_of(d[i + 1].name), lowercase_of(d[i].name)));
            assert(!same_name_ci(d[i + 1].name, d[i].name));
        }
    }
}

/// The first child with the given sort key.
pub open spec fn first_with_key(s: Seq<ChildView>, key: Seq<char>) -> Option<ChildView>
    decreases s.len(),
{
    if s.len() == 0 {
        None
    } else {
        match first_with_key(s.drop_last(), key) {
            Some(c) => Some(c),
            None => if sort_key(s.last()) == key {
                Some(s.last())
            } else {
                None
            },
        }
    }
}

proof fn lemma_inserted_first(s: Seq<ChildView>, c: ChildView, key: Seq<char>)
    ensures
        first_with_key(inserted(s, c), key) == match first_with_key(s, key) {
            Some(x) => Some(x),
            None => if sort_key(c) == key {
                Some(c)
            } else {
                None
            },
        },
    decreases s.len(),
{
    let r = inserted(s, c);
    if s.len() == 0 || text_le(sort_key(s.last()), sort_key(c)) {
        assert(r.drop_last() =~= s);
    } else {
        lemma_inserted_first(s.drop_last(), c, key);
        assert(r.drop_last() =~= inserted(s.drop_last(), c));
        lemma_text_le(sort_key(c), sort_key(c), sort_key(c));
    }
}

/// Sorting keeps children of the same name in their order: the first one with a
/// name stays the first one with it.
pub proof fn law_sorting_is_stable(s: Seq<ChildView>, key: Seq<char>)
    ensures
        first_with_key(sorted(s), key) == first_with_key(s, key),
    decreases s.len(),
{
    if s.len() > 0 {
        law_sorting_is_stable(s.drop_last(), key);
        lemma_inserted_first(sorted(s.drop_last()), s.last(), key);
    }
}

pub proof fn lemma_deduped_shows(s: Seq<ChildView>, c: ChildView)
    ensures
        deduped(s).contains(c) ==> s.contains(c),
        s.contains(c) ==> exists|j: int|
            0 <= j < deduped(s).len() && same_name_ci(c.name, (#[trigger] deduped(s)[j]).name),
    decreases s.len(),
{
    if s.len() > 0 {
        let t = s.drop_last();
        let k = deduped(t);
        let d = deduped(s);
        lemma_deduped_shows(t, c);
        if t.contains(c) {
            let i = choose|i: int| 0 <= i < t.len() && t[i] == c;
            assert(s[i] == c);
            let j = choose|j: int|
                0 <= j < k.len() && same_name_ci(c.name, (#[trigger] k[j]).name);
            assert(d[j] == k[j]);
        }
        if d.contains(c) && !k.contains(c) {
            let i = choose|i: int| 0 <= i < d.len() && d[i] == c;
            if i < k.len() {
                assert(k[i] == c);
            }
            assert(s[s.len() - 1] == c);
        }
        if s.contains(c) && !t.contains(c) {
            let i = choose|i: int| 0 <= i < s.len() && s[i] == c;
            if i < t.len() {
                assert(t[i] == c);
            }
            law_same_name_ci(c.name, c.name);
            if d.len() == k.len() {
                assert(same_name_ci(c.name, d[d.len() - 1].name));
            } else {
                assert(d[d.len() - 1] == c);
            }
        }
    }
}

pub proof fn lemma_sorted_contains(s: Seq<ChildView>, c: ChildView)
    ensures
        sorted(s).contains(c) == s.contains(c),
{
    broadcast use vstd::seq_lib::group_to_multiset_ensures;

    law_listing_is_sorted(s);
    assert(sorted(s).to_multiset().count(c) == s.to_multiset().count(c));
}

/// A directory shows every name there is: each child is shown, or one of the
/// same name is.
pub proof fn law_listing_shows_every_name(s: Seq<ChildView>, c: ChildView)
    requires
        s.contains(c),
    ensures
        exists|j: int|
            0 <= j < deduped(sorted(s)).len() && same_name_ci(
                c.name,
                (#[trigger] deduped(sorted(s))[j]).name,
            ),
{
    lemma_sorted_contains(s, c);
    lemma_deduped_shows(sorted(s), c);
}

proof fn lemma_key_is_found(s: Seq<ChildView>, c: ChildView)
    requires
        s.contains(c),
    ensures
        first_with_key(s, sort_key(c)) is Some,
    decreases s.len(),
{
    let i = choose|i: int| 0 <= i < s.len() && s[i] == c;
    if i < s.len() - 1 {
        assert(s.drop_last()[i] == c);
        lemma_key_is_found(s.drop_last(), c);
    }
}

/// Of the children of one name and one key the first is kept.
proof fn lemma_first_is_kept(s: Seq<ChildView>, x: ChildView)
    requires
        first_with_key(s, sort_key(x)) == Some(x),
        forall|c: ChildView| #[trigger]
            s.contains(c) && same_name_ci(x.name, c.name) ==> sort_key(c) == sort_key(x),
    ensures
        deduped(s).contains(x),
    decreases s.len(),
{
    if s.len() > 0 {
        let t = s.drop_last();
        let k = deduped(t);
        let d = deduped(s);
        assert forall|c: ChildView| #[trigger] t.contains(c) implies s.contains(c) by {
            let i = choose|i: int| 0 <= i < t.len() && t[i] == c;
            assert(s[i] == c);
        }
        if first_with_key(t, sort_key(x)) is Some {
            lemma_first_is_kept(t, x);
            let i = choose|i: int| 0 <= i < k.len() && k[i] == x;
            assert(d[i] == x);
        } else {
            assert(s.last() == x);
            if k.len() > 0 && same_name_ci(x.name, k.last().name) {
                let c = k.last();
                assert(k[k.len() - 1] == c);
                lemma_deduped_shows(t, c);
                assert(sort_key(c) == sort_key(x));
                lemma_key_is_found(t, c);
            }
            assert(d[d.len() - 1] == x);
        }
    }
}

proof fn lemma_first_of_both(a: Seq<ChildView>, b: Seq<ChildView>, key: Seq<char>)
    requires
        first_with_key(a, key) is Some,
    ensures
        first_with_key(a + b, key) == first_with_key(a, key),
    decreases b.len(),
{
    if b.len() == 0 {
        assert(a + b =~= a);
    } else {
        lemma_first_of_both(a, b.drop_last(), key);
        assert((a + b).drop_last() =~= a + b.drop_last());
    }
}

/// A directory shows a file that is staged in it by the id and with the size of
/// its stage, whatever the device shows under the same name. (Another staged
/// file of the same name comes first where it was staged first; and names that
/// are the same and are sorted apart are not told from each other.)
pub proof fn law_listing_shows_staged_files(
    v: VolumeView,
    dirid: u64,
    children: Seq<ChildView>,
    x: ChildView,
)
    requires
        first_with_key(staged_children(v.staged, dirid), sort_key(x)) == Some(x),
        forall|c: ChildView| #[trigger]
            (staged_children(v.staged, dirid) + children).contains(c) && same_name_ci(
                x.name,
                c.name,
            ) ==> sort_key(c) == sort_key(x),
    ensures
        full_listing(v, dirid, children).contains(x),
{
    let all = staged_children(v.staged, dirid) + children;
    lemma_first_of_both(staged_children(v.staged, dirid), children, sort_key(x));
    law_sorting_is_stable(all, sort_key(x));
    assert forall|c: ChildView| #[trigger]
        sorted(all).contains(c) && same_name_ci(x.name, c.name) implies sort_key(c) == sort_key(x) by {
        lemma_sorted_contains(all, c);
    }
    lemma_first_is_kept(sorted(all), x);
}

} // verus!
