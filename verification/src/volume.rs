//! The NFS volume over a device session.
//!
//! Objects on the device cannot be changed in place, so a file that is written
//! to is staged: its contents are pulled into a local file once, writes go
//! there, and COMMIT replaces the object on the device (delete, then upload).
//! A staged file is served from its stage, so a client sees its own writes at
//! once. The stage keeps track of the copy on the device, so that committing
//! again neither duplicates nor orphans one.
//!
//! This module decides what an NFS request does; [`VolStep`] names the device
//! and file calls that it takes.

use std::collections::HashMap;

use vstd::prelude::*;

use crate::dirlist::{
    child_views, dedup_children, deduped, is_last_page, page, page_bounds, sort_children, sorted,
    Child, ChildView,
};
use crate::error::{ErrorView, Result};
use crate::ids::{
    decode, encode_real, kind_of, real_id, virtual_id, Kind, HANDLE_BOUND, STORAGE_BASE_ID,
    STORAGE_BOUND, VIRT_FLAG,
};
use crate::model::{Entry, StorageSummary, ROOT};
use crate::names::{names_eq_ci, same_name_ci};
use crate::nfs::{attr_for, attr_of, generation_of, nfserr, status_of, Attr, NfsStat};
use crate::session::{answer, child_by_name, child_named, listing_answer};
use crate::text::{
    chars_of, dec, dec_string, has_char, hex, lossy_of, lossy_text, push_hex, same_text, trim,
    trim_chars,
};
use crate::volume_step::{
    DirEntry, DirEntryView, Next, NextView, OnDelete, OnDeleteView, OnInfo, OnInfoView, OnList,
    OnListView, OnNewFile, OnNewFileView, OnRead, OnReadView, Pull, PullView, Stability, VolPlan,
    VolReply, VolReplyView, VolStep,
};

verus! {

/// How long an attribute is served from the cache, in nanoseconds.
pub const ATTR_TTL: u64 = 2_000_000_000;

/// The size of the pieces in which an object is pulled.
pub const CHUNK: u32 = 1_048_576;

/// The preferred size of reads and writes.
pub const PREFERRED_IO_SIZE: u32 = 1_048_576;

/// A file with a local staging file.
#[derive(Debug)]
pub struct Stage {
    pub id: u64,
    pub storage_index: usize,
    /// Id of the directory.
    pub parent_id: u64,
    pub name: String,
    pub size: u64,
    /// Handle of the device object that the file was staged from.
    pub origin_dev: Option<u64>,
    /// Handle of the device object after the last flush.
    pub flushed_dev: Option<u64>,
    /// True when the stage holds what the device does not.
    pub dirty: bool,
}

/// A [`Stage`] with its name as a sequence of characters.
pub struct StageView {
    pub id: u64,
    pub storage_index: usize,
    pub parent_id: u64,
    pub name: Seq<char>,
    pub size: u64,
    pub origin_dev: Option<u64>,
    pub flushed_dev: Option<u64>,
    pub dirty: bool,
}

impl View for Stage {
    type V = StageView;

    open spec fn view(&self) -> StageView {
        StageView {
            id: self.id,
            storage_index: self.storage_index,
            parent_id: self.parent_id,
            name: self.name@,
            size: self.size,
            origin_dev: self.origin_dev,
            flushed_dev: self.flushed_dev,
            dirty: self.dirty,
        }
    }
}

impl Stage {
    fn copy(&self) -> (r: Self)
        ensures
            r == *self,
    {
        Stage {
            id: self.id,
            storage_index: self.storage_index,
            parent_id: self.parent_id,
            name: self.name.clone(),
            size: self.size,
            origin_dev: self.origin_dev,
            flushed_dev: self.flushed_dev,
            dirty: self.dirty,
        }
    }

    fn device_copy(&self) -> (r: Option<u64>)
        ensures
            r == device_copy(self@),
    {
        match self.flushed_dev {
            Some(h) => Some(h),
            None => self.origin_dev,
        }
    }
}

/// Size and kind of an object, and when they were fetched.
#[derive(Debug, Clone, Copy, PartialEq, Eq, Structural)]
pub struct AttrEntry {
    pub size: u64,
    pub is_dir: bool,
    pub at: u64,
}

/// Bytes read from and written to the device.
#[derive(Debug, Clone, Copy, PartialEq, Eq, Structural)]
pub struct Stats {
    /// Bytes read from the device.
    pub rx: u64,
    /// Bytes written to the device.
    pub tx: u64,
}

/// The state of a volume.
#[derive(Debug)]
pub struct Volume {
    storages: Vec<StorageSummary>,
    attached: bool,
    wanted: bool,
    writable: bool,
    epoch: u32,
    staged: Vec<Stage>,
    virt_seq: u64,
    attrs: HashMap<u64, AttrEntry>,
    stats: Stats,
}

/// A [`Volume`] in terms of views.
#[verifier::ext_equal]
pub struct VolumeView {
    pub storages: Seq<StorageSummary>,
    /// True while a device session is installed.
    pub attached: bool,
    /// True unless the volume was asked to be read-only.
    pub wanted: bool,
    /// True when the volume takes changes.
    pub writable: bool,
    /// The second at which the volume was made.
    pub epoch: u32,
    /// The staged files.
    pub staged: Seq<StageView>,
    /// How many ids were given to files that were not on the device.
    pub virt_seq: u64,
    /// Cached attributes, by id.
    pub attrs: Map<u64, AttrEntry>,
    pub stats: Stats,
}

/// The views of a list of stages.
pub open spec fn stage_views(s: Seq<Stage>) -> Seq<StageView> {
    s.map_values(|x: Stage| x@)
}

impl View for Volume {
    type V = VolumeView;

    closed spec fn view(&self) -> VolumeView {
        VolumeView {
            storages: self.storages@,
            attached: self.attached,
            wanted: self.wanted,
            writable: self.writable,
            epoch: self.epoch,
            staged: stage_views(self.staged@),
            virt_seq: self.virt_seq,
            attrs: self.attrs@,
            stats: self.stats,
        }
    }
}

/// A step of the volume: the state it leaves, and what comes next.
pub type Turn = (VolumeView, VolPlan);

// ---------------------------------------------------------------------------
// Names
// ---------------------------------------------------------------------------

/// The name of the staging file of `id`.
pub open spec fn stage_name(id: u64) -> Seq<char> {
    "stage-"@ + hex(id as nat, 16) + ".bin"@
}

/// The name of the staging file of `id`.
pub fn stage_file_name(id: u64) -> (r: String)
    ensures
        r@ == stage_name(id),
{
    let mut s = crate::text::owned("stage-");
    push_hex(&mut s, id, 16);
    s.push_str(".bin");
    s
}

// ---------------------------------------------------------------------------
// The staging table
// ---------------------------------------------------------------------------

/// The place of the stage of `id`, at or after `from`.
pub open spec fn stage_place(s: Seq<StageView>, id: u64, from: nat) -> Option<nat>
    decreases s.len() - from,
{
    if from >= s.len() {
        None
    } else if s[from as int].id == id {
        Some(from)
    } else {
        stage_place(s, id, from + 1)
    }
}

/// The stage of `id`.
pub open spec fn stage_of(s: Seq<StageView>, id: u64) -> Option<StageView> {
    match stage_place(s, id, 0) {
        Some(i) => Some(s[i as int]),
        None => None,
    }
}

/// The stages with `x` in the place of the one with its id, or at the end.
pub open spec fn with_stage(s: Seq<StageView>, x: StageView) -> Seq<StageView> {
    match stage_place(s, x.id, 0) {
        Some(i) => s.update(i as int, x),
        None => s.push(x),
    }
}

/// The stages without the one of `id`.
pub open spec fn without_stage(s: Seq<StageView>, id: u64) -> Seq<StageView> {
    match stage_place(s, id, 0) {
        Some(i) => s.remove(i as int),
        None => s,
    }
}

/// The id of the first file staged in `dirid` under `name`.
pub open spec fn staged_named(s: Seq<StageView>, dirid: u64, name: Seq<char>) -> Option<u64>
    decreases s.len(),
{
    if s.len() == 0 {
        None
    } else if s.first().parent_id == dirid && same_name_ci(s.first().name, name) {
        Some(s.first().id)
    } else {
        staged_named(s.drop_first(), dirid, name)
    }
}

/// The object on the device that a stage stands for: what the last flush
/// uploaded, or else what the file was staged from.
pub open spec fn device_copy(s: StageView) -> Option<u64> {
    match s.flushed_dev {
        Some(h) => Some(h),
        None => s.origin_dev,
    }
}

pub proof fn lemma_stage_place(s: Seq<StageView>, id: u64, from: nat)
    ensures
        match stage_place(s, id, from) {
            Some(i) => from <= i < s.len() && s[i as int].id == id && forall|j: int|
                from <= j < i ==> (#[trigger] s[j]).id != id,
            None => forall|j: int| from <= j < s.len() ==> (#[trigger] s[j]).id != id,
        },
    decreases s.len() - from,
{
    if from < s.len() && s[from as int].id != id {
        lemma_stage_place(s, id, from + 1);
    }
}

// ---------------------------------------------------------------------------
// Ids and directories
// ---------------------------------------------------------------------------

/// The id of an object, when it has one.
pub open spec fn encoded(storage: usize, handle: u64) -> Option<u64> {
    if handle < HANDLE_BOUND && storage < STORAGE_BOUND {
        Some(real_id(storage, handle))
    } else {
        None
    }
}

fn encode(storage: usize, handle: u64) -> (r: Option<u64>)
    ensures
        r == encoded(storage, handle),
{
    if handle < HANDLE_BOUND && storage < STORAGE_BOUND {
        Some(encode_real(storage, handle))
    } else {
        None
    }
}

/// The storage and the handle of a directory, by its id. A file that is not on
/// the device yet is none.
pub open spec fn dir_of(dirid: u64) -> Option<(usize, u64)> {
    match kind_of(dirid) {
        Some(Kind::StorageRoot(i)) => Some((i, ROOT)),
        Some(Kind::Real(d)) => Some((d.storage_index, d.handle)),
        _ => None,
    }
}

fn parent_handle_of(dirid: u64) -> (r: Option<(usize, u64)>)
    ensures
        r == dir_of(dirid),
{
    match decode(dirid) {
        Some(Kind::StorageRoot(i)) => Some((i, ROOT)),
        Some(Kind::Real(d)) => Some((d.storage_index, d.handle)),
        _ => None,
    }
}

/// The storage and the handle of the device object behind an id: the one that
/// the last flush uploaded, or else the one that the id names.
pub open spec fn device_object(v: VolumeView, id: u64) -> Option<(usize, u64)> {
    match stage_of(v.staged, id) {
        Some(s) if s.flushed_dev is Some => Some((s.storage_index, s.flushed_dev->0)),
        _ => match kind_of(id) {
            Some(Kind::Real(d)) => Some((d.storage_index, d.handle)),
            _ => None,
        },
    }
}

/// The volume without cached attributes.
pub open spec fn cleared(v: VolumeView) -> VolumeView {
    VolumeView { attrs: Map::empty(), ..v }
}

/// The volume with other stages, and without cached attributes.
pub open spec fn restaged(v: VolumeView, staged: Seq<StageView>) -> VolumeView {
    VolumeView { staged, attrs: Map::empty(), ..v }
}

/// The volume after `n` more bytes came from the device.
pub open spec fn received(v: VolumeView, n: nat) -> VolumeView {
    VolumeView { stats: Stats { rx: v.stats.rx.wrapping_add(n as u64), ..v.stats }, ..v }
}

/// The volume after `n` more bytes went to the device.
pub open spec fn sent(v: VolumeView, n: u64) -> VolumeView {
    VolumeView { stats: Stats { tx: v.stats.tx.wrapping_add(n), ..v.stats }, ..v }
}

/// An operation that fails.
pub open spec fn refuse(s: NfsStat) -> VolPlan {
    VolPlan::Done(Err(s))
}

/// A call of the device, which needs a session.
pub open spec fn on_device(v: VolumeView, plan: VolPlan) -> VolPlan {
    if v.attached {
        plan
    } else {
        refuse(NfsStat::Io)
    }
}

/// The attributes of a staged file.
pub open spec fn stage_attr(v: VolumeView, s: StageView) -> Attr {
    attr_of(s.id, false, s.size, v.epoch)
}

/// The end of a range, or the greatest number when it does not fit.
pub open spec fn range_end(offset: u64, len: nat) -> u64 {
    if offset + len > u64::MAX {
        u64::MAX
    } else {
        (offset + len) as u64
    }
}

/// True when some storage can be written, or none is known.
pub open spec fn takes_changes(storages: Seq<StorageSummary>) -> bool {
    storages.len() == 0 || exists|i: int| 0 <= i < storages.len() && (#[trigger] storages[i]).writable
}

fn device_takes_changes(storages: &Vec<StorageSummary>) -> (r: bool)
    ensures
        r == takes_changes(storages@),
{
    if storages.len() == 0 {
        return true;
    }
    let mut i: usize = 0;
    while i < storages.len()
        invariant
            i <= storages.len(),
            forall|j: int| 0 <= j < i ==> !(#[trigger] storages@[j]).writable,
        decreases storages.len() - i,
    {
        if storages[i].writable {
            return true;
        }
        i = i + 1;
    }
    false
}

// ---------------------------------------------------------------------------
// Looking a name up
// ---------------------------------------------------------------------------

/// How far a name leads without the device.
pub enum Find {
    Found(u64),
    Fail(NfsStat),
    Ask { storage: usize, dir: u64 },
}

/// The id of the root of the `i`th storage; the greatest id when that does not
/// fit.
pub open spec fn root_id(i: nat) -> u64 {
    if STORAGE_BASE_ID + i > u64::MAX {
        u64::MAX
    } else {
        (STORAGE_BASE_ID + i) as u64
    }
}

/// The storage that a name in the device root addresses, at or after `from`:
/// by its description, or by its position counted from one.
pub open spec fn storage_at(storages: Seq<StorageSummary>, name: Seq<char>, from: nat) -> Option<nat>
    decreases storages.len() - from,
{
    if from >= storages.len() {
        None
    } else if same_name_ci(storages[from as int].description@, name) || name == dec(from + 1) {
        Some(from)
    } else {
        storage_at(storages, name, from + 1)
    }
}

/// Looks a name up: a staged file first, then in the listing of the device.
pub open spec fn find_name(v: VolumeView, dirid: u64, name: Seq<char>) -> Find {
    match staged_named(v.staged, dirid, name) {
        Some(id) => Find::Found(id),
        None => match kind_of(dirid) {
            None => Find::Fail(NfsStat::Badhandle),
            Some(Kind::DeviceRoot) => match storage_at(v.storages, name, 0) {
                Some(i) => Find::Found(root_id(i)),
                None => Find::Fail(NfsStat::Noent),
            },
            Some(Kind::StorageRoot(i)) => if v.attached {
                Find::Ask { storage: i, dir: ROOT }
            } else {
                Find::Fail(NfsStat::Io)
            },
            Some(Kind::Real(d)) => if v.attached {
                Find::Ask { storage: d.storage_index, dir: d.handle }
            } else {
                Find::Fail(NfsStat::Io)
            },
        },
    }
}

/// The id of the entry `name` of a listing.
pub open spec fn listed_id(
    storage: usize,
    children: Seq<Entry>,
    name: Seq<char>,
) -> std::result::Result<u64, NfsStat> {
    match child_named(children, name) {
        None => Err(NfsStat::Noent),
        Some(e) => match encoded(storage, e.handle) {
            Some(id) => Ok(id),
            None => Err(NfsStat::Badhandle),
        },
    }
}

fn id_in_listing(storage: usize, children: &Vec<Entry>, name: &str) -> (r: std::result::Result<
    u64,
    NfsStat,
>)
    ensures
        r == listed_id(storage, children@, name@),
{
    match child_by_name(children, name) {
        None => Err(NfsStat::Noent),
        Some(e) => match encode(storage, e.handle) {
            Some(id) => Ok(id),
            None => Err(NfsStat::Badhandle),
        },
    }
}

/// LOOKUP.
pub open spec fn lookup_plan(v: VolumeView, dirid: u64, name: Seq<char>) -> VolPlan {
    match find_name(v, dirid, name) {
        Find::Found(id) => VolPlan::Done(Ok(VolReplyView::Id(id))),
        Find::Fail(s) => refuse(s),
        Find::Ask { storage, dir } => VolPlan::List {
            storage,
            dir,
            after: OnListView::Lookup { storage, name },
        },
    }
}

// ---------------------------------------------------------------------------
// Attributes
// ---------------------------------------------------------------------------

/// The attributes that the cache serves at `now`.
pub open spec fn fresh_attr(v: VolumeView, id: u64, now: u64) -> Option<AttrEntry> {
    if v.attrs.contains_key(id) && now - v.attrs[id].at <= ATTR_TTL {
        Some(v.attrs[id])
    } else {
        None
    }
}

/// The space in use on a storage.
pub open spec fn space_used(s: StorageSummary) -> u64 {
    if s.capacity >= s.free {
        (s.capacity - s.free) as u64
    } else {
        0
    }
}

/// GETATTR: a staged file is served from its stage.
pub open spec fn getattr_plan(v: VolumeView, now: u64, id: u64) -> VolPlan {
    match stage_of(v.staged, id) {
        Some(s) => VolPlan::Done(Ok(VolReplyView::Attr(stage_attr(v, s)))),
        None => match kind_of(id) {
            None => refuse(NfsStat::Badhandle),
            Some(Kind::DeviceRoot) => VolPlan::Done(
                Ok(VolReplyView::Attr(attr_of(id, true, 0, v.epoch))),
            ),
            Some(Kind::StorageRoot(i)) => if i < v.storages.len() {
                VolPlan::Done(
                    Ok(
                        VolReplyView::Attr(
                            attr_of(id, true, space_used(v.storages[i as int]), v.epoch),
                        ),
                    ),
                )
            } else {
                refuse(NfsStat::Badhandle)
            },
            Some(Kind::Real(d)) => match fresh_attr(v, id, now) {
                Some(a) => VolPlan::Done(
                    Ok(VolReplyView::Attr(attr_of(id, a.is_dir, a.size, v.epoch))),
                ),
                None => on_device(
                    v,
                    VolPlan::Info {
                        storage: d.storage_index,
                        handle: d.handle,
                        after: OnInfoView::Attr { id },
                    },
                ),
            },
        },
    }
}

// ---------------------------------------------------------------------------
// Staging
// ---------------------------------------------------------------------------

/// What follows once `s` is staged.
pub open spec fn staged_next(v: VolumeView, s: StageView, next: NextView) -> VolPlan {
    match next {
        NextView::SetLen { size } => VolPlan::SetLen { id: s.id, size, create: false },
        NextView::Write { offset, data } => VolPlan::WriteAt { id: s.id, offset, data },
        NextView::Create { size } => match size {
            Some(n) => VolPlan::SetLen { id: s.id, size: n, create: true },
            None => VolPlan::Done(
                Ok(VolReplyView::Created { id: s.id, attr: stage_attr(v, s) }),
            ),
        },
        NextView::Exclusive => VolPlan::Done(Ok(VolReplyView::Id(s.id))),
    }
}

/// The pull of an object goes on: the next piece, or, when all of it is there,
/// the length of the staging file.
pub open spec fn pull_more(v: VolumeView, p: PullView) -> VolPlan {
    if p.off < p.size {
        on_device(
            v,
            VolPlan::Read {
                storage: p.storage,
                handle: p.handle,
                offset: p.off,
                count: if p.size - p.off < CHUNK {
                    (p.size - p.off) as u32
                } else {
                    CHUNK
                },
                after: OnReadView::Pull(p),
            },
        )
    } else {
        VolPlan::Length { pull: p }
    }
}

/// Stages a device object, unless it is staged already.
pub open spec fn pull_start(v: VolumeView, p: PullView) -> VolPlan {
    match stage_of(v.staged, p.id) {
        Some(s) => staged_next(v, s, p.next),
        None => VolPlan::NewFile { id: p.id, after: OnNewFileView::Pull(p) },
    }
}

/// The stage of an object that was pulled completely.
pub open spec fn pulled_stage(p: PullView) -> StageView {
    StageView {
        id: p.id,
        storage_index: p.storage,
        parent_id: p.parent_id,
        name: p.name,
        size: p.size,
        origin_dev: Some(p.handle),
        flushed_dev: None,
        dirty: false,
    }
}

/// The stage of a file that does not exist yet. Its storage is known when it is
/// flushed.
pub open spec fn fresh_stage(id: u64, dirid: u64, name: Seq<char>) -> StageView {
    StageView {
        id,
        storage_index: 0,
        parent_id: dirid,
        name,
        size: 0,
        origin_dev: None,
        flushed_dev: None,
        dirty: true,
    }
}

/// Makes sure that `id` is staged before it is changed.
pub open spec fn stage_for_writes(v: VolumeView, id: u64, next: NextView) -> VolPlan {
    if !v.writable {
        refuse(NfsStat::Rofs)
    } else {
        match stage_of(v.staged, id) {
            Some(s) => staged_next(v, s, next),
            None => match kind_of(id) {
                Some(Kind::Real(d)) => on_device(
                    v,
                    VolPlan::Info {
                        storage: d.storage_index,
                        handle: d.handle,
                        after: OnInfoView::Stage {
                            id,
                            storage: d.storage_index,
                            handle: d.handle,
                            next,
                        },
                    },
                ),
                _ => refuse(NfsStat::Noent),
            },
        }
    }
}

/// A file that does not exist yet gets an id and an empty staging file.
pub open spec fn brand_new(v: VolumeView, dirid: u64, name: Seq<char>, next: NextView) -> Turn {
    if v.virt_seq >= VIRT_FLAG - 1 {
        (v, refuse(NfsStat::Io))
    } else {
        let n = (v.virt_seq + 1) as u64;
        (
            VolumeView { virt_seq: n, ..v },
            VolPlan::NewFile {
                id: virtual_id(n),
                after: OnNewFileView::Fresh { dirid, name, next },
            },
        )
    }
}

/// Stages the file `name` of `dirid`: as it is if it exists, empty if not.
pub open spec fn stage_new(v: VolumeView, dirid: u64, name: Seq<char>, next: NextView) -> Turn {
    if !v.writable {
        (v, refuse(NfsStat::Rofs))
    } else if dir_of(dirid) is None || name.contains('/') || trim(name).len() == 0 {
        (v, refuse(NfsStat::Inval))
    } else {
        match staged_named(v.staged, dirid, name) {
            Some(id) => match stage_of(v.staged, id) {
                Some(s) => (v, staged_next(v, s, next)),
                None => (v, refuse(NfsStat::Noent)),
            },
            None => match find_name(v, dirid, name) {
                Find::Ask { storage, dir } => (
                    v,
                    VolPlan::List {
                        storage,
                        dir,
                        after: OnListView::New { storage, dirid, name, next },
                    },
                ),
                _ => brand_new(v, dirid, name, next),
            },
        }
    }
}

/// [`stage_new`] with the listing of the directory.
pub open spec fn stage_listed(
    v: VolumeView,
    storage: usize,
    dirid: u64,
    name: Seq<char>,
    next: NextView,
    r: std::result::Result<Seq<Entry>, ErrorView>,
) -> Turn {
    match r {
        Err(_) => brand_new(v, dirid, name, next),
        Ok(children) => match listed_id(storage, children, name) {
            Err(NfsStat::Noent) => brand_new(v, dirid, name, next),
            Err(s) => (v, refuse(s)),
            Ok(id) => match device_object(v, id) {
                None => brand_new(v, dirid, name, next),
                Some((i, h)) => (
                    v,
                    on_device(
                        v,
                        VolPlan::Info {
                            storage: i,
                            handle: h,
                            after: OnInfoView::New { id, storage: i, handle: h, dirid, next },
                        },
                    ),
                ),
            },
        },
    }
}

/// SETATTR: only the size means something on the device.
pub open spec fn setattr_plan(v: VolumeView, now: u64, id: u64, size: Option<u64>) -> VolPlan {
    if !v.writable {
        refuse(NfsStat::Rofs)
    } else {
        match size {
            None => getattr_plan(v, now, id),
            Some(n) => stage_for_writes(v, id, NextView::SetLen { size: n }),
        }
    }
}

/// CREATE of a file that must not exist.
pub open spec fn exclusive_turn(v: VolumeView, dirid: u64, name: Seq<char>) -> Turn {
    match find_name(v, dirid, name) {
        Find::Found(_) => (v, refuse(NfsStat::Exist)),
        Find::Fail(_) => stage_new(v, dirid, name, NextView::Exclusive),
        Find::Ask { storage, dir } => (
            v,
            VolPlan::List { storage, dir, after: OnListView::Exclusive { storage, dirid, name } },
        ),
    }
}

// ---------------------------------------------------------------------------
// Reading
// ---------------------------------------------------------------------------

/// READ: a staged file from its stage, any other one from the device.
pub open spec fn read_plan(v: VolumeView, id: u64, offset: u64, count: u32) -> VolPlan {
    match stage_of(v.staged, id) {
        Some(_) => VolPlan::ReadAt { id, offset, count },
        None => match kind_of(id) {
            Some(Kind::Real(d)) => on_device(
                v,
                VolPlan::Read {
                    storage: d.storage_index,
                    handle: d.handle,
                    offset,
                    count,
                    after: OnReadView::First {
                        storage: d.storage_index,
                        handle: d.handle,
                        offset,
                        count,
                    },
                },
            ),
            _ => refuse(NfsStat::Isdir),
        },
    }
}

/// The reply to a read of a file of `size` bytes.
pub open spec fn data_reply(offset: u64, data: Seq<u8>, size: u64) -> VolPlan {
    VolPlan::Done(
        Ok(VolReplyView::Data { bytes: data, eof: range_end(offset, data.len()) >= size }),
    )
}

// ---------------------------------------------------------------------------
// Removing, renaming, making directories
// ---------------------------------------------------------------------------

/// MKDIR.
pub open spec fn mkdir_plan(v: VolumeView, dirid: u64, name: Seq<char>) -> VolPlan {
    if !v.writable {
        refuse(NfsStat::Rofs)
    } else {
        match dir_of(dirid) {
            None => refuse(NfsStat::Inval),
            Some((storage, parent)) => on_device(v, VolPlan::Mkdir { storage, parent, name }),
        }
    }
}

/// The removal of the device object behind `id`.
pub open spec fn remove_object(v: VolumeView, id: u64) -> VolPlan {
    match device_object(v, id) {
        None => refuse(NfsStat::Noent),
        Some((storage, handle)) => on_device(
            v,
            VolPlan::Delete { storage, handle, after: OnDeleteView::Object { id } },
        ),
    }
}

/// REMOVE: of a staged file the copy on the device goes first.
pub open spec fn remove_turn(v: VolumeView, dirid: u64, name: Seq<char>) -> Turn {
    if !v.writable {
        (v, refuse(NfsStat::Rofs))
    } else {
        match staged_named(v.staged, dirid, name) {
            Some(id) => match stage_of(v.staged, id) {
                None => (v, VolPlan::Done(Ok(VolReplyView::Nothing))),
                Some(s) => match device_copy(s) {
                    Some(handle) => (
                        v,
                        on_device(
                            v,
                            VolPlan::Delete {
                                storage: s.storage_index,
                                handle,
                                after: OnDeleteView::Staged { id },
                            },
                        ),
                    ),
                    None => (
                        restaged(v, without_stage(v.staged, id)),
                        VolPlan::Discard { id, ok: true },
                    ),
                },
            },
            None => match find_name(v, dirid, name) {
                Find::Found(id) => (v, remove_object(v, id)),
                Find::Fail(s) => (v, refuse(s)),
                Find::Ask { storage, dir } => (
                    v,
                    VolPlan::List { storage, dir, after: OnListView::Remove { storage, name } },
                ),
            },
        }
    }
}

/// The rename on the device of the object behind `id`.
pub open spec fn rename_object(
    v: VolumeView,
    id: u64,
    from_dirid: u64,
    from_name: Seq<char>,
    to_dirid: u64,
    to_name: Seq<char>,
) -> VolPlan {
    match (device_object(v, id), dir_of(from_dirid), dir_of(to_dirid)) {
        (None, _, _) => refuse(NfsStat::Noent),
        (_, None, _) => refuse(NfsStat::Inval),
        (_, _, None) => refuse(NfsStat::Inval),
        (Some((storage, _)), Some((i, from)), Some((j, to))) => if i != j {
            refuse(NfsStat::Inval)
        } else {
            on_device(
                v,
                VolPlan::Rename { storage, from, from_name, to, to_name, id, to_dirid },
            )
        },
    }
}

/// The stage `s` under another name.
pub open spec fn renamed_stage(s: StageView, to_dirid: u64, to_name: Seq<char>) -> StageView {
    StageView { parent_id: to_dirid, name: to_name, ..s }
}

/// RENAME: of a file that never was on the device only the stage changes.
pub open spec fn rename_turn(
    v: VolumeView,
    from_dirid: u64,
    from_name: Seq<char>,
    to_dirid: u64,
    to_name: Seq<char>,
) -> Turn {
    if !v.writable {
        (v, refuse(NfsStat::Rofs))
    } else {
        let local = match staged_named(v.staged, from_dirid, from_name) {
            Some(id) => match stage_of(v.staged, id) {
                Some(s) => if device_copy(s) is None {
                    Some(s)
                } else {
                    None
                },
                None => None,
            },
            None => None,
        };
        match local {
            Some(s) => (
                restaged(v, with_stage(v.staged, renamed_stage(s, to_dirid, to_name))),
                VolPlan::Done(Ok(VolReplyView::Nothing)),
            ),
            None => match find_name(v, from_dirid, from_name) {
                Find::Found(id) => (
                    v,
                    rename_object(v, id, from_dirid, from_name, to_dirid, to_name),
                ),
                Find::Fail(s) => (v, refuse(s)),
                Find::Ask { storage, dir } => (
                    v,
                    VolPlan::List {
                        storage,
                        dir,
                        after: OnListView::Rename {
                            storage,
                            from_dirid,
                            from_name,
                            to_dirid,
                            to_name,
                        },
                    },
                ),
            },
        }
    }
}

// ---------------------------------------------------------------------------
// Listing a directory
// ---------------------------------------------------------------------------

/// The files staged in `dirid` that a listing of the device does not show as
/// they are.
pub open spec fn staged_children(s: Seq<StageView>, dirid: u64) -> Seq<ChildView>
    decreases s.len(),
{
    if s.len() == 0 {
        Seq::empty()
    } else {
        let x = s.last();
        let before = staged_children(s.drop_last(), dirid);
        if x.parent_id == dirid && (x.flushed_dev is None || x.dirty) {
            before.push(ChildView { id: x.id, name: x.name, is_dir: false, size: x.size })
        } else {
            before
        }
    }
}

/// The storages as children of the device root.
pub open spec fn storage_children(storages: Seq<StorageSummary>) -> Seq<ChildView> {
    Seq::new(
        storages.len(),
        |i: int|
            ChildView {
                id: root_id(i as nat),
                name: storages[i].description@,
                is_dir: true,
                size: space_used(storages[i]),
            },
    )
}

/// True when every entry of a listing has an id.
pub open spec fn all_encodable(storage: usize, s: Seq<Entry>) -> bool {
    forall|i: int| 0 <= i < s.len() ==> encoded(storage, (#[trigger] s[i]).handle) is Some
}

/// The entries of a listing as children.
pub open spec fn entry_children(storage: usize, s: Seq<Entry>) -> Seq<ChildView> {
    Seq::new(
        s.len(),
        |i: int|
            ChildView {
                id: real_id(storage, s[i].handle),
                name: s[i].name@,
                is_dir: s[i].is_dir,
                size: s[i].size,
            },
    )
}

/// The whole listing of a directory: staged files come before what the device
/// shows under the same name.
pub open spec fn full_listing(v: VolumeView, dirid: u64, children: Seq<ChildView>) -> Seq<
    ChildView,
> {
    deduped(sorted(staged_children(v.staged, dirid) + children))
}

/// The entry for a child.
pub open spec fn dir_entry(v: VolumeView, c: ChildView) -> DirEntryView {
    DirEntryView { fileid: c.id, name: c.name, attr: attr_of(c.id, c.is_dir, c.size, v.epoch) }
}

/// A page of a directory.
pub open spec fn page_reply(
    v: VolumeView,
    dirid: u64,
    children: Seq<ChildView>,
    start_after: u64,
    max_entries: usize,
) -> VolPlan {
    let all = full_listing(v, dirid, children);
    VolPlan::Done(
        Ok(
            VolReplyView::Dir {
                entries: page(all, start_after, max_entries as nat).map_values(
                    |c: ChildView| dir_entry(v, c),
                ),
                end: is_last_page(all, start_after, max_entries as nat),
            },
        ),
    )
}

/// READDIR.
pub open spec fn readdir_plan(
    v: VolumeView,
    dirid: u64,
    start_after: u64,
    max_entries: usize,
) -> VolPlan {
    match kind_of(dirid) {
        None => refuse(NfsStat::Badhandle),
        Some(Kind::DeviceRoot) => page_reply(
            v,
            dirid,
            storage_children(v.storages),
            start_after,
            max_entries,
        ),
        Some(Kind::StorageRoot(i)) => on_device(
            v,
            VolPlan::List {
                storage: i,
                dir: ROOT,
                after: OnListView::ReadDir { storage: i, dirid, start_after, max_entries },
            },
        ),
        Some(Kind::Real(d)) => on_device(
            v,
            VolPlan::List {
                storage: d.storage_index,
                dir: d.handle,
                after: OnListView::ReadDir {
                    storage: d.storage_index,
                    dirid,
                    start_after,
                    max_entries,
                },
            },
        ),
    }
}

// ---------------------------------------------------------------------------
// Committing
// ---------------------------------------------------------------------------

/// COMMIT: what is not staged, or not changed since it was flushed, is on the
/// device already. Anything else replaces the copy on the device.
pub open spec fn commit_plan(v: VolumeView, now: u64, id: u64) -> VolPlan {
    if !v.writable {
        refuse(NfsStat::Rofs)
    } else {
        match stage_of(v.staged, id) {
            Some(s) if s.dirty => match dir_of(s.parent_id) {
                None => refuse(NfsStat::Inval),
                Some((storage, parent)) => on_device(
                    v,
                    match device_copy(s) {
                        Some(handle) => VolPlan::Delete {
                            storage,
                            handle,
                            after: OnDeleteView::Flush {
                                id,
                                storage,
                                parent,
                                name: s.name,
                                size: s.size,
                            },
                        },
                        None => VolPlan::Upload { id, storage, parent, name: s.name, size: s.size },
                    },
                ),
            },
            _ => getattr_plan(v, now, id),
        }
    }
}

/// The stage `s` after its contents were uploaded as `handle`.
pub open spec fn flushed_stage(s: StageView, storage: usize, handle: u64, size: u64) -> StageView {
    StageView {
        origin_dev: None,
        flushed_dev: Some(handle),
        storage_index: storage,
        dirty: false,
        size,
        ..s
    }
}

// ---------------------------------------------------------------------------
// Answers
// ---------------------------------------------------------------------------

/// What follows a listing of the device.
pub open spec fn listed_turn(
    v: VolumeView,
    after: OnListView,
    r: std::result::Result<Seq<Entry>, ErrorView>,
) -> Turn {
    match after {
        OnListView::Exclusive { dirid, name, .. } => match r {
            Ok(children) if child_named(children, name) is Some => (v, refuse(NfsStat::Exist)),
            _ => stage_new(v, dirid, name, NextView::Exclusive),
        },
        OnListView::New { storage, dirid, name, next } => stage_listed(
            v,
            storage,
            dirid,
            name,
            next,
            r,
        ),
        _ => (
            v,
            match r {
                Err(e) => refuse(status_of(e)),
                Ok(children) => with_listing(v, after, children),
            },
        ),
    }
}

/// What follows a listing, for the operations that need one.
pub open spec fn with_listing(v: VolumeView, after: OnListView, children: Seq<Entry>) -> VolPlan {
    match after {
        OnListView::Lookup { storage, name } => match listed_id(storage, children, name) {
            Ok(id) => VolPlan::Done(Ok(VolReplyView::Id(id))),
            Err(s) => refuse(s),
        },
        OnListView::Remove { storage, name } => match listed_id(storage, children, name) {
            Ok(id) => remove_object(v, id),
            Err(s) => refuse(s),
        },
        OnListView::Rename { storage, from_dirid, from_name, to_dirid, to_name } => match listed_id(
            storage,
            children,
            from_name,
        ) {
            Ok(id) => rename_object(v, id, from_dirid, from_name, to_dirid, to_name),
            Err(s) => refuse(s),
        },
        OnListView::ReadDir { storage, dirid, start_after, max_entries } => if all_encodable(
            storage,
            children,
        ) {
            page_reply(v, dirid, entry_children(storage, children), start_after, max_entries)
        } else {
            refuse(NfsStat::Badhandle)
        },
        _ => refuse(NfsStat::Io),
    }
}

/// The id of the directory `parent` of a storage.
pub open spec fn dir_id(storage: usize, parent: u64) -> Option<u64> {
    if storage >= STORAGE_BOUND {
        None
    } else if parent == ROOT {
        Some((STORAGE_BASE_ID + storage) as u64)
    } else {
        encoded(storage, parent)
    }
}

/// What follows the metadata of a device object.
pub open spec fn informed_turn(
    v: VolumeView,
    now: u64,
    after: OnInfoView,
    r: std::result::Result<Entry, ErrorView>,
) -> Turn {
    match (after, r) {
        (OnInfoView::Rejected { error, .. }, Err(_)) => (v, refuse(status_of(error))),
        (_, Err(e)) => (v, refuse(status_of(e))),
        (OnInfoView::Attr { id }, Ok(e)) => (
            VolumeView {
                attrs: v.attrs.insert(id, AttrEntry { size: e.size, is_dir: e.is_dir, at: now }),
                ..v
            },
            VolPlan::Done(Ok(VolReplyView::Attr(attr_of(id, e.is_dir, e.size, v.epoch)))),
        ),
        (OnInfoView::Stage { id, storage, handle, next }, Ok(e)) => (
            v,
            if e.is_dir {
                refuse(NfsStat::Isdir)
            } else {
                match dir_id(storage, e.parent) {
                    None => refuse(NfsStat::Badhandle),
                    Some(parent_id) => pull_start(
                        v,
                        PullView {
                            id,
                            storage,
                            handle,
                            name: e.name@,
                            parent_id,
                            size: e.size,
                            off: 0,
                            next,
                        },
                    ),
                }
            },
        ),
        (OnInfoView::New { id, storage, handle, dirid, next }, Ok(e)) => (
            v,
            if e.is_dir {
                refuse(NfsStat::Exist)
            } else {
                pull_start(
                    v,
                    PullView {
                        id,
                        storage,
                        handle,
                        name: e.name@,
                        parent_id: dirid,
                        size: e.size,
                        off: 0,
                        next,
                    },
                )
            },
        ),
        (OnInfoView::Short { offset, data }, Ok(e)) => if e.is_dir {
            (v, refuse(NfsStat::Isdir))
        } else {
            (received(v, data.len()), data_reply(offset, data, e.size))
        },
        (OnInfoView::Rejected { storage, handle, offset, count, .. }, Ok(e)) => (
            v,
            if e.is_dir {
                refuse(NfsStat::Isdir)
            } else if offset >= e.size {
                VolPlan::Done(Ok(VolReplyView::Data { bytes: Seq::empty(), eof: true }))
            } else {
                on_device(
                    v,
                    VolPlan::Read {
                        storage,
                        handle,
                        offset,
                        count: if e.size - offset < count {
                            (e.size - offset) as u32
                        } else {
                            count
                        },
                        after: OnReadView::Clamped { offset, size: e.size },
                    },
                )
            },
        ),
    }
}

/// What follows a range of a device object.
pub open spec fn read_turn(
    v: VolumeView,
    after: OnReadView,
    r: std::result::Result<Seq<u8>, ErrorView>,
) -> Turn {
    match after {
        OnReadView::First { storage, handle, offset, count } => match r {
            Ok(data) => if data.len() == count {
                (
                    received(v, data.len()),
                    VolPlan::Done(Ok(VolReplyView::Data { bytes: data, eof: false })),
                )
            } else {
                (
                    v,
                    on_device(
                        v,
                        VolPlan::Info { storage, handle, after: OnInfoView::Short { offset, data } },
                    ),
                )
            },
            Err(error) => (
                v,
                on_device(
                    v,
                    VolPlan::Info {
                        storage,
                        handle,
                        after: OnInfoView::Rejected { error, storage, handle, offset, count },
                    },
                ),
            ),
        },
        OnReadView::Clamped { offset, size } => match r {
            Ok(data) => (received(v, data.len()), data_reply(offset, data, size)),
            Err(e) => (v, refuse(status_of(e))),
        },
        OnReadView::Pull(p) => match r {
            Ok(data) => if data.len() == 0 {
                (v, VolPlan::Length { pull: p })
            } else {
                (received(v, data.len()), VolPlan::Store { pull: p, data })
            },
            Err(e) => (v, refuse(status_of(e))),
        },
    }
}

/// What follows a piece of `len` bytes in the staging file.
pub open spec fn stored_plan(v: VolumeView, p: PullView, len: nat, ok: bool) -> VolPlan {
    if ok {
        pull_more(v, PullView { off: range_end(p.off, len), ..p })
    } else {
        refuse(NfsStat::Io)
    }
}

/// What follows the length of the staging file: only a file that is complete is
/// staged.
pub open spec fn length_turn(v: VolumeView, p: PullView, length: Option<u64>) -> Turn {
    match length {
        None => (v, refuse(NfsStat::Io)),
        Some(n) => if n != p.size {
            (v, VolPlan::Discard { id: p.id, ok: false })
        } else {
            let w = VolumeView { staged: with_stage(v.staged, pulled_stage(p)), ..v };
            (w, staged_next(w, pulled_stage(p), p.next))
        },
    }
}

/// What follows a new staging file.
pub open spec fn new_file_turn(v: VolumeView, id: u64, after: OnNewFileView, ok: bool) -> Turn {
    if !ok {
        (v, refuse(NfsStat::Io))
    } else {
        match after {
            OnNewFileView::Pull(p) => (v, pull_more(v, p)),
            OnNewFileView::Fresh { dirid, name, next } => {
                let s = fresh_stage(id, dirid, name);
                let w = VolumeView { staged: with_stage(v.staged, s), ..v };
                (w, staged_next(w, s, next))
            },
        }
    }
}

/// What follows a change of the length of a staging file.
pub open spec fn set_len_turn(v: VolumeView, id: u64, size: u64, create: bool, ok: bool) -> Turn {
    if !ok {
        (v, refuse(NfsStat::Io))
    } else {
        match stage_of(v.staged, id) {
            None => (v, refuse(NfsStat::Noent)),
            Some(s) => {
                let t = StageView { size, dirty: true, ..s };
                let attr = stage_attr(v, t);
                (
                    restaged(v, with_stage(v.staged, t)),
                    VolPlan::Done(
                        Ok(
                            if create {
                                VolReplyView::Created { id, attr }
                            } else {
                                VolReplyView::Attr(attr)
                            },
                        ),
                    ),
                )
            },
        }
    }
}

/// The stage `s` after `len` bytes were written at `offset`.
pub open spec fn written_stage(s: StageView, offset: u64, len: nat) -> StageView {
    StageView {
        size: if s.size >= range_end(offset, len) {
            s.size
        } else {
            range_end(offset, len)
        },
        dirty: true,
        ..s
    }
}

/// What follows a write into a staging file. What was written is not durable
/// before it is committed, whatever the client asked for.
pub open spec fn written_turn(v: VolumeView, id: u64, offset: u64, len: usize, ok: bool) -> Turn {
    if !ok {
        (v, refuse(NfsStat::Io))
    } else {
        match stage_of(v.staged, id) {
            None => (v, refuse(NfsStat::Noent)),
            Some(s) => {
                let t = written_stage(s, offset, len as nat);
                (
                    restaged(v, with_stage(v.staged, t)),
                    VolPlan::Done(
                        Ok(
                            VolReplyView::Written {
                                attr: stage_attr(v, t),
                                stability: Stability::Unstable,
                                count: len as u32,
                            },
                        ),
                    ),
                )
            },
        }
    }
}

/// What follows a read from a staging file of `total` bytes.
pub open spec fn local_read_plan(offset: u64, r: Option<(Seq<u8>, u64)>) -> VolPlan {
    match r {
        None => refuse(NfsStat::Io),
        Some((data, total)) => data_reply(offset, data, total),
    }
}

/// What follows a deletion on the device. A stage is given up only when the
/// device has dropped its copy; a flush goes on even when there was nothing to
/// delete.
pub open spec fn deleted_turn(
    v: VolumeView,
    after: OnDeleteView,
    r: std::result::Result<(), ErrorView>,
) -> Turn {
    match after {
        OnDeleteView::Flush { id, storage, parent, name, size } => (
            v,
            on_device(v, VolPlan::Upload { id, storage, parent, name, size }),
        ),
        OnDeleteView::Staged { id } => match r {
            Err(e) => (v, refuse(status_of(e))),
            Ok(_) => (
                restaged(v, without_stage(v.staged, id)),
                VolPlan::Discard { id, ok: true },
            ),
        },
        OnDeleteView::Object { id } => match r {
            Err(e) => (v, refuse(status_of(e))),
            Ok(_) => if stage_of(v.staged, id) is Some {
                (
                    restaged(v, without_stage(v.staged, id)),
                    VolPlan::Discard { id, ok: true },
                )
            } else {
                (cleared(v), VolPlan::Done(Ok(VolReplyView::Nothing)))
            },
        },
    }
}

/// What follows the upload of a staging file. The stage stays, clean and with its
/// staging file: reads are still served from it, a client that goes on writing
/// finds its data there, and a second commit has nothing to send. The file goes
/// when the stage goes.
pub open spec fn uploaded_turn(
    v: VolumeView,
    now: u64,
    id: u64,
    storage: usize,
    size: u64,
    r: std::result::Result<u64, ErrorView>,
) -> Turn {
    match r {
        Err(e) => (v, refuse(status_of(e))),
        Ok(handle) => {
            let u = sent(v, size);
            let w = match stage_of(v.staged, id) {
                Some(s) => restaged(
                    u,
                    with_stage(v.staged, flushed_stage(s, storage, handle, size)),
                ),
                None => u,
            };
            (w, getattr_plan(w, now, id))
        },
    }
}

/// What follows a new directory on the device.
pub open spec fn made_dir_turn(
    v: VolumeView,
    storage: usize,
    r: std::result::Result<u64, ErrorView>,
) -> Turn {
    match r {
        Err(e) => (v, refuse(status_of(e))),
        Ok(handle) => match encoded(storage, handle) {
            None => (v, refuse(NfsStat::Badhandle)),
            Some(id) => (
                cleared(v),
                VolPlan::Done(
                    Ok(VolReplyView::Created { id, attr: attr_of(id, true, 0, v.epoch) }),
                ),
            ),
        },
    }
}

/// What follows a rename on the device: a stage keeps up with it.
pub open spec fn renamed_turn(
    v: VolumeView,
    id: u64,
    to_dirid: u64,
    to_name: Seq<char>,
    r: std::result::Result<(), ErrorView>,
) -> Turn {
    match r {
        Err(e) => (v, refuse(status_of(e))),
        Ok(_) => (
            match stage_of(v.staged, id) {
                Some(s) => restaged(
                    v,
                    with_stage(v.staged, renamed_stage(s, to_dirid, to_name)),
                ),
                None => cleared(v),
            },
            VolPlan::Done(Ok(VolReplyView::Nothing)),
        ),
    }
}

/// What follows the deletion of a staging file.
pub open spec fn discarded_plan(ok: bool) -> VolPlan {
    if ok {
        VolPlan::Done(Ok(VolReplyView::Nothing))
    } else {
        refuse(NfsStat::Io)
    }
}

// ---------------------------------------------------------------------------
// Executing the requests
// ---------------------------------------------------------------------------

fn refused(s: NfsStat) -> (r: VolStep)
    ensures
        r@ == refuse(s),
{
    VolStep::Done(Err(s))
}

fn end_of(offset: u64, len: usize) -> (r: u64)
    ensures
        r == range_end(offset, len as nat),
{
    offset.saturating_add(len as u64)
}

fn reply_data(offset: u64, data: Vec<u8>, size: u64) -> (r: VolStep)
    ensures
        r@ == data_reply(offset, data@, size),
{
    let eof = end_of(offset, data.len()) >= size;
    VolStep::Done(Ok(VolReply::Data { bytes: data, eof }))
}

fn used_space(s: &StorageSummary) -> (r: u64)
    ensures
        r == space_used(*s),
{
    s.capacity.saturating_sub(s.free)
}

impl Volume {
    /// A volume without a device session.
    pub fn new_detached(writable: bool, epoch: u32) -> (r: Self)
        ensures
            r@ == (VolumeView {
                storages: Seq::empty(),
                attached: false,
                wanted: writable,
                writable,
                epoch,
                staged: Seq::empty(),
                virt_seq: 0,
                attrs: Map::empty(),
                stats: Stats { rx: 0, tx: 0 },
            }),
    {
        let r = Volume {
            storages: Vec::new(),
            attached: false,
            wanted: writable,
            writable,
            epoch,
            staged: Vec::new(),
            virt_seq: 0,
            attrs: HashMap::new(),
            stats: Stats { rx: 0, tx: 0 },
        };
        assert(r@.staged =~= Seq::empty());
        r
    }

    /// A new session is there. It may number storages and objects anew, so the
    /// cached attributes go. A volume that was not asked to be read-only takes
    /// changes when the device does.
    pub fn attach(&mut self, storages: Vec<StorageSummary>)
        ensures
            final(self)@ == (VolumeView {
                storages: storages@,
                attached: true,
                writable: old(self)@.wanted && takes_changes(storages@),
                ..cleared(old(self)@)
            }),
    {
        self.writable = self.wanted && device_takes_changes(&storages);
        self.storages = storages;
        self.clear_attrs();
        self.attached = true;
    }

    /// The session is gone; staged files stay.
    pub fn detach(&mut self)
        ensures
            final(self)@ == (VolumeView { attached: false, ..old(self)@ }),
    {
        self.attached = false;
    }

    /// True while a session is installed.
    #[must_use]
    pub fn is_attached(&self) -> (r: bool)
        ensures
            r == self@.attached,
    {
        self.attached
    }

    /// True when the volume takes changes.
    #[must_use]
    pub fn is_writable(&self) -> (r: bool)
        ensures
            r == self@.writable,
    {
        self.writable
    }

    /// The bytes transferred so far.
    #[must_use]
    pub fn stats(&self) -> (r: Stats)
        ensures
            r == self@.stats,
    {
        self.stats
    }

    /// The generation of the file handles, in a process with the given tag.
    #[must_use]
    pub fn generation(&self, tag: u32) -> (r: u64)
        ensures
            r == self@.epoch * 0x1_0000_0000 + tag,
    {
        generation_of(self.epoch, tag)
    }

    fn clear_attrs(&mut self)
        ensures
            final(self)@ == cleared(old(self)@),
    {
        broadcast use vstd::std_specs::hash::group_hash_axioms;

        self.attrs.clear();
        assert(self@ =~= cleared(old(self)@));
    }

    fn count_rx(&mut self, n: usize)
        ensures
            final(self)@ == received(old(self)@, n as nat),
    {
        let s = self.stats;
        self.stats = Stats { rx: s.rx.wrapping_add(n as u64), tx: s.tx };
    }

    fn find_stage(&self, id: u64) -> (r: Option<usize>)
        ensures
            match r {
                Some(i) => i < self.staged@.len() && stage_place(self@.staged, id, 0) == Some(
                    i as nat,
                ) && stage_of(self@.staged, id) == Some(self.staged@[i as int]@)
                    && self.staged@[i as int].id == id,
                None => stage_place(self@.staged, id, 0) is None && stage_of(
                    self@.staged,
                    id,
                ) is None,
            },
    {
        let mut i: usize = 0;
        while i < self.staged.len()
            invariant
                i <= self.staged.len(),
                stage_place(self@.staged, id, 0) == stage_place(self@.staged, id, i as nat),
            decreases self.staged.len() - i,
        {
            assert(self@.staged[i as int] == self.staged@[i as int]@);
            if self.staged[i].id == id {
                return Some(i);
            }
            i = i + 1;
        }
        None
    }

    fn put_stage(&mut self, s: Stage)
        ensures
            final(self)@ == (VolumeView {
                staged: with_stage(old(self)@.staged, s@),
                ..old(self)@
            }),
    {
        let ghost before = self@;
        let ghost x = s@;
        match self.find_stage(s.id) {
            Some(i) => {
                self.staged.set(i, s);
                assert(self@.staged =~= before.staged.update(i as int, x));
            },
            None => {
                self.staged.push(s);
                assert(self@.staged =~= before.staged.push(x));
            },
        }
    }

    fn drop_stage(&mut self, id: u64)
        ensures
            final(self)@ == (VolumeView {
                staged: without_stage(old(self)@.staged, id),
                ..old(self)@
            }),
    {
        let ghost before = self@;
        if let Some(i) = self.find_stage(id) {
            self.staged.remove(i);
            assert(self@.staged =~= before.staged.remove(i as int));
        }
    }

    fn staged_lookup(&self, dirid: u64, name: &str) -> (r: Option<u64>)
        ensures
            r == staged_named(self@.staged, dirid, name@),
    {
        let mut i: usize = 0;
        assert(self@.staged.skip(0) =~= self@.staged);
        while i < self.staged.len()
            invariant
                i <= self.staged.len(),
                staged_named(self@.staged, dirid, name@) == staged_named(
                    self@.staged.skip(i as int),
                    dirid,
                    name@,
                ),
            decreases self.staged.len() - i,
        {
            assert(self@.staged[i as int] == self.staged@[i as int]@);
            assert(self@.staged.skip(i as int).drop_first() =~= self@.staged.skip(i + 1));
            if self.staged[i].parent_id == dirid && names_eq_ci(
                self.staged[i].name.as_str(),
                name,
            ) {
                return Some(self.staged[i].id);
            }
            i = i + 1;
        }
        None
    }

    fn device_handle_of(&self, id: u64) -> (r: Option<(usize, u64)>)
        ensures
            r == device_object(self@, id),
    {
        if let Some(i) = self.find_stage(id) {
            if let Some(h) = self.staged[i].flushed_dev {
                return Some((self.staged[i].storage_index, h));
            }
        }
        match decode(id) {
            Some(Kind::Real(d)) => Some((d.storage_index, d.handle)),
            _ => None,
        }
    }

    fn find(&self, dirid: u64, name: &str) -> (r: Find)
        ensures
            r == find_name(self@, dirid, name@),
    {
        if let Some(id) = self.staged_lookup(dirid, name) {
            return Find::Found(id);
        }
        match decode(dirid) {
            None => Find::Fail(NfsStat::Badhandle),
            Some(Kind::DeviceRoot) => {
                let mut i: usize = 0;
                while i < self.storages.len()
                    invariant
                        i <= self.storages.len(),
                        storage_at(self@.storages, name@, 0) == storage_at(
                            self@.storages,
                            name@,
                            i as nat,
                        ),
                        staged_named(self@.staged, dirid, name@) is None,
                        kind_of(dirid) == Some(Kind::DeviceRoot),
                    decreases self.storages.len() - i,
                {
                    let number = dec_string(i as u64 + 1);
                    if names_eq_ci(self.storages[i].description.as_str(), name) || same_text(
                        name,
                        number.as_str(),
                    ) {
                        return Find::Found(STORAGE_BASE_ID.saturating_add(i as u64));
                    }
                    i = i + 1;
                }
                Find::Fail(NfsStat::Noent)
            },
            Some(Kind::StorageRoot(i)) => {
                if self.attached {
                    Find::Ask { storage: i, dir: ROOT }
                } else {
                    Find::Fail(NfsStat::Io)
                }
            },
            Some(Kind::Real(d)) => {
                if self.attached {
                    Find::Ask { storage: d.storage_index, dir: d.handle }
                } else {
                    Find::Fail(NfsStat::Io)
                }
            },
        }
    }

    /// LOOKUP: the id of the file `filename` of `dirid`.
    pub fn lookup(&self, dirid: u64, filename: &[u8]) -> (r: VolStep)
        ensures
            r@ == lookup_plan(self@, dirid, lossy_of(filename@)),
    {
        let name = lossy_text(filename);
        match self.find(dirid, name.as_str()) {
            Find::Found(id) => VolStep::Done(Ok(VolReply::Id(id))),
            Find::Fail(s) => refused(s),
            Find::Ask { storage, dir } => VolStep::List {
                storage,
                dir,
                after: OnList::Lookup { storage, name },
            },
        }
    }

    /// GETATTR.
    pub fn getattr(&self, id: u64, now: u64) -> (r: VolStep)
        ensures
            r@ == getattr_plan(self@, now, id),
    {
        broadcast use vstd::std_specs::hash::group_hash_axioms;

        if let Some(i) = self.find_stage(id) {
            let attr = attr_for(id, false, self.staged[i].size, self.epoch);
            return VolStep::Done(Ok(VolReply::Attr(attr)));
        }
        match decode(id) {
            None => refused(NfsStat::Badhandle),
            Some(Kind::DeviceRoot) => VolStep::Done(
                Ok(VolReply::Attr(attr_for(id, true, 0, self.epoch))),
            ),
            Some(Kind::StorageRoot(i)) => {
                if i < self.storages.len() {
                    let size = used_space(&self.storages[i]);
                    VolStep::Done(Ok(VolReply::Attr(attr_for(id, true, size, self.epoch))))
                } else {
                    refused(NfsStat::Badhandle)
                }
            },
            Some(Kind::Real(d)) => {
                if let Some(a) = self.attrs.get(&id) {
                    if now <= a.at || now - a.at <= ATTR_TTL {
                        let attr = attr_for(id, a.is_dir, a.size, self.epoch);
                        return VolStep::Done(Ok(VolReply::Attr(attr)));
                    }
                }
                if !self.attached {
                    return refused(NfsStat::Io);
                }
                VolStep::Info {
                    storage: d.storage_index,
                    handle: d.handle,
                    after: OnInfo::Attr { id },
                }
            },
        }
    }

    fn staged_next(&self, i: usize, next: Next) -> (r: VolStep)
        requires
            i < self@.staged.len(),
        ensures
            r@ == staged_next(self@, self@.staged[i as int], next@),
    {
        assert(self@.staged[i as int] == self.staged@[i as int]@);
        let id = self.staged[i].id;
        match next {
            Next::SetLen { size } => VolStep::SetLen { id, size, create: false },
            Next::Write { offset, data } => VolStep::WriteAt { id, offset, data },
            Next::Create { size } => match size {
                Some(n) => VolStep::SetLen { id, size: n, create: true },
                None => {
                    let attr = attr_for(id, false, self.staged[i].size, self.epoch);
                    VolStep::Done(Ok(VolReply::Created { id, attr }))
                },
            },
            Next::Exclusive => VolStep::Done(Ok(VolReply::Id(id))),
        }
    }

    fn pull_more(&self, p: Pull) -> (r: VolStep)
        ensures
            r@ == pull_more(self@, p@),
    {
        if p.off < p.size {
            if !self.attached {
                return refused(NfsStat::Io);
            }
            let left: u64 = p.size - p.off;
            let count: u32 = if left < CHUNK as u64 {
                left as u32
            } else {
                CHUNK
            };
            VolStep::Read {
                storage: p.storage,
                handle: p.handle,
                offset: p.off,
                count,
                after: OnRead::Pull(p),
            }
        } else {
            VolStep::Length { pull: p }
        }
    }

    fn pull_start(&self, p: Pull) -> (r: VolStep)
        ensures
            r@ == pull_start(self@, p@),
    {
        match self.find_stage(p.id) {
            Some(i) => self.staged_next(i, p.next),
            None => {
                let id = p.id;
                VolStep::NewFile { id, after: OnNewFile::Pull(p) }
            },
        }
    }

    fn stage_for_writes(&self, id: u64, next: Next) -> (r: VolStep)
        ensures
            r@ == stage_for_writes(self@, id, next@),
    {
        if !self.writable {
            return refused(NfsStat::Rofs);
        }
        if let Some(i) = self.find_stage(id) {
            return self.staged_next(i, next);
        }
        match decode(id) {
            Some(Kind::Real(d)) => {
                if !self.attached {
                    return refused(NfsStat::Io);
                }
                VolStep::Info {
                    storage: d.storage_index,
                    handle: d.handle,
                    after: OnInfo::Stage {
                        id,
                        storage: d.storage_index,
                        handle: d.handle,
                        next,
                    },
                }
            },
            _ => refused(NfsStat::Noent),
        }
    }

    fn brand_new(&mut self, dirid: u64, name: String, next: Next) -> (r: VolStep)
        ensures
            (final(self)@, r@) == brand_new(old(self)@, dirid, name@, next@),
    {
        if self.virt_seq >= VIRT_FLAG - 1 {
            return refused(NfsStat::Io);
        }
        self.virt_seq = self.virt_seq + 1;
        VolStep::NewFile {
            id: VIRT_FLAG | self.virt_seq,
            after: OnNewFile::Fresh { dirid, name, next },
        }
    }

    fn stage_new(&mut self, dirid: u64, name: String, next: Next) -> (r: VolStep)
        ensures
            (final(self)@, r@) == stage_new(old(self)@, dirid, name@, next@),
    {
        if !self.writable {
            return refused(NfsStat::Rofs);
        }
        if parent_handle_of(dirid).is_none() {
            return refused(NfsStat::Inval);
        }
        let c = chars_of(name.as_str());
        if has_char(&c, '/') || trim_chars(&c).len() == 0 {
            return refused(NfsStat::Inval);
        }
        if let Some(id) = self.staged_lookup(dirid, name.as_str()) {
            return match self.find_stage(id) {
                Some(i) => self.staged_next(i, next),
                None => refused(NfsStat::Noent),
            };
        }
        match self.find(dirid, name.as_str()) {
            Find::Ask { storage, dir } => VolStep::List {
                storage,
                dir,
                after: OnList::New { storage, dirid, name, next },
            },
            _ => self.brand_new(dirid, name, next),
        }
    }

    fn stage_listed(
        &mut self,
        storage: usize,
        dirid: u64,
        name: String,
        next: Next,
        r: Result<Vec<Entry>>,
    ) -> (step: VolStep)
        ensures
            (final(self)@, step@) == stage_listed(
                old(self)@,
                storage,
                dirid,
                name@,
                next@,
                listing_answer(r),
            ),
    {
        match r {
            Err(_) => self.brand_new(dirid, name, next),
            Ok(children) => match id_in_listing(storage, &children, name.as_str()) {
                Err(s) => {
                    if s == NfsStat::Noent {
                        self.brand_new(dirid, name, next)
                    } else {
                        refused(s)
                    }
                },
                Ok(id) => match self.device_handle_of(id) {
                    None => self.brand_new(dirid, name, next),
                    Some((i, h)) => {
                        if !self.attached {
                            return refused(NfsStat::Io);
                        }
                        VolStep::Info {
                            storage: i,
                            handle: h,
                            after: OnInfo::New { id, storage: i, handle: h, dirid, next },
                        }
                    },
                },
            },
        }
    }

    /// SETATTR with the size to set, if any.
    pub fn setattr(&self, id: u64, size: Option<u64>, now: u64) -> (r: VolStep)
        ensures
            r@ == setattr_plan(self@, now, id, size),
    {
        if !self.writable {
            return refused(NfsStat::Rofs);
        }
        match size {
            None => self.getattr(id, now),
            Some(n) => self.stage_for_writes(id, Next::SetLen { size: n }),
        }
    }

    /// READ.
    pub fn read(&self, id: u64, offset: u64, count: u32) -> (r: VolStep)
        ensures
            r@ == read_plan(self@, id, offset, count),
    {
        if self.find_stage(id).is_some() {
            return VolStep::ReadAt { id, offset, count };
        }
        match decode(id) {
            Some(Kind::Real(d)) => {
                if !self.attached {
                    return refused(NfsStat::Io);
                }
                VolStep::Read {
                    storage: d.storage_index,
                    handle: d.handle,
                    offset,
                    count,
                    after: OnRead::First {
                        storage: d.storage_index,
                        handle: d.handle,
                        offset,
                        count,
                    },
                }
            },
            _ => refused(NfsStat::Isdir),
        }
    }

    /// WRITE. The durability that the client asks for makes no difference: see
    /// [`Volume::written`].
    pub fn write(&self, id: u64, offset: u64, data: Vec<u8>, _stable: Stability) -> (r: VolStep)
        ensures
            r@ == stage_for_writes(self@, id, NextView::Write { offset, data: data@ }),
    {
        self.stage_for_writes(id, Next::Write { offset, data })
    }

    /// CREATE, with the size to set, if any. A file that exists keeps its
    /// contents.
    pub fn create(&mut self, dirid: u64, filename: &[u8], size: Option<u64>) -> (r: VolStep)
        ensures
            (final(self)@, r@) == stage_new(
                old(self)@,
                dirid,
                lossy_of(filename@),
                NextView::Create { size },
            ),
    {
        let name = lossy_text(filename);
        self.stage_new(dirid, name, Next::Create { size })
    }

    /// CREATE of a file that must not exist.
    pub fn create_exclusive(&mut self, dirid: u64, filename: &[u8]) -> (r: VolStep)
        ensures
            (final(self)@, r@) == exclusive_turn(old(self)@, dirid, lossy_of(filename@)),
    {
        let name = lossy_text(filename);
        match self.find(dirid, name.as_str()) {
            Find::Found(_) => refused(NfsStat::Exist),
            Find::Fail(_) => self.stage_new(dirid, name, Next::Exclusive),
            Find::Ask { storage, dir } => VolStep::List {
                storage,
                dir,
                after: OnList::Exclusive { storage, dirid, name },
            },
        }
    }

    /// MKDIR.
    pub fn mkdir(&self, dirid: u64, dirname: &[u8]) -> (r: VolStep)
        ensures
            r@ == mkdir_plan(self@, dirid, lossy_of(dirname@)),
    {
        if !self.writable {
            return refused(NfsStat::Rofs);
        }
        let name = lossy_text(dirname);
        match parent_handle_of(dirid) {
            None => refused(NfsStat::Inval),
            Some((storage, parent)) => {
                if !self.attached {
                    return refused(NfsStat::Io);
                }
                VolStep::Mkdir { storage, parent, name }
            },
        }
    }

    fn remove_object(&self, id: u64) -> (r: VolStep)
        ensures
            r@ == remove_object(self@, id),
    {
        match self.device_handle_of(id) {
            None => refused(NfsStat::Noent),
            Some((storage, handle)) => {
                if !self.attached {
                    return refused(NfsStat::Io);
                }
                VolStep::Delete { storage, handle, after: OnDelete::Object { id } }
            },
        }
    }

    /// REMOVE.
    pub fn remove(&mut self, dirid: u64, filename: &[u8]) -> (r: VolStep)
        ensures
            (final(self)@, r@) == remove_turn(old(self)@, dirid, lossy_of(filename@)),
    {
        if !self.writable {
            return refused(NfsStat::Rofs);
        }
        let name = lossy_text(filename);
        if let Some(id) = self.staged_lookup(dirid, name.as_str()) {
            return match self.find_stage(id) {
                None => VolStep::Done(Ok(VolReply::Nothing)),
                Some(i) => match self.staged[i].device_copy() {
                    Some(handle) => {
                        if !self.attached {
                            return refused(NfsStat::Io);
                        }
                        VolStep::Delete {
                            storage: self.staged[i].storage_index,
                            handle,
                            after: OnDelete::Staged { id },
                        }
                    },
                    None => {
                        self.drop_stage(id);
                        self.clear_attrs();
                        VolStep::Discard { id, ok: true }
                    },
                },
            };
        }
        match self.find(dirid, name.as_str()) {
            Find::Found(id) => self.remove_object(id),
            Find::Fail(s) => refused(s),
            Find::Ask { storage, dir } => VolStep::List {
                storage,
                dir,
                after: OnList::Remove { storage, name },
            },
        }
    }

    fn rename_object(
        &self,
        id: u64,
        from_dirid: u64,
        from_name: String,
        to_dirid: u64,
        to_name: String,
    ) -> (r: VolStep)
        ensures
            r@ == rename_object(self@, id, from_dirid, from_name@, to_dirid, to_name@),
    {
        let storage = match self.device_handle_of(id) {
            None => {
                return refused(NfsStat::Noent);
            },
            Some((storage, _)) => storage,
        };
        match (parent_handle_of(from_dirid), parent_handle_of(to_dirid)) {
            (Some((i, from)), Some((j, to))) => {
                if i != j {
                    return refused(NfsStat::Inval);
                }
                if !self.attached {
                    return refused(NfsStat::Io);
                }
                VolStep::Rename { storage, from, from_name, to, to_name, id, to_dirid }
            },
            _ => refused(NfsStat::Inval),
        }
    }

    /// RENAME.
    pub fn rename(
        &mut self,
        from_dirid: u64,
        from_filename: &[u8],
        to_dirid: u64,
        to_filename: &[u8],
    ) -> (r: VolStep)
        ensures
            (final(self)@, r@) == rename_turn(
                old(self)@,
                from_dirid,
                lossy_of(from_filename@),
                to_dirid,
                lossy_of(to_filename@),
            ),
    {
        if !self.writable {
            return refused(NfsStat::Rofs);
        }
        let from_name = lossy_text(from_filename);
        let to_name = lossy_text(to_filename);
        if let Some(id) = self.staged_lookup(from_dirid, from_name.as_str()) {
            if let Some(i) = self.find_stage(id) {
                if self.staged[i].device_copy().is_none() {
                    let mut s = self.staged[i].copy();
                    s.parent_id = to_dirid;
                    s.name = to_name;
                    self.put_stage(s);
                    self.clear_attrs();
                    return VolStep::Done(Ok(VolReply::Nothing));
                }
            }
        }
        match self.find(from_dirid, from_name.as_str()) {
            Find::Found(id) => self.rename_object(id, from_dirid, from_name, to_dirid, to_name),
            Find::Fail(s) => refused(s),
            Find::Ask { storage, dir } => VolStep::List {
                storage,
                dir,
                after: OnList::Rename { storage, from_dirid, from_name, to_dirid, to_name },
            },
        }
    }

    /// COMMIT.
    pub fn commit(&self, id: u64, now: u64) -> (r: VolStep)
        ensures
            r@ == commit_plan(self@, now, id),
    {
        if !self.writable {
            return refused(NfsStat::Rofs);
        }
        let i = match self.find_stage(id) {
            None => {
                return self.getattr(id, now);
            },
            Some(i) => i,
        };
        if !self.staged[i].dirty {
            return self.getattr(id, now);
        }
        match parent_handle_of(self.staged[i].parent_id) {
            None => refused(NfsStat::Inval),
            Some((storage, parent)) => {
                if !self.attached {
                    return refused(NfsStat::Io);
                }
                let name = self.staged[i].name.clone();
                let size = self.staged[i].size;
                match self.staged[i].device_copy() {
                    Some(handle) => VolStep::Delete {
                        storage,
                        handle,
                        after: OnDelete::Flush { id, storage, parent, name, size },
                    },
                    None => VolStep::Upload { id, storage, parent, name, size },
                }
            },
        }
    }

    fn reply_page(
        &self,
        dirid: u64,
        children: Vec<Child>,
        start_after: u64,
        max_entries: usize,
    ) -> (r: VolStep)
        ensures
            r@ == page_reply(self@, dirid, child_views(children@), start_after, max_entries),
    {
        let mut all: Vec<Child> = Vec::new();
        let mut i: usize = 0;
        assert(self@.staged.take(0) =~= Seq::empty());
        assert(child_views(all@) =~= Seq::empty());
        while i < self.staged.len()
            invariant
                i <= self.staged.len(),
                child_views(all@) == staged_children(self@.staged.take(i as int), dirid),
            decreases self.staged.len() - i,
        {
            let ghost before = child_views(all@);
            assert(self@.staged[i as int] == self.staged@[i as int]@);
            assert(self@.staged.take(i + 1).drop_last() =~= self@.staged.take(i as int));
            if self.staged[i].parent_id == dirid && (self.staged[i].flushed_dev.is_none()
                || self.staged[i].dirty) {
                let c = Child {
                    id: self.staged[i].id,
                    name: self.staged[i].name.clone(),
                    is_dir: false,
                    size: self.staged[i].size,
                };
                assert(child_views(all@.push(c)) =~= before.push(c@));
                all.push(c);
            }
            i = i + 1;
        }
        assert(self@.staged.take(i as int) =~= self@.staged);
        let ghost own = child_views(all@);
        let mut j: usize = 0;
        assert(child_views(children@).take(0) =~= Seq::empty());
        assert(own + Seq::<ChildView>::empty() =~= own);
        while j < children.len()
            invariant
                j <= children.len(),
                child_views(all@) == own + child_views(children@).take(j as int),
            decreases children.len() - j,
        {
            let ghost before = child_views(all@);
            let c = children[j].clone();
            assert(child_views(all@.push(c)) =~= before.push(c@));
            all.push(c);
            assert(own + child_views(children@).take(j + 1) =~= before.push(children@[j as int]@));
            j = j + 1;
        }
        assert(child_views(children@).take(j as int) =~= child_views(children@));
        let sorted_all = sort_children(&all);
        let list = dedup_children(&sorted_all);
        let ghost full = full_listing(self@, dirid, child_views(children@));
        assert(child_views(list@) == full);
        let (lo, hi) = page_bounds(list.len(), start_after, max_entries);
        let ghost want = page(full, start_after, max_entries as nat);
        let mut entries: Vec<DirEntry> = Vec::new();
        let mut k: usize = lo;
        while k < hi
            invariant
                lo <= k <= hi <= list.len(),
                child_views(list@) == full,
                want == full.subrange(lo as int, hi as int),
                entries.len() == k - lo,
                forall|x: int|
                    0 <= x < entries.len() ==> (#[trigger] entries@[x])@ == dir_entry(
                        self@,
                        want[x],
                    ),
            decreases hi - k,
        {
            assert(want[k - lo] == list@[k as int]@);
            let attr = attr_for(list[k].id, list[k].is_dir, list[k].size, self.epoch);
            entries.push(DirEntry { fileid: list[k].id, name: list[k].name.clone(), attr });
            k = k + 1;
        }
        let end = hi >= list.len();
        assert(entries@.map_values(|e: DirEntry| e@) =~= want.map_values(
            |c: ChildView| dir_entry(self@, c),
        ));
        VolStep::Done(Ok(VolReply::Dir { entries, end }))
    }

    /// READDIR: at most `max_entries` entries of `dirid`, behind the first
    /// `start_after` ones.
    pub fn readdir(&self, dirid: u64, start_after: u64, max_entries: usize) -> (r: VolStep)
        ensures
            r@ == readdir_plan(self@, dirid, start_after, max_entries),
    {
        match decode(dirid) {
            None => refused(NfsStat::Badhandle),
            Some(Kind::DeviceRoot) => {
                let mut children: Vec<Child> = Vec::new();
                let mut i: usize = 0;
                while i < self.storages.len()
                    invariant
                        i <= self.storages.len(),
                        children.len() == i,
                        forall|j: int|
                            0 <= j < i ==> (#[trigger] children@[j])@ == storage_children(
                                self@.storages,
                            )[j],
                    decreases self.storages.len() - i,
                {
                    children.push(
                        Child {
                            id: STORAGE_BASE_ID.saturating_add(i as u64),
                            name: self.storages[i].description.clone(),
                            is_dir: true,
                            size: used_space(&self.storages[i]),
                        },
                    );
                    i = i + 1;
                }
                assert(child_views(children@) =~= storage_children(self@.storages));
                self.reply_page(dirid, children, start_after, max_entries)
            },
            Some(Kind::StorageRoot(i)) => {
                if !self.attached {
                    return refused(NfsStat::Io);
                }
                VolStep::List {
                    storage: i,
                    dir: ROOT,
                    after: OnList::ReadDir { storage: i, dirid, start_after, max_entries },
                }
            },
            Some(Kind::Real(d)) => {
                if !self.attached {
                    return refused(NfsStat::Io);
                }
                VolStep::List {
                    storage: d.storage_index,
                    dir: d.handle,
                    after: OnList::ReadDir {
                        storage: d.storage_index,
                        dirid,
                        start_after,
                        max_entries,
                    },
                }
            },
        }
    }

    fn reply_listing(
        &self,
        storage: usize,
        dirid: u64,
        entries: Vec<Entry>,
        start_after: u64,
        max_entries: usize,
    ) -> (r: VolStep)
        ensures
            r@ == with_listing(
                self@,
                OnListView::ReadDir { storage, dirid, start_after, max_entries },
                entries@,
            ),
    {
        let mut children: Vec<Child> = Vec::new();
        let mut i: usize = 0;
        while i < entries.len()
            invariant
                i <= entries.len(),
                children.len() == i,
                forall|j: int| 0 <= j < i ==> encoded(storage, (#[trigger] entries@[j]).handle) is Some,
                forall|j: int|
                    0 <= j < i ==> (#[trigger] children@[j])@ == entry_children(
                        storage,
                        entries@,
                    )[j],
            decreases entries.len() - i,
        {
            match encode(storage, entries[i].handle) {
                None => {
                    assert(encoded(storage, entries@[i as int].handle) is None);
                    return refused(NfsStat::Badhandle);
                },
                Some(id) => {
                    children.push(
                        Child {
                            id,
                            name: entries[i].name.clone(),
                            is_dir: entries[i].is_dir,
                            size: entries[i].size,
                        },
                    );
                },
            }
            i = i + 1;
        }
        assert(child_views(children@) =~= entry_children(storage, entries@));
        self.reply_page(dirid, children, start_after, max_entries)
    }

    // -----------------------------------------------------------------------
    // Going on with the answers
    // -----------------------------------------------------------------------

    /// Goes on after a listing of the device.
    pub fn listed(&mut self, after: OnList, r: Result<Vec<Entry>>) -> (step: VolStep)
        ensures
            (final(self)@, step@) == listed_turn(old(self)@, after@, listing_answer(r)),
    {
        match after {
            OnList::Exclusive { dirid, name, .. } => {
                if let Ok(children) = r {
                    if child_by_name(&children, name.as_str()).is_some() {
                        return refused(NfsStat::Exist);
                    }
                }
                self.stage_new(dirid, name, Next::Exclusive)
            },
            OnList::New { storage, dirid, name, next } => self.stage_listed(
                storage,
                dirid,
                name,
                next,
                r,
            ),
            OnList::Lookup { storage, name } => match r {
                Err(e) => refused(nfserr(&e)),
                Ok(children) => match id_in_listing(storage, &children, name.as_str()) {
                    Ok(id) => VolStep::Done(Ok(VolReply::Id(id))),
                    Err(s) => refused(s),
                },
            },
            OnList::Remove { storage, name } => match r {
                Err(e) => refused(nfserr(&e)),
                Ok(children) => match id_in_listing(storage, &children, name.as_str()) {
                    Ok(id) => self.remove_object(id),
                    Err(s) => refused(s),
                },
            },
            OnList::Rename { storage, from_dirid, from_name, to_dirid, to_name } => match r {
                Err(e) => refused(nfserr(&e)),
                Ok(children) => match id_in_listing(storage, &children, from_name.as_str()) {
                    Ok(id) => self.rename_object(id, from_dirid, from_name, to_dirid, to_name),
                    Err(s) => refused(s),
                },
            },
            OnList::ReadDir { storage, dirid, start_after, max_entries } => match r {
                Err(e) => refused(nfserr(&e)),
                Ok(children) => self.reply_listing(
                    storage,
                    dirid,
                    children,
                    start_after,
                    max_entries,
                ),
            },
        }
    }

    /// Goes on after the metadata of a device object.
    pub fn informed(&mut self, after: OnInfo, r: Result<Entry>, now: u64) -> (step: VolStep)
        ensures
            (final(self)@, step@) == informed_turn(old(self)@, now, after@, answer(r)),
    {
        broadcast use vstd::std_specs::hash::group_hash_axioms;

        let e = match r {
            Err(e) => {
                return match after {
                    OnInfo::Rejected { error, .. } => refused(nfserr(&error)),
                    _ => refused(nfserr(&e)),
                };
            },
            Ok(e) => e,
        };
        match after {
            OnInfo::Attr { id } => {
                self.attrs.insert(id, AttrEntry { size: e.size, is_dir: e.is_dir, at: now });
                let attr = attr_for(id, e.is_dir, e.size, self.epoch);
                VolStep::Done(Ok(VolReply::Attr(attr)))
            },
            OnInfo::Stage { id, storage, handle, next } => {
                if e.is_dir {
                    return refused(NfsStat::Isdir);
                }
                if storage >= STORAGE_BOUND {
                    return refused(NfsStat::Badhandle);
                }
                let parent_id = if e.parent == ROOT {
                    STORAGE_BASE_ID + storage as u64
                } else {
                    match encode(storage, e.parent) {
                        None => {
                            return refused(NfsStat::Badhandle);
                        },
                        Some(p) => p,
                    }
                };
                self.pull_start(
                    Pull { id, storage, handle, name: e.name, parent_id, size: e.size, off: 0, next },
                )
            },
            OnInfo::New { id, storage, handle, dirid, next } => {
                if e.is_dir {
                    return refused(NfsStat::Exist);
                }
                self.pull_start(
                    Pull {
                        id,
                        storage,
                        handle,
                        name: e.name,
                        parent_id: dirid,
                        size: e.size,
                        off: 0,
                        next,
                    },
                )
            },
            OnInfo::Short { offset, data } => {
                if e.is_dir {
                    return refused(NfsStat::Isdir);
                }
                self.count_rx(data.len());
                reply_data(offset, data, e.size)
            },
            OnInfo::Rejected { storage, handle, offset, count, .. } => {
                if e.is_dir {
                    return refused(NfsStat::Isdir);
                }
                if offset >= e.size {
                    let none: Vec<u8> = Vec::new();
                    return VolStep::Done(Ok(VolReply::Data { bytes: none, eof: true }));
                }
                if !self.attached {
                    return refused(NfsStat::Io);
                }
                let left: u64 = e.size - offset;
                let clamped: u32 = if left < count as u64 {
                    left as u32
                } else {
                    count
                };
                VolStep::Read {
                    storage,
                    handle,
                    offset,
                    count: clamped,
                    after: OnRead::Clamped { offset, size: e.size },
                }
            },
        }
    }

    /// Goes on after a range of a device object.
    pub fn read_back(&mut self, after: OnRead, r: Result<Vec<u8>>) -> (step: VolStep)
        ensures
            (final(self)@, step@) == read_turn(old(self)@, after@, bytes_answer(r)),
    {
        match after {
            OnRead::First { storage, handle, offset, count } => match r {
                Ok(data) => {
                    if data.len() as u64 == count as u64 {
                        self.count_rx(data.len());
                        return VolStep::Done(Ok(VolReply::Data { bytes: data, eof: false }));
                    }
                    if !self.attached {
                        return refused(NfsStat::Io);
                    }
                    VolStep::Info { storage, handle, after: OnInfo::Short { offset, data } }
                },
                Err(error) => {
                    if !self.attached {
                        return refused(NfsStat::Io);
                    }
                    VolStep::Info {
                        storage,
                        handle,
                        after: OnInfo::Rejected { error, storage, handle, offset, count },
                    }
                },
            },
            OnRead::Clamped { offset, size } => match r {
                Ok(data) => {
                    self.count_rx(data.len());
                    reply_data(offset, data, size)
                },
                Err(e) => refused(nfserr(&e)),
            },
            OnRead::Pull(pull) => match r {
                Ok(data) => {
                    if data.len() == 0 {
                        return VolStep::Length { pull };
                    }
                    self.count_rx(data.len());
                    VolStep::Store { pull, data }
                },
                Err(e) => refused(nfserr(&e)),
            },
        }
    }

    /// Goes on after a piece of `len` bytes was stored.
    pub fn stored(&self, pull: Pull, len: usize, ok: bool) -> (step: VolStep)
        ensures
            step@ == stored_plan(self@, pull@, len as nat, ok),
    {
        if !ok {
            return refused(NfsStat::Io);
        }
        let mut p = pull;
        p.off = end_of(p.off, len);
        self.pull_more(p)
    }

    /// Goes on with the length of the staging file.
    pub fn length(&mut self, pull: Pull, length: Option<u64>) -> (step: VolStep)
        ensures
            (final(self)@, step@) == length_turn(old(self)@, pull@, length),
    {
        let n = match length {
            None => {
                return refused(NfsStat::Io);
            },
            Some(n) => n,
        };
        if n != pull.size {
            return VolStep::Discard { id: pull.id, ok: false };
        }
        let ghost before = self@;
        let ghost pv = pull@;
        let id = pull.id;
        let stage = Stage {
            id,
            storage_index: pull.storage,
            parent_id: pull.parent_id,
            name: pull.name,
            size: pull.size,
            origin_dev: Some(pull.handle),
            flushed_dev: None,
            dirty: false,
        };
        assert(stage@ == pulled_stage(pv));
        self.put_stage(stage);
        proof {
            lemma_with_stage(before.staged, pulled_stage(pv));
        }
        match self.find_stage(id) {
            Some(i) => self.staged_next(i, pull.next),
            None => refused(NfsStat::Io),
        }
    }

    /// Goes on after a staging file was made.
    pub fn new_file(&mut self, id: u64, after: OnNewFile, ok: bool) -> (step: VolStep)
        ensures
            (final(self)@, step@) == new_file_turn(old(self)@, id, after@, ok),
    {
        if !ok {
            return refused(NfsStat::Io);
        }
        match after {
            OnNewFile::Pull(p) => self.pull_more(p),
            OnNewFile::Fresh { dirid, name, next } => {
                let ghost before = self@;
                let stage = Stage {
                    id,
                    storage_index: 0,
                    parent_id: dirid,
                    name,
                    size: 0,
                    origin_dev: None,
                    flushed_dev: None,
                    dirty: true,
                };
                assert(stage@ == fresh_stage(id, dirid, name@));
                self.put_stage(stage);
                proof {
                    lemma_with_stage(before.staged, fresh_stage(id, dirid, name@));
                }
                match self.find_stage(id) {
                    Some(i) => self.staged_next(i, next),
                    None => refused(NfsStat::Io),
                }
            },
        }
    }

    /// Goes on after the length of a staging file was set.
    pub fn len_set(&mut self, id: u64, size: u64, create: bool, ok: bool) -> (step: VolStep)
        ensures
            (final(self)@, step@) == set_len_turn(old(self)@, id, size, create, ok),
    {
        if !ok {
            return refused(NfsStat::Io);
        }
        match self.find_stage(id) {
            None => refused(NfsStat::Noent),
            Some(i) => {
                let mut s = self.staged[i].copy();
                s.size = size;
                s.dirty = true;
                self.put_stage(s);
                self.clear_attrs();
                let attr = attr_for(id, false, size, self.epoch);
                if create {
                    VolStep::Done(Ok(VolReply::Created { id, attr }))
                } else {
                    VolStep::Done(Ok(VolReply::Attr(attr)))
                }
            },
        }
    }

    /// Goes on after `len` bytes were written into a staging file.
    pub fn written(&mut self, id: u64, offset: u64, len: usize, ok: bool) -> (step: VolStep)
        ensures
            (final(self)@, step@) == written_turn(old(self)@, id, offset, len, ok),
    {
        if !ok {
            return refused(NfsStat::Io);
        }
        match self.find_stage(id) {
            None => refused(NfsStat::Noent),
            Some(i) => {
                let mut s = self.staged[i].copy();
                let end = end_of(offset, len);
                if s.size < end {
                    s.size = end;
                }
                s.dirty = true;
                let size = s.size;
                self.put_stage(s);
                self.clear_attrs();
                let attr = attr_for(id, false, size, self.epoch);
                VolStep::Done(
                    Ok(
                        VolReply::Written {
                            attr,
                            stability: Stability::Unstable,
                            count: len as u32,
                        },
                    ),
                )
            },
        }
    }

    /// Goes on with what was read from a staging file, and its length.
    pub fn local_read(&self, offset: u64, r: Option<(Vec<u8>, u64)>) -> (step: VolStep)
        ensures
            step@ == local_read_plan(
                offset,
                match r {
                    Some((data, total)) => Some((data@, total)),
                    None => None,
                },
            ),
    {
        match r {
            None => refused(NfsStat::Io),
            Some((data, total)) => reply_data(offset, data, total),
        }
    }

    /// Goes on after a deletion on the device.
    pub fn deleted(&mut self, after: OnDelete, r: Result<()>) -> (step: VolStep)
        ensures
            (final(self)@, step@) == deleted_turn(old(self)@, after@, answer(r)),
    {
        match after {
            OnDelete::Flush { id, storage, parent, name, size } => {
                if !self.attached {
                    return refused(NfsStat::Io);
                }
                VolStep::Upload { id, storage, parent, name, size }
            },
            OnDelete::Staged { id } => match r {
                Err(e) => refused(nfserr(&e)),
                Ok(_) => {
                    self.drop_stage(id);
                    self.clear_attrs();
                    VolStep::Discard { id, ok: true }
                },
            },
            OnDelete::Object { id } => match r {
                Err(e) => refused(nfserr(&e)),
                Ok(_) => {
                    if self.find_stage(id).is_some() {
                        self.drop_stage(id);
                        self.clear_attrs();
                        VolStep::Discard { id, ok: true }
                    } else {
                        self.clear_attrs();
                        VolStep::Done(Ok(VolReply::Nothing))
                    }
                },
            },
        }
    }

    /// Goes on after a staging file was uploaded.
    pub fn uploaded(
        &mut self,
        id: u64,
        storage: usize,
        size: u64,
        r: Result<u64>,
        now: u64,
    ) -> (step: VolStep)
        ensures
            (final(self)@, step@) == uploaded_turn(old(self)@, now, id, storage, size, answer(r)),
    {
        let handle = match r {
            Err(e) => {
                return refused(nfserr(&e));
            },
            Ok(h) => h,
        };
        let s = self.stats;
        self.stats = Stats { rx: s.rx, tx: s.tx.wrapping_add(size) };
        if let Some(i) = self.find_stage(id) {
            let mut s = self.staged[i].copy();
            s.origin_dev = None;
            s.flushed_dev = Some(handle);
            s.storage_index = storage;
            s.dirty = false;
            s.size = size;
            self.put_stage(s);
            self.clear_attrs();
        }
        self.getattr(id, now)
    }

    /// Goes on after a directory was made on the device.
    pub fn made_dir(&mut self, storage: usize, r: Result<u64>) -> (step: VolStep)
        ensures
            (final(self)@, step@) == made_dir_turn(old(self)@, storage, answer(r)),
    {
        match r {
            Err(e) => refused(nfserr(&e)),
            Ok(handle) => match encode(storage, handle) {
                None => refused(NfsStat::Badhandle),
                Some(id) => {
                    self.clear_attrs();
                    let attr = attr_for(id, true, 0, self.epoch);
                    VolStep::Done(Ok(VolReply::Created { id, attr }))
                },
            },
        }
    }

    /// Goes on after a rename on the device.
    pub fn renamed(&mut self, id: u64, to_dirid: u64, to_name: String, r: Result<()>) -> (step:
        VolStep)
        ensures
            (final(self)@, step@) == renamed_turn(old(self)@, id, to_dirid, to_name@, answer(r)),
    {
        if let Err(e) = r {
            return refused(nfserr(&e));
        }
        if let Some(i) = self.find_stage(id) {
            let mut s = self.staged[i].copy();
            s.parent_id = to_dirid;
            s.name = to_name;
            self.put_stage(s);
        }
        self.clear_attrs();
        VolStep::Done(Ok(VolReply::Nothing))
    }

    /// Goes on after a staging file was deleted.
    pub fn discarded(&self, ok: bool) -> (step: VolStep)
        ensures
            step@ == discarded_plan(ok),
    {
        if ok {
            VolStep::Done(Ok(VolReply::Nothing))
        } else {
            refused(NfsStat::Io)
        }
    }
}

/// The view of the bytes that the device answered with.
pub open spec fn bytes_answer(r: Result<Vec<u8>>) -> std::result::Result<Seq<u8>, ErrorView> {
    match r {
        Ok(b) => Ok(b@),
        Err(e) => Err(e@),
    }
}

/// A stage that was put into the table is found there.
pub proof fn lemma_with_stage(s: Seq<StageView>, x: StageView)
    ensures
        stage_of(with_stage(s, x), x.id) == Some(x),
        forall|id: u64| id != x.id ==> #[trigger] stage_of(with_stage(s, x), id) == stage_of(s, id),
{
    let t = with_stage(s, x);
    lemma_stage_place(s, x.id, 0);
    lemma_stage_place(t, x.id, 0);
    match stage_place(s, x.id, 0) {
        Some(i) => {
            assert(t[i as int] == x);
            match stage_place(t, x.id, 0) {
                Some(j) => {
                    if j < i {
                        assert(t[j as int] == s[j as int]);
                    }
                    if j > i {
                        assert(t[i as int].id == x.id);
                    }
                },
                None => {},
            }
        },
        None => {
            assert(t[s.len() as int] == x);
            match stage_place(t, x.id, 0) {
                Some(j) => {
                    if j < s.len() {
                        assert(t[j as int] == s[j as int]);
                    }
                },
                None => {},
            }
        },
    }
    assert forall|id: u64| id != x.id implies #[trigger] stage_of(t, id) == stage_of(s, id) by {
        lemma_stage_place(s, id, 0);
        lemma_stage_place(t, id, 0);
        match (stage_place(s, id, 0), stage_place(t, id, 0)) {
            (Some(i), Some(j)) => {
                assert(t[i as int] == s[i as int]);
                assert(t[j as int] == s[j as int]);
                if i < j {
                    assert(t[i as int].id == id);
                }
                if j < i {
                    assert(s[j as int].id == id);
                }
            },
            (Some(i), None) => {
                assert(t[i as int] == s[i as int]);
            },
            (None, Some(j)) => {
                assert(t[j as int].id == id);
                assert(j < s.len());
                assert(t[j as int] == s[j as int]);
            },
            (None, None) => {},
        }
    }
}

proof fn lemma_hex_apart(a: nat, b: nat, width: nat)
    requires
        hex(a, width) == hex(b, width),
    ensures
        width >= 1 ==> a % 16 == b % 16,
        width >= 1 ==> hex(a / 16, (width - 1) as nat) == hex(b / 16, (width - 1) as nat),
{
    if width >= 1 {
        let x = hex(a, width);
        let y = hex(b, width);
        assert(x.last() == y.last());
        assert(x.drop_last() =~= hex(a / 16, (width - 1) as nat));
        assert(y.drop_last() =~= hex(b / 16, (width - 1) as nat));
    }
}

proof fn lemma_hex_is_exact(a: nat, b: nat, width: nat, bound: nat)
    requires
        hex(a, width) == hex(b, width),
        bound == vstd::arithmetic::power::pow(16, width),
        a < bound,
        b < bound,
    ensures
        a == b,
    decreases width,
{
    if width == 0 {
        vstd::arithmetic::power::lemma_pow0(16);
    } else {
        lemma_hex_apart(a, b, width);
        let less = vstd::arithmetic::power::pow(16, (width - 1) as nat);
        assert(bound == 16 * less) by {
            reveal(vstd::arithmetic::power::pow);
        }
        lemma_hex_is_exact(a / 16, b / 16, (width - 1) as nat, less as nat);
    }
}

/// Every file that is staged has a staging file of its own.
pub proof fn law_staging_files_are_apart(a: u64, b: u64)
    requires
        stage_name(a) == stage_name(b),
    ensures
        a == b,
{
    reveal_strlit("stage-");
    reveal_strlit(".bin");
    lemma_hex_len(a as nat, 16);
    lemma_hex_len(b as nat, 16);
    assert(stage_name(a).subrange(6, 22) =~= hex(a as nat, 16));
    assert(stage_name(b).subrange(6, 22) =~= hex(b as nat, 16));
    assert(vstd::arithmetic::power::pow(16, 16) == 0x1_0000_0000_0000_0000) by {
        reveal(vstd::arithmetic::power::pow);
        reveal_with_fuel(vstd::arithmetic::power::pow, 17);
    }
    lemma_hex_is_exact(a as nat, b as nat, 16, 0x1_0000_0000_0000_0000);
}

proof fn lemma_hex_len(n: nat, width: nat)
    ensures
        hex(n, width).len() == width,
    decreases width,
{
    if width > 0 {
        lemma_hex_len(n / 16, (width - 1) as nat);
    }
}

} // verus!
