//! The steps of the NFS volume: the calls it asks for, on the device and on the
//! local staging files, what each one is part of, and the replies.

use vstd::prelude::*;

use crate::error::{Error, ErrorView};
use crate::nfs::{Attr, NfsStat};

verus! {

/// How durable a write is.
#[derive(Debug, Clone, Copy, PartialEq, Eq, Structural)]
pub enum Stability {
    Unstable,
    DataSync,
    FileSync,
}

/// An entry of a directory page.
#[derive(Debug)]
pub struct DirEntry {
    pub fileid: u64,
    pub name: String,
    pub attr: Attr,
}

/// A [`DirEntry`] with its name as a sequence of characters.
pub struct DirEntryView {
    pub fileid: u64,
    pub name: Seq<char>,
    pub attr: Attr,
}

impl View for DirEntry {
    type V = DirEntryView;

    open spec fn view(&self) -> DirEntryView {
        DirEntryView { fileid: self.fileid, name: self.name@, attr: self.attr }
    }
}

/// What an operation of the volume replies with.
#[derive(Debug)]
pub enum VolReply {
    Id(u64),
    Attr(Attr),
    Created { id: u64, attr: Attr },
    Data { bytes: Vec<u8>, eof: bool },
    Written { attr: Attr, stability: Stability, count: u32 },
    Dir { entries: Vec<DirEntry>, end: bool },
    Nothing,
}

/// A [`VolReply`] in terms of views.
pub enum VolReplyView {
    Id(u64),
    Attr(Attr),
    Created { id: u64, attr: Attr },
    Data { bytes: Seq<u8>, eof: bool },
    Written { attr: Attr, stability: Stability, count: u32 },
    Dir { entries: Seq<DirEntryView>, end: bool },
    Nothing,
}

impl View for VolReply {
    type V = VolReplyView;

    open spec fn view(&self) -> VolReplyView {
        match *self {
            VolReply::Id(id) => VolReplyView::Id(id),
            VolReply::Attr(a) => VolReplyView::Attr(a),
            VolReply::Created { id, attr } => VolReplyView::Created { id, attr },
            VolReply::Data { bytes, eof } => VolReplyView::Data { bytes: bytes@, eof },
            VolReply::Written { attr, stability, count } => VolReplyView::Written {
                attr,
                stability,
                count,
            },
            VolReply::Dir { entries, end } => VolReplyView::Dir {
                entries: entries@.map_values(|e: DirEntry| e@),
                end,
            },
            VolReply::Nothing => VolReplyView::Nothing,
        }
    }
}

/// What follows once a file is staged.
#[allow(inconsistent_fields)]
#[derive(Debug)]
pub enum Next {
    /// Set its length.
    SetLen { size: u64 },
    /// Write into it.
    Write { offset: u64, data: Vec<u8> },
    /// Reply that it was created, with a length if one was asked for.
    Create { size: Option<u64> },
    /// Reply with its id.
    Exclusive,
}

/// A [`Next`] in terms of views.
#[allow(inconsistent_fields)]
pub enum NextView {
    SetLen { size: u64 },
    Write { offset: u64, data: Seq<u8> },
    Create { size: Option<u64> },
    Exclusive,
}

impl View for Next {
    type V = NextView;

    open spec fn view(&self) -> NextView {
        match *self {
            Next::SetLen { size } => NextView::SetLen { size },
            Next::Write { offset, data } => NextView::Write { offset, data: data@ },
            Next::Create { size } => NextView::Create { size },
            Next::Exclusive => NextView::Exclusive,
        }
    }
}

/// A device object on its way into a staging file: `off` bytes are there.
#[derive(Debug)]
pub struct Pull {
    pub id: u64,
    pub storage: usize,
    pub handle: u64,
    pub name: String,
    pub parent_id: u64,
    pub size: u64,
    pub off: u64,
    pub next: Next,
}

/// A [`Pull`] in terms of views.
pub struct PullView {
    pub id: u64,
    pub storage: usize,
    pub handle: u64,
    pub name: Seq<char>,
    pub parent_id: u64,
    pub size: u64,
    pub off: u64,
    pub next: NextView,
}

impl View for Pull {
    type V = PullView;

    open spec fn view(&self) -> PullView {
        PullView {
            id: self.id,
            storage: self.storage,
            handle: self.handle,
            name: self.name@,
            parent_id: self.parent_id,
            size: self.size,
            off: self.off,
            next: self.next@,
        }
    }
}

/// What a listing of the device is for.
#[derive(Debug)]
pub enum OnList {
    Lookup { storage: usize, name: String },
    Exclusive { storage: usize, dirid: u64, name: String },
    New { storage: usize, dirid: u64, name: String, next: Next },
    Remove { storage: usize, name: String },
    Rename { storage: usize, from_dirid: u64, from_name: String, to_dirid: u64, to_name: String },
    ReadDir { storage: usize, dirid: u64, start_after: u64, max_entries: usize },
}

/// An [`OnList`] in terms of views.
pub enum OnListView {
    Lookup { storage: usize, name: Seq<char> },
    Exclusive { storage: usize, dirid: u64, name: Seq<char> },
    New { storage: usize, dirid: u64, name: Seq<char>, next: NextView },
    Remove { storage: usize, name: Seq<char> },
    Rename {
        storage: usize,
        from_dirid: u64,
        from_name: Seq<char>,
        to_dirid: u64,
        to_name: Seq<char>,
    },
    ReadDir { storage: usize, dirid: u64, start_after: u64, max_entries: usize },
}

impl View for OnList {
    type V = OnListView;

    open spec fn view(&self) -> OnListView {
        match *self {
            OnList::Lookup { storage, name } => OnListView::Lookup { storage, name: name@ },
            OnList::Exclusive { storage, dirid, name } => OnListView::Exclusive {
                storage,
                dirid,
                name: name@,
            },
            OnList::New { storage, dirid, name, next } => OnListView::New {
                storage,
                dirid,
                name: name@,
                next: next@,
            },
            OnList::Remove { storage, name } => OnListView::Remove { storage, name: name@ },
            OnList::Rename { storage, from_dirid, from_name, to_dirid, to_name } =>
                OnListView::Rename {
                storage,
                from_dirid,
                from_name: from_name@,
                to_dirid,
                to_name: to_name@,
            },
            OnList::ReadDir { storage, dirid, start_after, max_entries } => OnListView::ReadDir {
                storage,
                dirid,
                start_after,
                max_entries,
            },
        }
    }
}

/// What the metadata of a device object is for.
#[derive(Debug)]
pub enum OnInfo {
    /// The attributes of the file `id`.
    Attr { id: u64 },
    /// Staging the file `id` before it is written to.
    Stage { id: u64, storage: usize, handle: u64, next: Next },
    /// Staging the file `id`, which exists under the name to create.
    New { id: u64, storage: usize, handle: u64, dirid: u64, next: Next },
    /// The end of a read that came up short.
    Short { offset: u64, data: Vec<u8> },
    /// The reason for which a read was refused.
    Rejected { error: Error, storage: usize, handle: u64, offset: u64, count: u32 },
}

/// An [`OnInfo`] in terms of views.
pub enum OnInfoView {
    Attr { id: u64 },
    Stage { id: u64, storage: usize, handle: u64, next: NextView },
    New { id: u64, storage: usize, handle: u64, dirid: u64, next: NextView },
    Short { offset: u64, data: Seq<u8> },
    Rejected { error: ErrorView, storage: usize, handle: u64, offset: u64, count: u32 },
}

impl View for OnInfo {
    type V = OnInfoView;

    open spec fn view(&self) -> OnInfoView {
        match *self {
            OnInfo::Attr { id } => OnInfoView::Attr { id },
            OnInfo::Stage { id, storage, handle, next } => OnInfoView::Stage {
                id,
                storage,
                handle,
                next: next@,
            },
            OnInfo::New { id, storage, handle, dirid, next } => OnInfoView::New {
                id,
                storage,
                handle,
                dirid,
                next: next@,
            },
            OnInfo::Short { offset, data } => OnInfoView::Short { offset, data: data@ },
            OnInfo::Rejected { error, storage, handle, offset, count } => OnInfoView::Rejected {
                error: error@,
                storage,
                handle,
                offset,
                count,
            },
        }
    }
}

/// What a range of a device object is for.
#[derive(Debug)]
pub enum OnRead {
    /// The first attempt to serve a read.
    First { storage: usize, handle: u64, offset: u64, count: u32 },
    /// The attempt within the bounds of the object.
    Clamped { offset: u64, size: u64 },
    /// A piece of an object that is being staged.
    Pull(Pull),
}

/// An [`OnRead`] in terms of views.
pub enum OnReadView {
    First { storage: usize, handle: u64, offset: u64, count: u32 },
    Clamped { offset: u64, size: u64 },
    Pull(PullView),
}

impl View for OnRead {
    type V = OnReadView;

    open spec fn view(&self) -> OnReadView {
        match *self {
            OnRead::First { storage, handle, offset, count } => OnReadView::First {
                storage,
                handle,
                offset,
                count,
            },
            OnRead::Clamped { offset, size } => OnReadView::Clamped { offset, size },
            OnRead::Pull(p) => OnReadView::Pull(p@),
        }
    }
}

/// What a deletion on the device is part of.
#[derive(Debug)]
pub enum OnDelete {
    /// The removal of a staged file.
    Staged { id: u64 },
    /// The removal of a device object.
    Object { id: u64 },
    /// The flush of a staged file: the copy it replaces goes first.
    Flush { id: u64, storage: usize, parent: u64, name: String, size: u64 },
}

/// An [`OnDelete`] in terms of views.
pub enum OnDeleteView {
    Staged { id: u64 },
    Object { id: u64 },
    Flush { id: u64, storage: usize, parent: u64, name: Seq<char>, size: u64 },
}

impl View for OnDelete {
    type V = OnDeleteView;

    open spec fn view(&self) -> OnDeleteView {
        match *self {
            OnDelete::Staged { id } => OnDeleteView::Staged { id },
            OnDelete::Object { id } => OnDeleteView::Object { id },
            OnDelete::Flush { id, storage, parent, name, size } => OnDeleteView::Flush {
                id,
                storage,
                parent,
                name: name@,
                size,
            },
        }
    }
}

/// What a new staging file is for.
#[derive(Debug)]
pub enum OnNewFile {
    /// A device object that is going to be staged.
    Pull(Pull),
    /// A file that does not exist yet.
    Fresh { dirid: u64, name: String, next: Next },
}

/// An [`OnNewFile`] in terms of views.
pub enum OnNewFileView {
    Pull(PullView),
    Fresh { dirid: u64, name: Seq<char>, next: NextView },
}

impl View for OnNewFile {
    type V = OnNewFileView;

    open spec fn view(&self) -> OnNewFileView {
        match *self {
            OnNewFile::Pull(p) => OnNewFileView::Pull(p@),
            OnNewFile::Fresh { dirid, name, next } => OnNewFileView::Fresh {
                dirid,
                name: name@,
                next: next@,
            },
        }
    }
}

/// The next thing to do for an operation of the volume.
#[allow(inconsistent_fields)]
#[derive(Debug)]
pub enum VolStep {
    /// The operation is over.
    Done(std::result::Result<VolReply, NfsStat>),
    /// List the objects of `dir` on the device.
    List { storage: usize, dir: u64, after: OnList },
    /// Fetch the metadata of `handle` from the device.
    Info { storage: usize, handle: u64, after: OnInfo },
    /// Read a range of `handle` from the device.
    Read { storage: usize, handle: u64, offset: u64, count: u32, after: OnRead },
    /// Delete `handle` on the device.
    Delete { storage: usize, handle: u64, after: OnDelete },
    /// Upload the staging file of `id`.
    Upload { id: u64, storage: usize, parent: u64, name: String, size: u64 },
    /// Make a directory on the device.
    Mkdir { storage: usize, parent: u64, name: String },
    /// Rename or move an object on the device.
    Rename {
        storage: usize,
        from: u64,
        from_name: String,
        to: u64,
        to_name: String,
        id: u64,
        to_dirid: u64,
    },
    /// Make the staging file of `id`, empty.
    NewFile { id: u64, after: OnNewFile },
    /// Write a piece of a pulled object at its place in the staging file.
    Store { pull: Pull, data: Vec<u8> },
    /// Make the staging file durable and tell its length.
    Length { pull: Pull },
    /// Set the length of the staging file of `id`.
    SetLen { id: u64, size: u64, create: bool },
    /// Write into the staging file of `id`.
    WriteAt { id: u64, offset: u64, data: Vec<u8> },
    /// Read from the staging file of `id`, and tell its length.
    ReadAt { id: u64, offset: u64, count: u32 },
    /// Delete the staging file of `id`; the operation ends as `ok` says.
    Discard { id: u64, ok: bool },
}

/// A [`VolStep`] in terms of views.
#[allow(inconsistent_fields)]
pub enum VolPlan {
    Done(std::result::Result<VolReplyView, NfsStat>),
    List { storage: usize, dir: u64, after: OnListView },
    Info { storage: usize, handle: u64, after: OnInfoView },
    Read { storage: usize, handle: u64, offset: u64, count: u32, after: OnReadView },
    Delete { storage: usize, handle: u64, after: OnDeleteView },
    Upload { id: u64, storage: usize, parent: u64, name: Seq<char>, size: u64 },
    Mkdir { storage: usize, parent: u64, name: Seq<char> },
    Rename {
        storage: usize,
        from: u64,
        from_name: Seq<char>,
        to: u64,
        to_name: Seq<char>,
        id: u64,
        to_dirid: u64,
    },
    NewFile { id: u64, after: OnNewFileView },
    Store { pull: PullView, data: Seq<u8> },
    Length { pull: PullView },
    SetLen { id: u64, size: u64, create: bool },
    WriteAt { id: u64, offset: u64, data: Seq<u8> },
    ReadAt { id: u64, offset: u64, count: u32 },
    Discard { id: u64, ok: bool },
}

impl View for VolStep {
    type V = VolPlan;

    open spec fn view(&self) -> VolPlan {
        match *self {
            VolStep::Done(Ok(r)) => VolPlan::Done(Ok(r@)),
            VolStep::Done(Err(s)) => VolPlan::Done(Err(s)),
            VolStep::List { storage, dir, after } => VolPlan::List { storage, dir, after: after@ },
            VolStep::Info { storage, handle, after } => VolPlan::Info {
                storage,
                handle,
                after: after@,
            },
            VolStep::Read { storage, handle, offset, count, after } => VolPlan::Read {
                storage,
                handle,
                offset,
                count,
                after: after@,
            },
            VolStep::Delete { storage, handle, after } => VolPlan::Delete {
                storage,
                handle,
                after: after@,
            },
            VolStep::Upload { id, storage, parent, name, size } => VolPlan::Upload {
                id,
                storage,
                parent,
                name: name@,
                size,
            },
            VolStep::Mkdir { storage, parent, name } => VolPlan::Mkdir {
                storage,
                parent,
                name: name@,
            },
            VolStep::Rename { storage, from, from_name, to, to_name, id, to_dirid } =>
                VolPlan::Rename {
                storage,
                from,
                from_name: from_name@,
                to,
                to_name: to_name@,
                id,
                to_dirid,
            },
            VolStep::NewFile { id, after } => VolPlan::NewFile { id, after: after@ },
            VolStep::Store { pull, data } => VolPlan::Store { pull: pull@, data: data@ },
            VolStep::Length { pull } => VolPlan::Length { pull: pull@ },
            VolStep::SetLen { id, size, create } => VolPlan::SetLen { id, size, create },
            VolStep::WriteAt { id, offset, data } => VolPlan::WriteAt { id, offset, data: data@ },
            VolStep::ReadAt { id, offset, count } => VolPlan::ReadAt { id, offset, count },
            VolStep::Discard { id, ok } => VolPlan::Discard { id, ok },
        }
    }
}

} // verus!
