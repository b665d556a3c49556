//! The steps of a session: the device calls it asks for, what each one is part
//! of, and the replies.

use vstd::prelude::*;

use crate::error::{Error, ErrorView, Result};
use crate::model::{DeviceSummary, Entry, EntryView, Resolved, StorageSummary};
use crate::path::{DevPath, DevPathView};

verus! {

/// What an operation gives its caller.
#[derive(Debug)]
pub enum Reply {
    Entries(Vec<Entry>),
    Entry(Entry),
    Resolved(Resolved),
    /// The number of objects that were deleted.
    Count(u32),
    Bytes(Vec<u8>),
    Storages(Vec<StorageSummary>),
    Summary(DeviceSummary),
    Nothing,
}

/// A [`Reply`] in terms of views.
pub enum ReplyView {
    Entries(Seq<EntryView>),
    Entry(EntryView),
    Resolved { storage_index: usize, handle: u64, entry: EntryView },
    Count(u32),
    Bytes(Seq<u8>),
    Storages(Seq<StorageSummary>),
    Summary(SummaryView),
    Nothing,
}

/// A [`DeviceSummary`] in terms of views.
pub struct SummaryView {
    pub vendor_id: u16,
    pub product_id: u16,
    pub manufacturer: Option<Seq<char>>,
    pub product: Option<Seq<char>>,
    pub serial: Option<Seq<char>>,
    pub speed: Option<Seq<char>>,
    pub firmware: Option<Seq<char>>,
    pub storages: Seq<StorageSummary>,
}

/// The view of an optional string.
pub open spec fn optional(s: Option<String>) -> Option<Seq<char>> {
    match s {
        Some(t) => Some(t@),
        None => None,
    }
}

impl View for DeviceSummary {
    type V = SummaryView;

    open spec fn view(&self) -> SummaryView {
        SummaryView {
            vendor_id: self.vendor_id,
            product_id: self.product_id,
            manufacturer: optional(self.manufacturer),
            product: optional(self.product),
            serial: optional(self.serial),
            speed: optional(self.speed),
            firmware: optional(self.firmware),
            storages: self.storages@,
        }
    }
}

impl View for Reply {
    type V = ReplyView;

    open spec fn view(&self) -> ReplyView {
        match *self {
            Reply::Entries(v) => ReplyView::Entries(v@.map_values(|e: Entry| e@)),
            Reply::Entry(e) => ReplyView::Entry(e@),
            Reply::Resolved(r) => ReplyView::Resolved {
                storage_index: r.storage_index,
                handle: r.handle,
                entry: r.entry@,
            },
            Reply::Count(n) => ReplyView::Count(n),
            Reply::Bytes(b) => ReplyView::Bytes(b@),
            Reply::Storages(v) => ReplyView::Storages(v@),
            Reply::Summary(s) => ReplyView::Summary(s@),
            Reply::Nothing => ReplyView::Nothing,
        }
    }
}

/// The end of an operation, in terms of views.
pub type Outcome = std::result::Result<ReplyView, ErrorView>;

/// What a walk down a path is for.
#[derive(Debug)]
pub enum Goal {
    /// The listing of the directory at the end of the path.
    List { refresh: bool },
    /// The object at the end of the path.
    Resolve { refresh: bool },
    /// The directory at the end of the path, made where it is missing.
    Mkdir,
    /// The deletion of the object at the end of the path.
    Remove { recursive: bool },
    /// A new name for the object at the end of the path.
    Rename { new_name: String },
    /// The object at the end of the path, to be moved into `dst`.
    Move { dst: DevPath, dst_raw: String },
    /// The directory into which `object` moves out of `src_parent`.
    Into { object: u64, src_parent: u64, dst_raw: String },
}

/// A [`Goal`] in terms of views.
pub enum GoalView {
    List { refresh: bool },
    Resolve { refresh: bool },
    Mkdir,
    Remove { recursive: bool },
    Rename { new_name: Seq<char> },
    Move { dst: DevPathView, dst_raw: Seq<char> },
    Into { object: u64, src_parent: u64, dst_raw: Seq<char> },
}

impl View for Goal {
    type V = GoalView;

    open spec fn view(&self) -> GoalView {
        match *self {
            Goal::List { refresh } => GoalView::List { refresh },
            Goal::Resolve { refresh } => GoalView::Resolve { refresh },
            Goal::Mkdir => GoalView::Mkdir,
            Goal::Remove { recursive } => GoalView::Remove { recursive },
            Goal::Rename { new_name } => GoalView::Rename { new_name: new_name@ },
            Goal::Move { dst, dst_raw } => GoalView::Move { dst: dst@, dst_raw: dst_raw@ },
            Goal::Into { object, src_parent, dst_raw } => GoalView::Into {
                object,
                src_parent,
                dst_raw: dst_raw@,
            },
        }
    }
}

impl GoalView {
    /// True for the goals that act on an entry of its parent directory, which
    /// is where their walk ends.
    pub open spec fn picks(self) -> bool {
        self is Remove || self is Rename || self is Move
    }

    /// True for the goals whose way leads through directories alone.
    pub open spec fn needs_dirs(self) -> bool {
        self is List || self is Mkdir
    }

    /// True when the listings on the way are fetched anew.
    pub open spec fn refreshes(self) -> bool {
        match self {
            GoalView::List { refresh } => refresh,
            GoalView::Resolve { refresh } => refresh,
            _ => false,
        }
    }
}

/// A walk down a path: `cur` is the directory reached by the first `at`
/// segments.
#[derive(Debug)]
pub struct Walk {
    pub goal: Goal,
    pub storage: usize,
    pub path: DevPath,
    pub cur: u64,
    pub at: usize,
}

/// A [`Walk`] in terms of views.
pub struct WalkView {
    pub goal: GoalView,
    pub storage: usize,
    pub path: DevPathView,
    pub cur: u64,
    pub at: nat,
}

impl View for Walk {
    type V = WalkView;

    open spec fn view(&self) -> WalkView {
        WalkView {
            goal: self.goal@,
            storage: self.storage,
            path: self.path@,
            cur: self.cur,
            at: self.at as nat,
        }
    }
}

impl WalkView {
    /// The number of segments to walk down.
    pub open spec fn upto(self) -> nat {
        if self.goal.picks() && self.path.segments.len() > 0 {
            (self.path.segments.len() - 1) as nat
        } else {
            self.path.segments.len()
        }
    }
}

/// A directory whose entries are being deleted.
#[derive(Debug)]
pub struct Frame {
    pub dir: u64,
    pub entries: Vec<Entry>,
    pub next: usize,
}

/// A [`Frame`] in terms of views.
pub struct FrameView {
    pub dir: u64,
    pub entries: Seq<Entry>,
    pub next: nat,
}

impl View for Frame {
    type V = FrameView;

    open spec fn view(&self) -> FrameView {
        FrameView { dir: self.dir, entries: self.entries@, next: self.next as nat }
    }
}

/// The deletion of a directory with everything in it, contents first.
#[derive(Debug)]
pub struct TreeDelete {
    pub storage: usize,
    /// The directory that holds the one to delete.
    pub parent: u64,
    /// The directories on the way down, each with the entry it has come to.
    pub stack: Vec<Frame>,
    /// How many objects were deleted.
    pub count: u32,
}

/// A [`TreeDelete`] in terms of views.
#[verifier::ext_equal]
pub struct TreeView {
    pub storage: usize,
    pub parent: u64,
    pub stack: Seq<FrameView>,
    pub count: u32,
}

/// The views of a stack of frames.
pub open spec fn frames(s: Seq<Frame>) -> Seq<FrameView> {
    s.map_values(|f: Frame| f@)
}

impl View for TreeDelete {
    type V = TreeView;

    open spec fn view(&self) -> TreeView {
        TreeView {
            storage: self.storage,
            parent: self.parent,
            stack: frames(self.stack@),
            count: self.count,
        }
    }
}

/// What a listing is for.
#[derive(Debug)]
pub enum AfterList {
    /// The listing is the reply.
    Reply { storage: usize, dir: u64 },
    /// The walk that needs it.
    Walk(Walk),
    /// The deletion that comes to the directory `dir`.
    Tree { tree: TreeDelete, dir: u64 },
    /// The look-up of an object to rename or move, by its name.
    Pick { storage: usize, from: u64, from_name: String, to: u64, to_name: String },
}

/// An [`AfterList`] in terms of views.
pub enum AfterListView {
    Reply { storage: usize, dir: u64 },
    Walk(WalkView),
    Tree { tree: TreeView, dir: u64 },
    Pick { storage: usize, from: u64, from_name: Seq<char>, to: u64, to_name: Seq<char> },
}

impl View for AfterList {
    type V = AfterListView;

    open spec fn view(&self) -> AfterListView {
        match *self {
            AfterList::Reply { storage, dir } => AfterListView::Reply { storage, dir },
            AfterList::Walk(w) => AfterListView::Walk(w@),
            AfterList::Tree { tree, dir } => AfterListView::Tree { tree: tree@, dir },
            AfterList::Pick { storage, from, from_name, to, to_name } => AfterListView::Pick {
                storage,
                from,
                from_name: from_name@,
                to,
                to_name: to_name@,
            },
        }
    }
}

/// What the metadata of an object is for.
#[derive(Debug)]
pub enum AfterInfo {
    /// The metadata is the reply.
    Entry,
    /// The reply is the resolved object.
    Resolve { storage: usize, handle: u64 },
    /// The object is the directory into which another one moves.
    Into { storage: usize, dir: u64, object: u64, src_parent: u64, dst_raw: String },
}

/// An [`AfterInfo`] in terms of views.
pub enum AfterInfoView {
    Entry,
    Resolve { storage: usize, handle: u64 },
    Into { storage: usize, dir: u64, object: u64, src_parent: u64, dst_raw: Seq<char> },
}

impl View for AfterInfo {
    type V = AfterInfoView;

    open spec fn view(&self) -> AfterInfoView {
        match *self {
            AfterInfo::Entry => AfterInfoView::Entry,
            AfterInfo::Resolve { storage, handle } => AfterInfoView::Resolve { storage, handle },
            AfterInfo::Into { storage, dir, object, src_parent, dst_raw } => AfterInfoView::Into {
                storage,
                dir,
                object,
                src_parent,
                dst_raw: dst_raw@,
            },
        }
    }
}

/// What a new directory is for.
#[derive(Debug)]
pub enum AfterCreate {
    /// A missing directory of a path: segment `at`, made in `parent`.
    Path { storage: usize, path: DevPath, parent: u64, at: usize },
    /// The new directory is the reply.
    Reply { storage: usize, parent: u64, name: String },
}

/// An [`AfterCreate`] in terms of views.
pub enum AfterCreateView {
    Path { storage: usize, path: DevPathView, parent: u64, at: nat },
    Reply { storage: usize, parent: u64, name: Seq<char> },
}

impl View for AfterCreate {
    type V = AfterCreateView;

    open spec fn view(&self) -> AfterCreateView {
        match *self {
            AfterCreate::Path { storage, path, parent, at } => AfterCreateView::Path {
                storage,
                path: path@,
                parent,
                at: at as nat,
            },
            AfterCreate::Reply { storage, parent, name } => AfterCreateView::Reply {
                storage,
                parent,
                name: name@,
            },
        }
    }
}

/// What a deletion is part of.
#[derive(Debug)]
pub enum AfterDelete {
    /// A file of the directory `parent`.
    File { storage: usize, parent: u64 },
    /// A file of the directory on top of the stack.
    Child(TreeDelete),
    /// The directory on top of the stack, now empty.
    Dir(TreeDelete),
    /// An object addressed by its handle alone.
    Handle { storage: usize, handle: u64 },
    /// What a failed upload left behind; the operation ends with the error.
    Discard(Error),
}

/// An [`AfterDelete`] in terms of views.
pub enum AfterDeleteView {
    File { storage: usize, parent: u64 },
    Child(TreeView),
    Dir(TreeView),
    Handle { storage: usize, handle: u64 },
    Discard(ErrorView),
}

impl View for AfterDelete {
    type V = AfterDeleteView;

    open spec fn view(&self) -> AfterDeleteView {
        match *self {
            AfterDelete::File { storage, parent } => AfterDeleteView::File { storage, parent },
            AfterDelete::Child(t) => AfterDeleteView::Child(t@),
            AfterDelete::Dir(t) => AfterDeleteView::Dir(t@),
            AfterDelete::Handle { storage, handle } => AfterDeleteView::Handle { storage, handle },
            AfterDelete::Discard(e) => AfterDeleteView::Discard(e@),
        }
    }
}

/// What a new name is part of.
#[derive(Debug)]
pub enum AfterRename {
    /// The renamed object is the reply.
    Reply { storage: usize, parent: u64, handle: u64 },
    /// The end of a rename by handles.
    Done { storage: usize, parent: u64 },
}

/// What a move is part of.
#[derive(Debug)]
pub enum AfterMove {
    /// The moved object is the reply.
    Reply { storage: usize, object: u64, src_parent: u64, dir: u64 },
    /// A rename by handles, which goes on with the name `to_name` if it is to
    /// change.
    Rename { storage: usize, object: u64, from: u64, to: u64, to_name: Option<String> },
}

/// An [`AfterMove`] in terms of views.
pub enum AfterMoveView {
    Reply { storage: usize, object: u64, src_parent: u64, dir: u64 },
    Rename { storage: usize, object: u64, from: u64, to: u64, to_name: Option<Seq<char>> },
}

impl View for AfterMove {
    type V = AfterMoveView;

    open spec fn view(&self) -> AfterMoveView {
        match *self {
            AfterMove::Reply { storage, object, src_parent, dir } => AfterMoveView::Reply {
                storage,
                object,
                src_parent,
                dir,
            },
            AfterMove::Rename { storage, object, from, to, to_name } => AfterMoveView::Rename {
                storage,
                object,
                from,
                to,
                to_name: optional(to_name),
            },
        }
    }
}

/// What an upload is part of.
#[derive(Debug)]
pub struct AfterUpload {
    pub storage: usize,
    pub parent: u64,
    pub size: u64,
}

/// The next thing to do for an operation.
#[allow(inconsistent_fields)]
#[derive(Debug)]
pub enum Step {
    /// The operation is over.
    Done(Result<Reply>),
    /// List the objects of `dir`.
    List { storage: usize, dir: u64, after: AfterList },
    /// Fetch the metadata of `handle`.
    Info { storage: usize, handle: u64, after: AfterInfo },
    /// Read a range of `handle`.
    Read { storage: usize, handle: u64, offset: u64, count: u32 },
    /// Make the directory `name` in `parent`.
    CreateFolder { storage: usize, parent: u64, name: String, after: AfterCreate },
    /// Delete `handle`.
    Delete { storage: usize, handle: u64, after: AfterDelete },
    /// Rename `handle`.
    Rename { storage: usize, handle: u64, name: String, after: AfterRename },
    /// Move `handle` into the directory `dir`.
    Move { storage: usize, handle: u64, dir: u64, after: AfterMove },
    /// Upload a file of `size` bytes as `name` into `parent`.
    Upload { storage: usize, parent: u64, name: String, size: u64, after: AfterUpload },
    /// Stream the contents of `handle`.
    Download { storage: usize, handle: u64 },
    /// Ask the device for the storage itself.
    Probe { storage: usize },
    /// No device call: go on.
    Again(TreeDelete),
}

/// A [`Step`] in terms of views.
#[allow(inconsistent_fields)]
pub enum Plan {
    Done(Outcome),
    List { storage: usize, dir: u64, after: AfterListView },
    Info { storage: usize, handle: u64, after: AfterInfoView },
    Read { storage: usize, handle: u64, offset: u64, count: u32 },
    CreateFolder { storage: usize, parent: u64, name: Seq<char>, after: AfterCreateView },
    Delete { storage: usize, handle: u64, after: AfterDeleteView },
    Rename { storage: usize, handle: u64, name: Seq<char>, after: AfterRename },
    Move { storage: usize, handle: u64, dir: u64, after: AfterMoveView },
    Upload { storage: usize, parent: u64, name: Seq<char>, size: u64, after: AfterUpload },
    Download { storage: usize, handle: u64 },
    Probe { storage: usize },
    Again(TreeView),
}

impl View for Step {
    type V = Plan;

    open spec fn view(&self) -> Plan {
        match *self {
            Step::Done(Ok(r)) => Plan::Done(Ok(r@)),
            Step::Done(Err(e)) => Plan::Done(Err(e@)),
            Step::List { storage, dir, after } => Plan::List { storage, dir, after: after@ },
            Step::Info { storage, handle, after } => Plan::Info { storage, handle, after: after@ },
            Step::Read { storage, handle, offset, count } => Plan::Read {
                storage,
                handle,
                offset,
                count,
            },
            Step::CreateFolder { storage, parent, name, after } => Plan::CreateFolder {
                storage,
                parent,
                name: name@,
                after: after@,
            },
            Step::Delete { storage, handle, after } => Plan::Delete {
                storage,
                handle,
                after: after@,
            },
            Step::Rename { storage, handle, name, after } => Plan::Rename {
                storage,
                handle,
                name: name@,
                after,
            },
            Step::Move { storage, handle, dir, after } => Plan::Move {
                storage,
                handle,
                dir,
                after: after@,
            },
            Step::Upload { storage, parent, name, size, after } => Plan::Upload {
                storage,
                parent,
                name: name@,
                size,
                after,
            },
            Step::Download { storage, handle } => Plan::Download { storage, handle },
            Step::Probe { storage } => Plan::Probe { storage },
            Step::Again(t) => Plan::Again(t@),
        }
    }
}

} // verus!
