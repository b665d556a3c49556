//! The operations of one device session.
//!
//! MTP allows one session per device, so one task owns the connection and
//! serves requests one after the other. This module decides what that task
//! does: given a request it says which device call comes next, and given the
//! answer to that call it says how to go on. A [`Step`] is either such a call,
//! with the value that carries the operation on, or the reply.
//!
//! Paths are resolved against the metadata cache; a directory whose listing is
//! not fresh is asked for. An operation that changes a directory drops its
//! listing as soon as the device has answered.

use vstd::prelude::*;

use crate::cache::{dropped, dropped_handle, fresh_listing, stored, CacheView, MetaCache};
use crate::error::{Error, ErrorView, Result};
use crate::model::{
    copy_entries, copy_storages, entry_views, DeviceSummary, Entry, EntryView, Resolved,
    StorageSummary, ROOT,
};
use crate::names::{names_eq_ci, same_name_ci};
use crate::path::{parsed, path_text, DevPath, DevPathView};
use crate::step::{
    frames, AfterCreate, AfterCreateView, AfterDelete, AfterDeleteView, AfterInfo, AfterInfoView,
    AfterList, AfterListView, AfterMove, AfterMoveView, AfterRename, AfterUpload, Frame, FrameView,
    Goal, GoalView, Plan, Reply, ReplyView, Step, SummaryView, TreeDelete, TreeView, Walk, WalkView,
};
use crate::text::{
    all_digits, chars_of, dec, dec_value, digits_value, has_char, is_dec_digit, owned, push_dec,
    quoted_of, quoted_text, same_text, sub_chars, texts,
};

verus! {

// ---------------------------------------------------------------------------
// The session
// ---------------------------------------------------------------------------

/// The storages of the connected device and what is known of their contents.
#[derive(Debug)]
pub struct Session {
    storages: Vec<StorageSummary>,
    cache: MetaCache,
}

/// A [`Session`] in terms of views.
#[verifier::ext_equal]
pub struct SessionView {
    pub storages: Seq<StorageSummary>,
    pub cache: CacheView,
}

impl View for Session {
    type V = SessionView;

    closed spec fn view(&self) -> SessionView {
        SessionView { storages: self.storages@, cache: self.cache@ }
    }
}

impl SessionView {
    /// The session with another cache.
    pub open spec fn with(self, cache: CacheView) -> SessionView {
        SessionView { storages: self.storages, cache }
    }

    /// The id of a storage of the table.
    pub open spec fn id(self, storage: usize) -> u32 {
        self.storages[storage as int].id
    }
}

/// The end of an operation on a storage that is not in the table.
pub open spec fn out_of_range(storage: usize) -> Plan {
    Plan::Done(
        Err(
            ErrorView::InvalidArgument(
                "storage index "@ + dec(storage as nat) + " out of range"@,
            ),
        ),
    )
}

/// An operation that fails.
pub open spec fn fail(e: ErrorView) -> Plan {
    Plan::Done(Err(e))
}

// ---------------------------------------------------------------------------
// Names
// ---------------------------------------------------------------------------

/// The first child with the given name.
pub open spec fn child_named(children: Seq<Entry>, name: Seq<char>) -> Option<Entry>
    decreases children.len(),
{
    if children.len() == 0 {
        None
    } else if same_name_ci(children.first().name@, name) {
        Some(children.first())
    } else {
        child_named(children.drop_first(), name)
    }
}

/// Searches the first child with the given name.
pub fn child_by_name<'a>(children: &'a Vec<Entry>, name: &str) -> (r: Option<&'a Entry>)
    ensures
        match r {
            Some(e) => child_named(children@, name@) == Some(*e),
            None => child_named(children@, name@) is None,
        },
{
    let mut i: usize = 0;
    assert(children@.skip(0) =~= children@);
    while i < children.len()
        invariant
            i <= children.len(),
            child_named(children@, name@) == child_named(children@.skip(i as int), name@),
        decreases children.len() - i,
    {
        assert(children@.skip(i as int).drop_first() =~= children@.skip(i + 1));
        if names_eq_ci(children[i].name.as_str(), name) {
            return Some(&children[i]);
        }
        i = i + 1;
    }
    None
}

/// The first storage whose description is `reference`, at or after `from`.
pub open spec fn storage_named(
    storages: Seq<StorageSummary>,
    reference: Seq<char>,
    from: nat,
) -> Option<nat>
    decreases storages.len() - from,
{
    if from >= storages.len() {
        None
    } else if same_name_ci(storages[from as int].description@, reference) {
        Some(from)
    } else {
        storage_named(storages, reference, from + 1)
    }
}

/// The number written in `s`: decimal digits, after a plus sign or not.
pub open spec fn number_of(s: Seq<char>) -> Option<nat> {
    let digits = if s.len() > 0 && s.first() == '+' {
        s.drop_first()
    } else {
        s
    };
    if digits.len() > 0 && all_digits(digits) {
        Some(dec_value(digits))
    } else {
        None
    }
}

/// The index of the storage that `reference` addresses: by its description, or
/// else by its position counted from one.
pub open spec fn storage_index(storages: Seq<StorageSummary>, reference: Seq<char>) -> Option<nat> {
    match storage_named(storages, reference, 0) {
        Some(i) => Some(i),
        None => match number_of(reference) {
            Some(n) => if 1 <= n <= storages.len() {
                Some((n - 1) as nat)
            } else {
                None
            },
            None => None,
        },
    }
}

/// The texts of the descriptions in a storage table.
pub open spec fn descriptions(storages: Seq<StorageSummary>) -> Seq<Seq<char>> {
    storages.map_values(|s: StorageSummary| s.description@)
}

/// Texts, each quoted, with a comma and a space between them.
pub open spec fn quoted_items(v: Seq<Seq<char>>) -> Seq<char>
    decreases v.len(),
{
    if v.len() == 0 {
        Seq::empty()
    } else if v.len() == 1 {
        quoted_of(v[0])
    } else {
        quoted_items(v.drop_last()) + ", "@ + quoted_of(v.last())
    }
}

/// A list of texts as messages show it.
pub open spec fn quoted_list(v: Seq<Seq<char>>) -> Seq<char> {
    "["@ + quoted_items(v) + "]"@
}

/// The error for a storage that is not known.
pub open spec fn unknown_storage(storages: Seq<StorageSummary>, reference: Seq<char>) -> ErrorView {
    ErrorView::NotFound(
        "storage '"@ + reference + "' (known: "@ + quoted_list(descriptions(storages))
            + ", or use 1-based index)"@,
    )
}

fn parse_number(v: &Vec<char>) -> (r: Option<u64>)
    ensures
        match r {
            Some(n) => number_of(v@) == Some(n as nat),
            None => match number_of(v@) {
                Some(n) => n > u64::MAX,
                None => true,
            },
        },
{
    let lo: usize = if v.len() > 0 && v[0] == '+' {
        1
    } else {
        0
    };
    let digits = sub_chars(v, lo, v.len());
    assert(lo == 0 ==> digits@ =~= v@);
    assert(lo == 1 ==> digits@ =~= v@.drop_first());
    let ghost number = number_of(v@);
    assert(number == if digits@.len() > 0 && all_digits(digits@) {
        Some(dec_value(digits@))
    } else {
        None
    });
    let mut i: usize = 0;
    while i < digits.len()
        invariant
            i <= digits.len(),
            number == number_of(v@),
            !all_digits(digits@) ==> number is None,
            forall|j: int| 0 <= j < i ==> is_dec_digit(#[trigger] digits@[j]),
        decreases digits.len() - i,
    {
        let c = digits[i];
        if c < '0' || c > '9' {
            assert(!is_dec_digit(digits@[i as int]));
            return None;
        }
        i = i + 1;
    }
    digits_value(&digits)
}

/// Searches the storage that `reference` addresses.
pub fn find_storage_index(storages: &Vec<StorageSummary>, reference: &str) -> (r: Result<usize>)
    ensures
        match r {
            Ok(i) => i < storages@.len() && storage_index(storages@, reference@) == Some(i as nat),
            Err(e) => storage_index(storages@, reference@) is None && e@ == unknown_storage(
                storages@,
                reference@,
            ),
        },
{
    let mut i: usize = 0;
    while i < storages.len()
        invariant
            i <= storages.len(),
            storage_named(storages@, reference@, 0) == storage_named(
                storages@,
                reference@,
                i as nat,
            ),
        decreases storages.len() - i,
    {
        if names_eq_ci(storages[i].description.as_str(), reference) {
            return Ok(i);
        }
        i = i + 1;
    }
    let c = chars_of(reference);
    if let Some(n) = parse_number(&c) {
        if n >= 1 && n <= storages.len() as u64 {
            return Ok((n - 1) as usize);
        }
    }
    let mut known = String::new();
    let mut j: usize = 0;
    while j < storages.len()
        invariant
            j <= storages.len(),
            known@ == quoted_items(descriptions(storages@.take(j as int))),
        decreases storages.len() - j,
    {
        if j > 0 {
            known.push_str(", ");
        }
        known.push_str(quoted_text(storages[j].description.as_str()).as_str());
        proof {
            let before = descriptions(storages@.take(j as int));
            let after = descriptions(storages@.take(j + 1));
            assert(after.drop_last() =~= before);
            assert(after.last() == storages@[j as int].description@);
            assert(known@ =~= quoted_items(after));
        }
        j = j + 1;
    }
    assert(storages@.take(j as int) =~= storages@);
    let mut s = owned("storage '");
    s.push_str(reference);
    s.push_str("' (known: [");
    s.push_str(known.as_str());
    s.push_str("], or use 1-based index)");
    proof {
        reveal_strlit("' (known: [");
        reveal_strlit("' (known: ");
        reveal_strlit("[");
        reveal_strlit("]");
        reveal_strlit("], or use 1-based index)");
        reveal_strlit(", or use 1-based index)");
    }
    assert(s@ =~= "storage '"@ + reference@ + "' (known: "@ + quoted_list(
        descriptions(storages@),
    ) + ", or use 1-based index)"@);
    Err(Error::NotFound(s))
}

// ---------------------------------------------------------------------------
// Walking down a path
// ---------------------------------------------------------------------------

/// Where a walk comes to with what is in the cache.
pub enum Descent {
    /// The listing of `dir` is needed to look up segment `at`.
    Need { dir: u64, at: usize },
    /// `dir` has no entry named by segment `at`.
    Missing { dir: u64, at: usize },
    /// Segment `at` names a file where a directory is needed.
    NotDir { at: usize },
    /// The walk has come to `dir`.
    At { dir: u64 },
}

/// A [`Descent`] in terms of views.
pub enum DescentView {
    Need { dir: u64, at: nat },
    Missing { dir: u64, at: nat },
    NotDir { at: nat },
    At { dir: u64 },
}

impl View for Descent {
    type V = DescentView;

    open spec fn view(&self) -> DescentView {
        match *self {
            Descent::Need { dir, at } => DescentView::Need { dir, at: at as nat },
            Descent::Missing { dir, at } => DescentView::Missing { dir, at: at as nat },
            Descent::NotDir { at } => DescentView::NotDir { at: at as nat },
            Descent::At { dir } => DescentView::At { dir },
        }
    }
}

/// The walk one segment further, in the directory `dir`.
pub open spec fn deeper(w: WalkView, dir: u64) -> WalkView {
    WalkView { cur: dir, at: w.at + 1, ..w }
}

/// Goes down the path as far as fresh listings of the storage `sid` lead.
pub open spec fn descend(c: CacheView, sid: u32, now: u64, w: WalkView) -> DescentView
    decreases w.upto() - w.at, 1int,
{
    if w.at >= w.upto() {
        DescentView::At { dir: w.cur }
    } else if w.goal.refreshes() {
        DescentView::Need { dir: w.cur, at: w.at }
    } else {
        match fresh_listing(c, sid, w.cur, now) {
            None => DescentView::Need { dir: w.cur, at: w.at },
            Some(children) => descend_from(c, sid, now, w, children),
        }
    }
}

/// Goes down the path, where `children` is the listing of the directory that
/// the walk has come to.
pub open spec fn descend_from(
    c: CacheView,
    sid: u32,
    now: u64,
    w: WalkView,
    children: Seq<Entry>,
) -> DescentView
    decreases w.upto() - w.at, 0int,
{
    if w.at >= w.upto() {
        DescentView::At { dir: w.cur }
    } else {
        match child_named(children, w.path.segments[w.at as int]) {
            None => DescentView::Missing { dir: w.cur, at: w.at },
            Some(e) => if w.goal.needs_dirs() && !e.is_dir {
                DescentView::NotDir { at: w.at }
            } else {
                descend(c, sid, now, deeper(w, e.handle))
            },
        }
    }
}

/// The path up to and including segment `at`.
pub open spec fn path_prefix(p: DevPathView, at: nat) -> DevPathView {
    DevPathView { storage_ref: p.storage_ref, segments: p.segments.take((at + 1) as int) }
}

/// What follows when a segment has no entry.
pub open spec fn missing(w: WalkView, dir: u64, at: nat) -> Plan {
    match w.goal {
        GoalView::Mkdir => Plan::CreateFolder {
            storage: w.storage,
            parent: dir,
            name: w.path.segments[at as int],
            after: AfterCreateView::Path { storage: w.storage, path: w.path, parent: dir, at },
        },
        GoalView::List { .. } | GoalView::Resolve { .. } | GoalView::Into { .. } => fail(
            ErrorView::NotFound(path_text(path_prefix(w.path, at))),
        ),
        _ => fail(
            ErrorView::NotFound(path_text(w.path).push('/') + w.path.segments[at as int]),
        ),
    }
}

/// What follows when a file stands in the way.
pub open spec fn not_a_dir(w: WalkView, at: nat) -> Plan {
    match w.goal {
        GoalView::Mkdir => fail(
            ErrorView::WrongKind(
                "'"@ + w.path.segments[at as int] + "' exists and is not a directory"@,
            ),
        ),
        _ => fail(
            ErrorView::WrongKind(path_text(path_prefix(w.path, at)) + " is not a directory"@),
        ),
    }
}

/// The last segment of a path; empty when there is none.
pub open spec fn last_segment(p: DevPathView) -> Seq<char> {
    if p.segments.len() == 0 {
        Seq::empty()
    } else {
        p.segments.last()
    }
}

/// The walk at the directory where it was to end.
pub open spec fn ended_at(w: WalkView, dir: u64) -> WalkView {
    WalkView { cur: dir, at: w.upto(), ..w }
}

/// The directory that a successful `mkdir` replies with.
pub open spec fn made_dir(handle: u64, p: DevPathView) -> Plan {
    Plan::Done(
        Ok(
            ReplyView::Entry(
                EntryView { handle, parent: 0, name: last_segment(p), is_dir: true, size: 0 },
            ),
        ),
    )
}

/// The metadata of the object at the end of the walk is asked for.
pub open spec fn ask_info(w: WalkView, dir: u64) -> Plan {
    Plan::Info {
        storage: w.storage,
        handle: dir,
        after: match w.goal {
            GoalView::Into { object, src_parent, dst_raw } => AfterInfoView::Into {
                storage: w.storage,
                dir,
                object,
                src_parent,
                dst_raw,
            },
            _ => AfterInfoView::Resolve { storage: w.storage, handle: dir },
        },
    }
}

/// What follows when the walk has ended at `dir`.
pub open spec fn arrived(v: SessionView, now: u64, w: WalkView, dir: u64) -> Plan {
    match w.goal {
        GoalView::Mkdir => made_dir(dir, w.path),
        GoalView::Resolve { .. } | GoalView::Into { .. } => ask_info(w, dir),
        _ => match (if w.goal.refreshes() {
            None
        } else {
            fresh_listing(v.cache, v.id(w.storage), dir, now)
        }) {
            None => Plan::List {
                storage: w.storage,
                dir,
                after: AfterListView::Walk(ended_at(w, dir)),
            },
            Some(children) => arrived_with(v, now, w, dir, children),
        },
    }
}

/// What follows when the walk has ended at `dir` and `children` is its listing.
pub open spec fn arrived_with(
    v: SessionView,
    now: u64,
    w: WalkView,
    dir: u64,
    children: Seq<Entry>,
) -> Plan {
    match w.goal {
        GoalView::Remove { .. } | GoalView::Rename { .. } | GoalView::Move { .. } => match child_named(
            children,
            last_segment(w.path),
        ) {
            None => fail(ErrorView::NotFound(path_text(w.path))),
            Some(e) => picked(v, now, w, dir, e),
        },
        _ => Plan::Done(Ok(ReplyView::Entries(entry_views(children)))),
    }
}

/// What follows when the entry `e` of `dir` is the one to act on.
pub open spec fn picked(v: SessionView, now: u64, w: WalkView, dir: u64, e: Entry) -> Plan {
    match w.goal {
        GoalView::Remove { recursive } => if !e.is_dir {
            Plan::Delete {
                storage: w.storage,
                handle: e.handle,
                after: AfterDeleteView::File { storage: w.storage, parent: dir },
            }
        } else if !recursive {
            fail(ErrorView::WrongKind(path_text(w.path) + " is a directory"@))
        } else {
            enter(
                v,
                now,
                TreeView { storage: w.storage, parent: dir, stack: Seq::empty(), count: 0 },
                e.handle,
            )
        },
        GoalView::Rename { new_name } => Plan::Rename {
            storage: w.storage,
            handle: e.handle,
            name: new_name,
            after: AfterRename::Reply { storage: w.storage, parent: dir, handle: e.handle },
        },
        GoalView::Move { dst, dst_raw } => seek_destination(
            v,
            now,
            WalkView {
                goal: GoalView::Into { object: e.handle, src_parent: dir, dst_raw },
                storage: w.storage,
                path: dst,
                cur: ROOT,
                at: 0,
            },
        ),
        _ => Plan::Done(Ok(ReplyView::Nothing)),
    }
}

/// What follows from a descent that ends in the metadata of an object, or does
/// not come to its end.
pub open spec fn halted(w: WalkView, d: DescentView) -> Plan {
    match d {
        DescentView::Need { dir, at } => Plan::List {
            storage: w.storage,
            dir,
            after: AfterListView::Walk(WalkView { cur: dir, at, ..w }),
        },
        DescentView::Missing { dir, at } => missing(w, dir, at),
        DescentView::NotDir { at } => not_a_dir(w, at),
        DescentView::At { dir } => ask_info(w, dir),
    }
}

/// The walk to the destination of a move, as far as the cache leads.
pub open spec fn seek_destination(v: SessionView, now: u64, w: WalkView) -> Plan {
    halted(w, descend(v.cache, v.id(w.storage), now, w))
}

/// What follows from a descent.
pub open spec fn after_descent(v: SessionView, now: u64, w: WalkView, d: DescentView) -> Plan {
    match d {
        DescentView::At { dir } => arrived(v, now, w, dir),
        _ => halted(w, d),
    }
}

/// A walk, as far as the cache leads.
pub open spec fn proceed(v: SessionView, now: u64, w: WalkView) -> Plan {
    after_descent(v, now, w, descend(v.cache, v.id(w.storage), now, w))
}

// ---------------------------------------------------------------------------
// Deleting a tree
// ---------------------------------------------------------------------------

/// The deletion comes to the directory `dir`: its listing goes on the stack.
pub open spec fn enter(v: SessionView, now: u64, t: TreeView, dir: u64) -> Plan {
    match fresh_listing(v.cache, v.id(t.storage), dir, now) {
        Some(children) => Plan::Again(entered(t, dir, children)),
        None => Plan::List { storage: t.storage, dir, after: AfterListView::Tree { tree: t, dir } },
    }
}

/// The deletion with the listing of `dir` on the stack.
pub open spec fn entered(t: TreeView, dir: u64, children: Seq<Entry>) -> TreeView {
    TreeView { stack: t.stack.push(FrameView { dir, entries: children, next: 0 }), ..t }
}

/// The deletion past the next entry of the directory on top.
pub open spec fn past_entry(t: TreeView) -> TreeView {
    let top = t.stack.last();
    TreeView {
        stack: t.stack.drop_last().push(FrameView { next: top.next + 1, ..top }),
        ..t
    }
}

/// The next thing to delete: the next entry of the directory on top, or, when
/// all of them are gone, that directory itself.
pub open spec fn advance(v: SessionView, now: u64, t: TreeView) -> Plan {
    if t.stack.len() == 0 {
        Plan::Done(Ok(ReplyView::Count(t.count)))
    } else {
        let top = t.stack.last();
        if top.next >= top.entries.len() {
            Plan::Delete { storage: t.storage, handle: top.dir, after: AfterDeleteView::Dir(t) }
        } else {
            let e = top.entries[top.next as int];
            if e.is_dir {
                enter(v, now, past_entry(t), e.handle)
            } else {
                Plan::Delete {
                    storage: t.storage,
                    handle: e.handle,
                    after: AfterDeleteView::Child(past_entry(t)),
                }
            }
        }
    }
}

/// One more deleted object.
pub open spec fn one_more(n: u32) -> u32 {
    if n == u32::MAX {
        n
    } else {
        (n + 1) as u32
    }
}

/// The directory that holds the one on top of the stack.
pub open spec fn holder(t: TreeView) -> u64 {
    if t.stack.len() >= 2 {
        t.stack[t.stack.len() - 2].dir
    } else {
        t.parent
    }
}

/// The deletion after the directory on top is gone.
pub open spec fn left_dir(t: TreeView) -> TreeView {
    TreeView { stack: t.stack.drop_last(), count: one_more(t.count), ..t }
}

/// The deletion after a file of the directory on top is gone.
pub open spec fn left_file(t: TreeView) -> TreeView {
    TreeView { count: one_more(t.count), ..t }
}

// ---------------------------------------------------------------------------
// Executing a walk
// ---------------------------------------------------------------------------

fn prefix_text(p: &DevPath, at: usize) -> (r: String)
    requires
        at < p@.segments.len(),
    ensures
        r@ == path_text(path_prefix(p@, at as nat)),
{
    let mut segments: Vec<String> = Vec::new();
    let mut i: usize = 0;
    while i <= at
        invariant
            i <= at + 1,
            at < p.segments.len(),
            texts(segments@) == p@.segments.take(i as int),
        decreases at + 1 - i,
    {
        let ghost before = texts(segments@);
        let seg = p.segments[i].clone();
        assert(texts(segments@.push(seg)) =~= before.push(seg@));
        segments.push(seg);
        assert(p@.segments.take(i + 1) =~= before.push(p@.segments[i as int]));
        i = i + 1;
    }
    let cut = DevPath { storage_ref: p.storage_ref.clone(), segments };
    assert(cut@ =~= path_prefix(p@, at as nat));
    cut.display()
}

fn last_name(p: &DevPath) -> (r: String)
    ensures
        r@ == last_segment(p@),
{
    if p.segments.len() == 0 {
        String::new()
    } else {
        p.segments[p.segments.len() - 1].clone()
    }
}

fn failed(e: Error) -> (r: Step)
    ensures
        r@ == fail(e@),
{
    Step::Done(Err(e))
}

fn bad_storage(storage: usize) -> (r: Step)
    ensures
        r@ == out_of_range(storage),
{
    let mut s = owned("storage index ");
    push_dec(&mut s, storage as u64);
    s.push_str(" out of range");
    failed(Error::InvalidArgument(s))
}

impl Goal {
    fn picks(&self) -> (r: bool)
        ensures
            r == self@.picks(),
    {
        match self {
            Goal::Remove { .. } => true,
            Goal::Rename { .. } => true,
            Goal::Move { .. } => true,
            _ => false,
        }
    }

    fn needs_dirs(&self) -> (r: bool)
        ensures
            r == self@.needs_dirs(),
    {
        match self {
            Goal::List { .. } => true,
            Goal::Mkdir => true,
            _ => false,
        }
    }

    fn refreshes(&self) -> (r: bool)
        ensures
            r == self@.refreshes(),
    {
        match self {
            Goal::List { refresh } => *refresh,
            Goal::Resolve { refresh } => *refresh,
            _ => false,
        }
    }
}

impl Walk {
    fn upto(&self) -> (r: usize)
        ensures
            r as nat == self@.upto(),
            r <= self@.path.segments.len(),
    {
        let n = self.path.segments.len();
        if self.goal.picks() && n > 0 {
            n - 1
        } else {
            n
        }
    }
}

impl Session {
    /// Goes down the path from `cur` and segment `at`.
    fn descend(&self, sid: u32, now: u64, w: &Walk, cur: u64, at: usize) -> (r: Descent)
        ensures
            r@ == descend(self@.cache, sid, now, WalkView { cur, at: at as nat, ..w@ }),
            r matches Descent::Need { at: a, .. } ==> at <= a < w@.path.segments.len(),
            r matches Descent::Missing { at: a, .. } ==> at <= a < w@.path.segments.len(),
            r matches Descent::NotDir { at: a } ==> at <= a < w@.path.segments.len(),
    {
        let upto = w.upto();
        let refresh = w.goal.refreshes();
        let needs_dirs = w.goal.needs_dirs();
        let mut dir: u64 = cur;
        let mut i: usize = at;
        while i < upto
            invariant
                at <= i,
                upto as nat == w@.upto(),
                upto <= w@.path.segments.len(),
                refresh == w@.goal.refreshes(),
                needs_dirs == w@.goal.needs_dirs(),
                descend(self@.cache, sid, now, WalkView { cur, at: at as nat, ..w@ }) == descend(
                    self@.cache,
                    sid,
                    now,
                    WalkView { cur: dir, at: i as nat, ..w@ },
                ),
            decreases upto - i,
        {
            if refresh {
                return Descent::Need { dir, at: i };
            }
            match self.cache.listing_at(sid, dir, now) {
                None => {
                    return Descent::Need { dir, at: i };
                },
                Some(children) => {
                    assert(w.path@.segments[i as int] == w.path.segments@[i as int]@);
                    match child_by_name(children, w.path.segments[i].as_str()) {
                        None => {
                            return Descent::Missing { dir, at: i };
                        },
                        Some(e) => {
                            if needs_dirs && !e.is_dir {
                                return Descent::NotDir { at: i };
                            }
                            dir = e.handle;
                            i = i + 1;
                        },
                    }
                },
            }
        }
        Descent::At { dir }
    }

    /// Goes down the path from the directory whose listing is `children`.
    fn descend_listed(&self, sid: u32, now: u64, w: &Walk, children: &Vec<Entry>) -> (r: Descent)
        ensures
            r@ == descend_from(self@.cache, sid, now, w@, children@),
            r matches Descent::Need { at: a, .. } ==> w.at <= a < w@.path.segments.len(),
            r matches Descent::Missing { at: a, .. } ==> w.at <= a < w@.path.segments.len(),
            r matches Descent::NotDir { at: a } ==> w.at <= a < w@.path.segments.len(),
    {
        if w.at >= w.upto() {
            return Descent::At { dir: w.cur };
        }
        assert(w.path@.segments[w.at as int] == w.path.segments@[w.at as int]@);
        match child_by_name(children, w.path.segments[w.at].as_str()) {
            None => Descent::Missing { dir: w.cur, at: w.at },
            Some(e) => {
                if w.goal.needs_dirs() && !e.is_dir {
                    Descent::NotDir { at: w.at }
                } else {
                    self.descend(sid, now, w, e.handle, w.at + 1)
                }
            },
        }
    }

    fn missing(&self, w: Walk, dir: u64, at: usize) -> (r: Step)
        requires
            at < w@.path.segments.len(),
        ensures
            r@ == missing(w@, dir, at as nat),
    {
        assert(w.path@.segments[at as int] == w.path.segments@[at as int]@);
        match w.goal {
            Goal::Mkdir => {
                let name = w.path.segments[at].clone();
                Step::CreateFolder {
                    storage: w.storage,
                    parent: dir,
                    name,
                    after: AfterCreate::Path {
                        storage: w.storage,
                        path: w.path,
                        parent: dir,
                        at,
                    },
                }
            },
            Goal::List { .. } => failed(Error::NotFound(prefix_text(&w.path, at))),
            Goal::Resolve { .. } => failed(Error::NotFound(prefix_text(&w.path, at))),
            Goal::Into { .. } => failed(Error::NotFound(prefix_text(&w.path, at))),
            _ => {
                let mut s = w.path.display();
                s.push('/');
                s.push_str(w.path.segments[at].as_str());
                failed(Error::NotFound(s))
            },
        }
    }

    fn not_a_dir(&self, w: Walk, at: usize) -> (r: Step)
        requires
            at < w@.path.segments.len(),
        ensures
            r@ == not_a_dir(w@, at as nat),
    {
        assert(w.path@.segments[at as int] == w.path.segments@[at as int]@);
        match w.goal {
            Goal::Mkdir => {
                let mut s = owned("'");
                s.push_str(w.path.segments[at].as_str());
                s.push_str("' exists and is not a directory");
                failed(Error::WrongKind(s))
            },
            _ => {
                let mut s = prefix_text(&w.path, at);
                s.push_str(" is not a directory");
                failed(Error::WrongKind(s))
            },
        }
    }

    fn ask_info(&self, w: Walk, dir: u64) -> (r: Step)
        ensures
            r@ == ask_info(w@, dir),
    {
        let storage = w.storage;
        let after = match w.goal {
            Goal::Into { object, src_parent, dst_raw } => AfterInfo::Into {
                storage,
                dir,
                object,
                src_parent,
                dst_raw,
            },
            _ => AfterInfo::Resolve { storage, handle: dir },
        };
        Step::Info { storage, handle: dir, after }
    }

    fn halted(&self, w: Walk, d: Descent) -> (r: Step)
        requires
            d matches Descent::Missing { at, .. } ==> at < w@.path.segments.len(),
            d matches Descent::NotDir { at } ==> at < w@.path.segments.len(),
        ensures
            r@ == halted(w@, d@),
    {
        match d {
            Descent::Need { dir, at } => Step::List {
                storage: w.storage,
                dir,
                after: AfterList::Walk(
                    Walk { goal: w.goal, storage: w.storage, path: w.path, cur: dir, at },
                ),
            },
            Descent::Missing { dir, at } => self.missing(w, dir, at),
            Descent::NotDir { at } => self.not_a_dir(w, at),
            Descent::At { dir } => self.ask_info(w, dir),
        }
    }

    fn arrived(&self, now: u64, w: Walk, dir: u64) -> (r: Step)
        requires
            w.storage < self@.storages.len(),
        ensures
            r@ == arrived(self@, now, w@, dir),
    {
        let direct = match &w.goal {
            Goal::Mkdir => 0u8,
            Goal::Resolve { .. } => 1u8,
            Goal::Into { .. } => 1u8,
            _ => 2u8,
        };
        if direct == 0 {
            let name = last_name(&w.path);
            let entry = Entry { handle: dir, parent: 0, name, is_dir: true, size: 0 };
            return Step::Done(Ok(Reply::Entry(entry)));
        }
        if direct == 1 {
            return self.ask_info(w, dir);
        }
        let sid = self.storages[w.storage].id;
        if !w.goal.refreshes() {
            if let Some(children) = self.cache.listing_at(sid, dir, now) {
                return self.arrived_with(now, w, dir, children);
            }
        }
        let at = w.upto();
        let storage = w.storage;
        Step::List {
            storage,
            dir,
            after: AfterList::Walk(Walk { goal: w.goal, storage, path: w.path, cur: dir, at }),
        }
    }

    fn arrived_with(&self, now: u64, w: Walk, dir: u64, children: &Vec<Entry>) -> (r: Step)
        requires
            w.storage < self@.storages.len(),
        ensures
            r@ == arrived_with(self@, now, w@, dir, children@),
    {
        if w.goal.picks() {
            let name = last_name(&w.path);
            match child_by_name(children, name.as_str()) {
                None => failed(Error::NotFound(w.path.display())),
                Some(e) => self.picked(now, w, dir, e),
            }
        } else {
            Step::Done(Ok(Reply::Entries(copy_entries(children))))
        }
    }

    fn picked(&self, now: u64, w: Walk, dir: u64, e: &Entry) -> (r: Step)
        requires
            w.storage < self@.storages.len(),
        ensures
            r@ == picked(self@, now, w@, dir, *e),
    {
        let storage = w.storage;
        match w.goal {
            Goal::Remove { recursive } => {
                if !e.is_dir {
                    Step::Delete {
                        storage,
                        handle: e.handle,
                        after: AfterDelete::File { storage, parent: dir },
                    }
                } else if !recursive {
                    let mut s = w.path.display();
                    s.push_str(" is a directory");
                    failed(Error::WrongKind(s))
                } else {
                    let tree = TreeDelete { storage, parent: dir, stack: Vec::new(), count: 0 };
                    assert(tree@.stack =~= Seq::empty());
                    self.enter(now, tree, e.handle)
                }
            },
            Goal::Rename { new_name } => Step::Rename {
                storage,
                handle: e.handle,
                name: new_name,
                after: AfterRename::Reply { storage, parent: dir, handle: e.handle },
            },
            Goal::Move { dst, dst_raw } => {
                let to = Walk {
                    goal: Goal::Into { object: e.handle, src_parent: dir, dst_raw },
                    storage,
                    path: dst,
                    cur: ROOT,
                    at: 0,
                };
                let d = self.descend(self.storages[storage].id, now, &to, ROOT, 0);
                self.halted(to, d)
            },
            _ => Step::Done(Ok(Reply::Nothing)),
        }
    }

    fn after_descent(&self, now: u64, w: Walk, d: Descent) -> (r: Step)
        requires
            w.storage < self@.storages.len(),
            d matches Descent::Missing { at, .. } ==> at < w@.path.segments.len(),
            d matches Descent::NotDir { at } ==> at < w@.path.segments.len(),
        ensures
            r@ == after_descent(self@, now, w@, d@),
    {
        match d {
            Descent::At { dir } => self.arrived(now, w, dir),
            _ => self.halted(w, d),
        }
    }

    fn proceed(&self, now: u64, w: Walk) -> (r: Step)
        requires
            w.storage < self@.storages.len(),
        ensures
            r@ == proceed(self@, now, w@),
    {
        let d = self.descend(self.storages[w.storage].id, now, &w, w.cur, w.at);
        self.after_descent(now, w, d)
    }

    // -----------------------------------------------------------------------
    // Executing the deletion of a tree
    // -----------------------------------------------------------------------

    fn enter(&self, now: u64, tree: TreeDelete, dir: u64) -> (r: Step)
        requires
            tree.storage < self@.storages.len(),
        ensures
            r@ == enter(self@, now, tree@, dir),
    {
        let sid = self.storages[tree.storage].id;
        match self.cache.listing_at(sid, dir, now) {
            Some(children) => Step::Again(push_frame(tree, dir, copy_entries(children))),
            None => {
                let storage = tree.storage;
                Step::List { storage, dir, after: AfterList::Tree { tree, dir } }
            },
        }
    }

    fn advance(&self, now: u64, tree: TreeDelete) -> (r: Step)
        requires
            tree.storage < self@.storages.len(),
        ensures
            r@ == advance(self@, now, tree@),
    {
        let storage = tree.storage;
        let n = tree.stack.len();
        if n == 0 {
            return Step::Done(Ok(Reply::Count(tree.count)));
        }
        assert(tree@.stack.last() == tree.stack@[n - 1]@);
        let next = tree.stack[n - 1].next;
        if next >= tree.stack[n - 1].entries.len() {
            let handle = tree.stack[n - 1].dir;
            return Step::Delete { storage, handle, after: AfterDelete::Dir(tree) };
        }
        let handle = tree.stack[n - 1].entries[next].handle;
        let is_dir = tree.stack[n - 1].entries[next].is_dir;
        let rest = skip_entry(tree);
        if is_dir {
            self.enter(now, rest, handle)
        } else {
            Step::Delete { storage, handle, after: AfterDelete::Child(rest) }
        }
    }
}

fn push_frame(tree: TreeDelete, dir: u64, entries: Vec<Entry>) -> (r: TreeDelete)
    ensures
        r@ == entered(tree@, dir, entries@),
        r.storage == tree.storage,
{
    let mut t = tree;
    let ghost before = t@;
    let f = Frame { dir, entries, next: 0 };
    assert(frames(t.stack@.push(f)) =~= before.stack.push(f@));
    t.stack.push(f);
    assert(t@ =~= entered(before, dir, entries@));
    t
}

fn skip_entry(tree: TreeDelete) -> (r: TreeDelete)
    requires
        tree@.stack.len() > 0,
        tree@.stack.last().next < tree@.stack.last().entries.len(),
    ensures
        r@ == past_entry(tree@),
        r.storage == tree.storage,
{
    let mut t = tree;
    let ghost before = t@;
    assert(before.stack.last() == t.stack@.last()@);
    match t.stack.pop() {
        Some(f) => {
            let ghost rest = frames(t.stack@);
            assert(rest =~= before.stack.drop_last());
            assert(f.next < f.entries.len());
            let g = Frame { dir: f.dir, entries: f.entries, next: f.next + 1 };
            assert(frames(t.stack@.push(g)) =~= rest.push(g@));
            t.stack.push(g);
            assert(t@ =~= past_entry(before));
        },
        None => {},
    }
    t
}

// ---------------------------------------------------------------------------
// Requests
// ---------------------------------------------------------------------------

/// A request to the session.
#[allow(inconsistent_fields)]
#[derive(Debug)]
pub enum Request {
    /// Stop serving and close the device.
    Shutdown,
    /// List a directory by its handle.
    HList { storage_index: usize, dir: u64 },
    /// Fetch the metadata of an object by its handle.
    HInfo { storage_index: usize, handle: u64 },
    /// Read a range of an object by its handle.
    HRead { storage_index: usize, handle: u64, offset: u64, count: u32 },
    /// Delete an object by its handle.
    HDelete { storage_index: usize, handle: u64 },
    /// Upload a file into a directory given by its handle.
    HUpload { storage_index: usize, parent: u64, name: String, size: u64 },
    /// Make a directory in a directory given by its handle.
    HMkdir { storage_index: usize, parent: u64, name: String },
    /// Rename or move an entry between directories given by their handles.
    HRename { storage_index: usize, from: u64, from_name: String, to: u64, to_name: String },
    /// Ask the device whether it is still there.
    Ping,
    /// The storage table.
    Storages,
    /// The device and its storages, with what the device says of itself.
    Info { manufacturer: String, model: String, serial: String, version: String },
    /// List a directory.
    List { path: String, refresh: bool },
    /// Resolve a path.
    Resolve { path: String, refresh: bool },
    /// Make a directory with its missing parents.
    MkdirAll { path: String },
    /// Delete an object.
    Remove { path: String, recursive: bool },
    /// Rename an object within its directory.
    Rename { path: String, new_name: String },
    /// Move an object into another directory.
    MoveInto { src: String, dst_dir: String },
    /// Stream the contents of a resolved object.
    Download { target: Resolved },
    /// Upload a file into a resolved directory.
    Upload { parent: Resolved, name: String, size: u64 },
}

/// The start of a walk from the root of a storage.
pub open spec fn start(goal: GoalView, storage: nat, path: DevPathView) -> WalkView {
    WalkView { goal, storage: storage as usize, path, cur: ROOT, at: 0 }
}

/// Listing a directory by its handle.
pub open spec fn hlist_plan(v: SessionView, now: u64, storage: usize, dir: u64) -> Plan {
    if storage >= v.storages.len() {
        out_of_range(storage)
    } else {
        match fresh_listing(v.cache, v.id(storage), dir, now) {
            Some(children) => Plan::Done(Ok(ReplyView::Entries(entry_views(children)))),
            None => Plan::List { storage, dir, after: AfterListView::Reply { storage, dir } },
        }
    }
}

/// A plan for a storage that has to be in the table.
pub open spec fn on_storage(v: SessionView, storage: usize, plan: Plan) -> Plan {
    if storage >= v.storages.len() {
        out_of_range(storage)
    } else {
        plan
    }
}

/// A rename by handles, with the listing of the directory `from`.
pub open spec fn hrename_with(
    storage: usize,
    from: u64,
    from_name: Seq<char>,
    to: u64,
    to_name: Seq<char>,
    children: Seq<Entry>,
) -> Plan {
    match child_named(children, from_name) {
        None => fail(ErrorView::NotFound(from_name)),
        Some(e) => if from != to {
            Plan::Move {
                storage,
                handle: e.handle,
                dir: to,
                after: AfterMoveView::Rename {
                    storage,
                    object: e.handle,
                    from,
                    to,
                    to_name: if e.name@ == to_name {
                        None
                    } else {
                        Some(to_name)
                    },
                },
            }
        } else if e.name@ == to_name {
            Plan::Done(Ok(ReplyView::Nothing))
        } else {
            Plan::Rename {
                storage,
                handle: e.handle,
                name: to_name,
                after: AfterRename::Done { storage, parent: to },
            }
        },
    }
}

/// A rename by handles.
pub open spec fn hrename_plan(
    v: SessionView,
    now: u64,
    storage: usize,
    from: u64,
    from_name: Seq<char>,
    to: u64,
    to_name: Seq<char>,
) -> Plan {
    on_storage(
        v,
        storage,
        match fresh_listing(v.cache, v.id(storage), from, now) {
            Some(children) => hrename_with(storage, from, from_name, to, to_name, children),
            None => Plan::List {
                storage,
                dir: from,
                after: AfterListView::Pick { storage, from, from_name, to, to_name },
            },
        },
    )
}

/// The storages as the entries of the device root. Their handles are made up
/// and never used with the device.
pub open spec fn storage_entries(storages: Seq<StorageSummary>) -> Seq<EntryView> {
    Seq::new(
        storages.len(),
        |i: int|
            EntryView {
                handle: if i <= u32::MAX {
                    (u32::MAX - i) as u64
                } else {
                    0
                },
                parent: 0,
                name: storages[i].description@,
                is_dir: true,
                size: 0,
            },
    )
}

/// Listing a directory by its path.
pub open spec fn list_plan(v: SessionView, now: u64, raw: Seq<char>, refresh: bool) -> Plan {
    match parsed(raw) {
        Err(e) => fail(e),
        Ok(p) => if p.storage_ref.len() == 0 {
            Plan::Done(Ok(ReplyView::Entries(storage_entries(v.storages))))
        } else {
            match storage_index(v.storages, p.storage_ref) {
                None => fail(unknown_storage(v.storages, p.storage_ref)),
                Some(i) => proceed(v, now, start(GoalView::List { refresh }, i, p)),
            }
        },
    }
}

/// Resolving a path.
pub open spec fn resolve_plan(v: SessionView, now: u64, raw: Seq<char>, refresh: bool) -> Plan {
    match parsed(raw) {
        Err(e) => fail(e),
        Ok(p) => if p.storage_ref.len() == 0 {
            fail(
                ErrorView::InvalidArgument(
                    "device root has no single target; address a storage first"@,
                ),
            )
        } else {
            match storage_index(v.storages, p.storage_ref) {
                None => fail(unknown_storage(v.storages, p.storage_ref)),
                Some(i) => if p.segments.len() == 0 {
                    Plan::Done(
                        Ok(
                            ReplyView::Resolved {
                                storage_index: i as usize,
                                handle: ROOT,
                                entry: EntryView {
                                    handle: ROOT,
                                    parent: 0,
                                    name: v.storages[i as int].description@,
                                    is_dir: true,
                                    size: 0,
                                },
                            },
                        ),
                    )
                } else {
                    proceed(v, now, start(GoalView::Resolve { refresh }, i, p))
                },
            }
        },
    }
}

/// Making a directory with its missing parents.
pub open spec fn mkdir_plan(v: SessionView, now: u64, raw: Seq<char>) -> Plan {
    match parsed(raw) {
        Err(e) => fail(e),
        Ok(p) => if p.storage_ref.len() == 0 {
            fail(ErrorView::InvalidArgument("cannot create device root"@))
        } else {
            match storage_index(v.storages, p.storage_ref) {
                None => fail(unknown_storage(v.storages, p.storage_ref)),
                Some(i) => proceed(v, now, start(GoalView::Mkdir, i, p)),
            }
        },
    }
}

/// Deleting an object.
pub open spec fn remove_plan(v: SessionView, now: u64, raw: Seq<char>, recursive: bool) -> Plan {
    match parsed(raw) {
        Err(e) => fail(e),
        Ok(p) => if p.storage_ref.len() == 0 || p.segments.len() == 0 {
            fail(ErrorView::InvalidArgument("refusing to delete a storage root"@))
        } else {
            match storage_index(v.storages, p.storage_ref) {
                None => fail(unknown_storage(v.storages, p.storage_ref)),
                Some(i) => proceed(v, now, start(GoalView::Remove { recursive }, i, p)),
            }
        },
    }
}

/// Renaming an object within its directory.
pub open spec fn rename_plan(
    v: SessionView,
    now: u64,
    raw: Seq<char>,
    new_name: Seq<char>,
) -> Plan {
    match parsed(raw) {
        Err(e) => fail(e),
        Ok(p) => if p.storage_ref.len() == 0 || p.segments.len() == 0 {
            fail(ErrorView::InvalidArgument("rename needs a path below a storage"@))
        } else if new_name.contains('/') {
            fail(ErrorView::InvalidArgument("new name must be a bare file name"@))
        } else {
            match storage_index(v.storages, p.storage_ref) {
                None => fail(unknown_storage(v.storages, p.storage_ref)),
                Some(i) => proceed(v, now, start(GoalView::Rename { new_name }, i, p)),
            }
        },
    }
}

/// Moving an object into another directory.
pub open spec fn move_plan(v: SessionView, now: u64, src: Seq<char>, dst: Seq<char>) -> Plan {
    match (parsed(src), parsed(dst)) {
        (Err(e), _) => fail(e),
        (_, Err(e)) => fail(e),
        (Ok(s), Ok(d)) => if s.storage_ref.len() == 0 || d.storage_ref.len() == 0 || s.segments.len()
            == 0 || d.segments.len() == 0 {
            fail(ErrorView::InvalidArgument("both paths must point below a storage"@))
        } else {
            match (storage_index(v.storages, s.storage_ref), storage_index(v.storages, d.storage_ref)) {
                (None, _) => fail(unknown_storage(v.storages, s.storage_ref)),
                (_, None) => fail(unknown_storage(v.storages, d.storage_ref)),
                (Some(i), Some(j)) => if i != j {
                    fail(ErrorView::InvalidArgument("cross-storage move is not supported yet"@))
                } else {
                    proceed(v, now, start(GoalView::Move { dst: d, dst_raw: dst }, i, s))
                },
            }
        },
    }
}

/// A text of the device, unless it is empty.
pub open spec fn non_empty(s: Seq<char>) -> Option<Seq<char>> {
    if s.len() == 0 {
        None
    } else {
        Some(s)
    }
}

/// The device and its storages. The USB ids are known only before a session
/// is opened.
pub open spec fn summary_of(
    storages: Seq<StorageSummary>,
    manufacturer: Seq<char>,
    model: Seq<char>,
    serial: Seq<char>,
    version: Seq<char>,
) -> SummaryView {
    SummaryView {
        vendor_id: 0,
        product_id: 0,
        manufacturer: non_empty(manufacturer),
        product: non_empty(model),
        serial: non_empty(serial),
        speed: None,
        firmware: non_empty(version),
        storages,
    }
}

/// What a request starts with.
pub open spec fn request_plan(v: SessionView, now: u64, req: Request) -> Plan {
    match req {
        Request::Shutdown => Plan::Done(Ok(ReplyView::Nothing)),
        Request::HList { storage_index, dir } => hlist_plan(v, now, storage_index, dir),
        Request::HInfo { storage_index, handle } => on_storage(
            v,
            storage_index,
            Plan::Info { storage: storage_index, handle, after: AfterInfoView::Entry },
        ),
        Request::HRead { storage_index, handle, offset, count } => on_storage(
            v,
            storage_index,
            Plan::Read { storage: storage_index, handle, offset, count },
        ),
        Request::HDelete { storage_index, handle } => on_storage(
            v,
            storage_index,
            Plan::Delete {
                storage: storage_index,
                handle,
                after: AfterDeleteView::Handle { storage: storage_index, handle },
            },
        ),
        Request::HUpload { storage_index, parent, name, size } => on_storage(
            v,
            storage_index,
            Plan::Upload {
                storage: storage_index,
                parent,
                name: name@,
                size,
                after: AfterUpload { storage: storage_index, parent, size },
            },
        ),
        Request::HMkdir { storage_index, parent, name } => on_storage(
            v,
            storage_index,
            Plan::CreateFolder {
                storage: storage_index,
                parent,
                name: name@,
                after: AfterCreateView::Reply { storage: storage_index, parent, name: name@ },
            },
        ),
        Request::HRename { storage_index, from, from_name, to, to_name } => hrename_plan(
            v,
            now,
            storage_index,
            from,
            from_name@,
            to,
            to_name@,
        ),
        Request::Ping => on_storage(v, 0, Plan::Probe { storage: 0 }),
        Request::Storages => Plan::Done(Ok(ReplyView::Storages(v.storages))),
        Request::Info { manufacturer, model, serial, version } => Plan::Done(
            Ok(
                ReplyView::Summary(
                    summary_of(v.storages, manufacturer@, model@, serial@, version@),
                ),
            ),
        ),
        Request::List { path, refresh } => list_plan(v, now, path@, refresh),
        Request::Resolve { path, refresh } => resolve_plan(v, now, path@, refresh),
        Request::MkdirAll { path } => mkdir_plan(v, now, path@),
        Request::Remove { path, recursive } => remove_plan(v, now, path@, recursive),
        Request::Rename { path, new_name } => rename_plan(v, now, path@, new_name@),
        Request::MoveInto { src, dst_dir } => move_plan(v, now, src@, dst_dir@),
        Request::Download { target } => on_storage(
            v,
            target.storage_index,
            Plan::Download { storage: target.storage_index, handle: target.handle },
        ),
        Request::Upload { parent, name, size } => on_storage(
            v,
            parent.storage_index,
            Plan::Upload {
                storage: parent.storage_index,
                parent: parent.handle,
                name: name@,
                size,
                after: AfterUpload {
                    storage: parent.storage_index,
                    parent: parent.handle,
                    size,
                },
            },
        ),
    }
}

fn kept(s: String) -> (r: Option<String>)
    ensures
        crate::step::optional(r) == non_empty(s@),
{
    let c = chars_of(s.as_str());
    if c.len() == 0 {
        None
    } else {
        Some(s)
    }
}

impl Session {
    /// A session with a device that exposes `storages`.
    pub fn new(storages: Vec<StorageSummary>) -> (r: Self)
        ensures
            r@ == (SessionView { storages: storages@, cache: Map::empty() }),
    {
        Session { storages, cache: MetaCache::new() }
    }

    /// The time on the clock of the session.
    pub fn now(&self) -> (r: u64) {
        self.cache.now()
    }

    /// Starts to serve a request: the counterpart of every method below that
    /// takes the arguments of one.
    pub fn dispatch(&self, req: Request, now: u64) -> (r: Step)
        ensures
            r@ == request_plan(self@, now, req),
    {
        match req {
            Request::Shutdown => Step::Done(Ok(Reply::Nothing)),
            Request::HList { storage_index, dir } => self.hlist(storage_index, dir, now),
            Request::HInfo { storage_index, handle } => {
                if storage_index >= self.storages.len() {
                    return bad_storage(storage_index);
                }
                Step::Info { storage: storage_index, handle, after: AfterInfo::Entry }
            },
            Request::HRead { storage_index, handle, offset, count } => {
                if storage_index >= self.storages.len() {
                    return bad_storage(storage_index);
                }
                Step::Read { storage: storage_index, handle, offset, count }
            },
            Request::HDelete { storage_index, handle } => {
                if storage_index >= self.storages.len() {
                    return bad_storage(storage_index);
                }
                Step::Delete {
                    storage: storage_index,
                    handle,
                    after: AfterDelete::Handle { storage: storage_index, handle },
                }
            },
            Request::HUpload { storage_index, parent, name, size } => self.upload_to(
                storage_index,
                parent,
                name,
                size,
            ),
            Request::HMkdir { storage_index, parent, name } => {
                if storage_index >= self.storages.len() {
                    return bad_storage(storage_index);
                }
                let copy = name.clone();
                Step::CreateFolder {
                    storage: storage_index,
                    parent,
                    name,
                    after: AfterCreate::Reply { storage: storage_index, parent, name: copy },
                }
            },
            Request::HRename { storage_index, from, from_name, to, to_name } => self.hrename(
                storage_index,
                from,
                from_name,
                to,
                to_name,
                now,
            ),
            Request::Ping => {
                if self.storages.len() == 0 {
                    return bad_storage(0);
                }
                Step::Probe { storage: 0 }
            },
            Request::Storages => Step::Done(Ok(Reply::Storages(copy_storages(&self.storages)))),
            Request::Info { manufacturer, model, serial, version } => Step::Done(
                Ok(Reply::Summary(self.summary(manufacturer, model, serial, version))),
            ),
            Request::List { path, refresh } => self.list(path.as_str(), refresh, now),
            Request::Resolve { path, refresh } => self.resolve(path.as_str(), refresh, now),
            Request::MkdirAll { path } => self.mkdir_all(path.as_str(), now),
            Request::Remove { path, recursive } => self.remove(path.as_str(), recursive, now),
            Request::Rename { path, new_name } => self.rename(path.as_str(), new_name, now),
            Request::MoveInto { src, dst_dir } => self.move_into(src.as_str(), dst_dir, now),
            Request::Download { target } => {
                if target.storage_index >= self.storages.len() {
                    return bad_storage(target.storage_index);
                }
                Step::Download { storage: target.storage_index, handle: target.handle }
            },
            Request::Upload { parent, name, size } => self.upload_to(
                parent.storage_index,
                parent.handle,
                name,
                size,
            ),
        }
    }

    fn upload_to(&self, storage: usize, parent: u64, name: String, size: u64) -> (r: Step)
        ensures
            r@ == on_storage(
                self@,
                storage,
                Plan::Upload {
                    storage,
                    parent,
                    name: name@,
                    size,
                    after: AfterUpload { storage, parent, size },
                },
            ),
    {
        if storage >= self.storages.len() {
            return bad_storage(storage);
        }
        Step::Upload { storage, parent, name, size, after: AfterUpload { storage, parent, size } }
    }

    /// The device and its storages, with what the device says of itself.
    pub fn summary(
        &self,
        manufacturer: String,
        model: String,
        serial: String,
        version: String,
    ) -> (r: DeviceSummary)
        ensures
            r@ == summary_of(self@.storages, manufacturer@, model@, serial@, version@),
    {
        DeviceSummary {
            vendor_id: 0,
            product_id: 0,
            manufacturer: kept(manufacturer),
            product: kept(model),
            serial: kept(serial),
            speed: None,
            firmware: kept(version),
            storages: copy_storages(&self.storages),
        }
    }

    /// Lists a directory by its handle.
    pub fn hlist(&self, storage_index: usize, dir: u64, now: u64) -> (r: Step)
        ensures
            r@ == hlist_plan(self@, now, storage_index, dir),
    {
        if storage_index >= self.storages.len() {
            return bad_storage(storage_index);
        }
        let sid = self.storages[storage_index].id;
        match self.cache.listing_at(sid, dir, now) {
            Some(children) => Step::Done(Ok(Reply::Entries(copy_entries(children)))),
            None => Step::List {
                storage: storage_index,
                dir,
                after: AfterList::Reply { storage: storage_index, dir },
            },
        }
    }

    /// Renames or moves an entry between directories given by their handles.
    pub fn hrename(
        &self,
        storage_index: usize,
        from: u64,
        from_name: String,
        to: u64,
        to_name: String,
        now: u64,
    ) -> (r: Step)
        ensures
            r@ == hrename_plan(self@, now, storage_index, from, from_name@, to, to_name@),
    {
        if storage_index >= self.storages.len() {
            return bad_storage(storage_index);
        }
        let sid = self.storages[storage_index].id;
        match self.cache.listing_at(sid, from, now) {
            Some(children) => rename_child(storage_index, from, from_name, to, to_name, children),
            None => Step::List {
                storage: storage_index,
                dir: from,
                after: AfterList::Pick { storage: storage_index, from, from_name, to, to_name },
            },
        }
    }

    /// Lists a directory; the listing of the device root is its storages.
    pub fn list(&self, raw: &str, refresh: bool, now: u64) -> (r: Step)
        ensures
            r@ == list_plan(self@, now, raw@, refresh),
    {
        let p = match DevPath::parse(raw) {
            Err(e) => {
                return failed(e);
            },
            Ok(p) => p,
        };
        if p.is_root() {
            return self.list_root();
        }
        match find_storage_index(&self.storages, p.storage_ref.as_str()) {
            Err(e) => failed(e),
            Ok(i) => self.proceed(
                now,
                Walk { goal: Goal::List { refresh }, storage: i, path: p, cur: ROOT, at: 0 },
            ),
        }
    }

    fn list_root(&self) -> (r: Step)
        ensures
            r@ == Plan::Done(Ok(ReplyView::Entries(storage_entries(self@.storages)))),
    {
        let mut out: Vec<Entry> = Vec::new();
        let mut i: usize = 0;
        while i < self.storages.len()
            invariant
                i <= self.storages.len(),
                out.len() == i,
                forall|j: int|
                    0 <= j < i ==> (#[trigger] out@[j])@ == storage_entries(self@.storages)[j],
            decreases self.storages.len() - i,
        {
            out.push(
                Entry {
                    handle: 4294967295u64.saturating_sub(i as u64),
                    parent: 0,
                    name: self.storages[i].description.clone(),
                    is_dir: true,
                    size: 0,
                },
            );
            i = i + 1;
        }
        assert(entry_views(out@) =~= storage_entries(self@.storages));
        Step::Done(Ok(Reply::Entries(out)))
    }

    /// Resolves a path.
    pub fn resolve(&self, raw: &str, refresh: bool, now: u64) -> (r: Step)
        ensures
            r@ == resolve_plan(self@, now, raw@, refresh),
    {
        let p = match DevPath::parse(raw) {
            Err(e) => {
                return failed(e);
            },
            Ok(p) => p,
        };
        if p.is_root() {
            return failed(
                Error::InvalidArgument(
                    owned("device root has no single target; address a storage first"),
                ),
            );
        }
        let i = match find_storage_index(&self.storages, p.storage_ref.as_str()) {
            Err(e) => {
                return failed(e);
            },
            Ok(i) => i,
        };
        if p.segments.len() == 0 {
            let name = self.storages[i].description.clone();
            let entry = Entry { handle: ROOT, parent: 0, name, is_dir: true, size: 0 };
            return Step::Done(
                Ok(Reply::Resolved(Resolved { storage_index: i, handle: ROOT, entry })),
            );
        }
        self.proceed(
            now,
            Walk { goal: Goal::Resolve { refresh }, storage: i, path: p, cur: ROOT, at: 0 },
        )
    }

    /// Makes every missing directory of a path.
    pub fn mkdir_all(&self, raw: &str, now: u64) -> (r: Step)
        ensures
            r@ == mkdir_plan(self@, now, raw@),
    {
        let p = match DevPath::parse(raw) {
            Err(e) => {
                return failed(e);
            },
            Ok(p) => p,
        };
        if p.is_root() {
            return failed(Error::InvalidArgument(owned("cannot create device root")));
        }
        match find_storage_index(&self.storages, p.storage_ref.as_str()) {
            Err(e) => failed(e),
            Ok(i) => self.proceed(
                now,
                Walk { goal: Goal::Mkdir, storage: i, path: p, cur: ROOT, at: 0 },
            ),
        }
    }

    /// Deletes an object; a directory only when `recursive` is set.
    pub fn remove(&self, raw: &str, recursive: bool, now: u64) -> (r: Step)
        ensures
            r@ == remove_plan(self@, now, raw@, recursive),
    {
        let p = match DevPath::parse(raw) {
            Err(e) => {
                return failed(e);
            },
            Ok(p) => p,
        };
        if p.is_root() || p.segments.len() == 0 {
            return failed(Error::InvalidArgument(owned("refusing to delete a storage root")));
        }
        match find_storage_index(&self.storages, p.storage_ref.as_str()) {
            Err(e) => failed(e),
            Ok(i) => self.proceed(
                now,
                Walk { goal: Goal::Remove { recursive }, storage: i, path: p, cur: ROOT, at: 0 },
            ),
        }
    }

    /// Renames an object within its directory.
    pub fn rename(&self, raw: &str, new_name: String, now: u64) -> (r: Step)
        ensures
            r@ == rename_plan(self@, now, raw@, new_name@),
    {
        let p = match DevPath::parse(raw) {
            Err(e) => {
                return failed(e);
            },
            Ok(p) => p,
        };
        if p.is_root() || p.segments.len() == 0 {
            return failed(Error::InvalidArgument(owned("rename needs a path below a storage")));
        }
        let c = chars_of(new_name.as_str());
        if has_char(&c, '/') {
            return failed(Error::InvalidArgument(owned("new name must be a bare file name")));
        }
        match find_storage_index(&self.storages, p.storage_ref.as_str()) {
            Err(e) => failed(e),
            Ok(i) => self.proceed(
                now,
                Walk { goal: Goal::Rename { new_name }, storage: i, path: p, cur: ROOT, at: 0 },
            ),
        }
    }

    /// Moves an object into another directory of its storage, under its name.
    pub fn move_into(&self, src_raw: &str, dst_raw: String, now: u64) -> (r: Step)
        ensures
            r@ == move_plan(self@, now, src_raw@, dst_raw@),
    {
        let src = match DevPath::parse(src_raw) {
            Err(e) => {
                return failed(e);
            },
            Ok(p) => p,
        };
        let dst = match DevPath::parse(dst_raw.as_str()) {
            Err(e) => {
                return failed(e);
            },
            Ok(p) => p,
        };
        if src.is_root() || dst.is_root() || src.segments.len() == 0 || dst.segments.len() == 0 {
            return failed(Error::InvalidArgument(owned("both paths must point below a storage")));
        }
        let i = match find_storage_index(&self.storages, src.storage_ref.as_str()) {
            Err(e) => {
                return failed(e);
            },
            Ok(i) => i,
        };
        let j = match find_storage_index(&self.storages, dst.storage_ref.as_str()) {
            Err(e) => {
                return failed(e);
            },
            Ok(j) => j,
        };
        if i != j {
            return failed(
                Error::InvalidArgument(owned("cross-storage move is not supported yet")),
            );
        }
        self.proceed(
            now,
            Walk { goal: Goal::Move { dst, dst_raw }, storage: i, path: src, cur: ROOT, at: 0 },
        )
    }
}

fn rename_child(
    storage: usize,
    from: u64,
    from_name: String,
    to: u64,
    to_name: String,
    children: &Vec<Entry>,
) -> (r: Step)
    ensures
        r@ == hrename_with(storage, from, from_name@, to, to_name@, children@),
{
    match child_by_name(children, from_name.as_str()) {
        None => failed(Error::NotFound(from_name)),
        Some(e) => {
            let same = same_text(e.name.as_str(), to_name.as_str());
            if from != to {
                Step::Move {
                    storage,
                    handle: e.handle,
                    dir: to,
                    after: AfterMove::Rename {
                        storage,
                        object: e.handle,
                        from,
                        to,
                        to_name: if same {
                            None
                        } else {
                            Some(to_name)
                        },
                    },
                }
            } else if same {
                Step::Done(Ok(Reply::Nothing))
            } else {
                Step::Rename {
                    storage,
                    handle: e.handle,
                    name: to_name,
                    after: AfterRename::Done { storage, parent: to },
                }
            }
        },
    }
}

// ---------------------------------------------------------------------------
// Answers
// ---------------------------------------------------------------------------

/// The view of the answer to a device call.
pub open spec fn answer<T>(r: Result<T>) -> std::result::Result<T, ErrorView> {
    match r {
        Ok(t) => Ok(t),
        Err(e) => Err(e@),
    }
}

/// The storage of a listing.
pub open spec fn listed_storage(after: AfterListView) -> usize {
    match after {
        AfterListView::Reply { storage, .. } => storage,
        AfterListView::Walk(w) => w.storage,
        AfterListView::Tree { tree, .. } => tree.storage,
        AfterListView::Pick { storage, .. } => storage,
    }
}

/// The directory of a listing.
pub open spec fn listed_dir(after: AfterListView) -> u64 {
    match after {
        AfterListView::Reply { dir, .. } => dir,
        AfterListView::Walk(w) => w.cur,
        AfterListView::Tree { dir, .. } => dir,
        AfterListView::Pick { from, .. } => from,
    }
}

/// What follows a listing, once it is in the cache.
pub open spec fn with_listing(
    v: SessionView,
    now: u64,
    after: AfterListView,
    children: Seq<Entry>,
) -> Plan {
    match after {
        AfterListView::Reply { .. } => Plan::Done(Ok(ReplyView::Entries(entry_views(children)))),
        AfterListView::Walk(w) => if w.at >= w.upto() {
            arrived_with(v, now, w, w.cur, children)
        } else {
            after_descent(
                v,
                now,
                w,
                descend_from(v.cache, v.id(w.storage), now, w, children),
            )
        },
        AfterListView::Tree { tree, dir } => advance(v, now, entered(tree, dir, children)),
        AfterListView::Pick { storage, from, from_name, to, to_name } => hrename_with(
            storage,
            from,
            from_name,
            to,
            to_name,
            children,
        ),
    }
}

/// The session after a listing was answered: the listing is stored.
pub open spec fn listed_session(
    v: SessionView,
    now: u64,
    after: AfterListView,
    answer: std::result::Result<Seq<Entry>, ErrorView>,
) -> SessionView {
    match answer {
        Err(_) => v,
        Ok(children) => if listed_storage(after) >= v.storages.len() {
            v
        } else {
            v.with(
                stored(v.cache, v.id(listed_storage(after)), listed_dir(after), children, now),
            )
        },
    }
}

/// What follows the answer to a listing.
pub open spec fn listed_plan(
    v: SessionView,
    now: u64,
    after: AfterListView,
    answer: std::result::Result<Seq<Entry>, ErrorView>,
) -> Plan {
    match answer {
        Err(e) => fail(e),
        Ok(children) => if listed_storage(after) >= v.storages.len() {
            out_of_range(listed_storage(after))
        } else {
            with_listing(listed_session(v, now, after, answer), now, after, children)
        },
    }
}

/// The view of an answered listing.
pub open spec fn listing_answer(r: Result<Vec<Entry>>) -> std::result::Result<
    Seq<Entry>,
    ErrorView,
> {
    match r {
        Ok(v) => Ok(v@),
        Err(e) => Err(e@),
    }
}

/// What follows the metadata of an object.
pub open spec fn informed_plan(
    after: AfterInfoView,
    answer: std::result::Result<Entry, ErrorView>,
) -> Plan {
    match answer {
        Err(e) => fail(e),
        Ok(entry) => match after {
            AfterInfoView::Entry => Plan::Done(Ok(ReplyView::Entry(entry@))),
            AfterInfoView::Resolve { storage, handle } => Plan::Done(
                Ok(ReplyView::Resolved { storage_index: storage, handle, entry: entry@ }),
            ),
            AfterInfoView::Into { storage, dir, object, src_parent, dst_raw } => if entry.is_dir {
                Plan::Move {
                    storage,
                    handle: object,
                    dir,
                    after: AfterMoveView::Reply { storage, object, src_parent, dir },
                }
            } else {
                fail(ErrorView::WrongKind(dst_raw + " is not a directory"@))
            },
        },
    }
}

/// The session without the listing of `dir`.
pub open spec fn without_listing(v: SessionView, storage: usize, dir: u64) -> SessionView {
    v.with(dropped(v.cache, v.id(storage), dir))
}

/// The storage and the directory that a new directory changed.
pub open spec fn created_in(after: AfterCreateView) -> (usize, u64) {
    match after {
        AfterCreateView::Path { storage, parent, .. } => (storage, parent),
        AfterCreateView::Reply { storage, parent, .. } => (storage, parent),
    }
}

/// The session after a directory was made.
pub open spec fn created_session(
    v: SessionView,
    after: AfterCreateView,
    answer: std::result::Result<u64, ErrorView>,
) -> SessionView {
    let (storage, parent) = created_in(after);
    if answer is Err || storage >= v.storages.len() {
        v
    } else {
        without_listing(v, storage, parent)
    }
}

/// What follows a new directory: the next missing one of the path, inside it.
pub open spec fn created_plan(
    v: SessionView,
    after: AfterCreateView,
    answer: std::result::Result<u64, ErrorView>,
) -> Plan {
    match answer {
        Err(e) => fail(e),
        Ok(handle) => on_storage(
            v,
            created_in(after).0,
            match after {
                AfterCreateView::Path { storage, path, parent, at } => if at + 1
                    < path.segments.len() {
                    Plan::CreateFolder {
                        storage,
                        parent: handle,
                        name: path.segments[(at + 1) as int],
                        after: AfterCreateView::Path { storage, path, parent: handle, at: at + 1 },
                    }
                } else {
                    made_dir(handle, path)
                },
                AfterCreateView::Reply { storage, parent, name } => Plan::Done(
                    Ok(
                        ReplyView::Entry(
                            EntryView { handle, parent, name, is_dir: true, size: 0 },
                        ),
                    ),
                ),
            },
        ),
    }
}

/// The storage that a deletion changed.
pub open spec fn deleted_storage(after: AfterDeleteView) -> usize {
    match after {
        AfterDeleteView::File { storage, .. } => storage,
        AfterDeleteView::Child(t) => t.storage,
        AfterDeleteView::Dir(t) => t.storage,
        AfterDeleteView::Handle { storage, .. } => storage,
        AfterDeleteView::Discard(_) => 0,
    }
}

/// The session after a deletion: the listings that showed the object, and the
/// listing of the object if it was a directory, are gone.
pub open spec fn deleted_session(
    v: SessionView,
    after: AfterDeleteView,
    answer: std::result::Result<(), ErrorView>,
) -> SessionView {
    if answer is Err || after is Discard || deleted_storage(after) >= v.storages.len() {
        v
    } else {
        match after {
            AfterDeleteView::File { storage, parent } => without_listing(v, storage, parent),
            AfterDeleteView::Child(t) => if t.stack.len() == 0 {
                v
            } else {
                without_listing(v, t.storage, t.stack.last().dir)
            },
            AfterDeleteView::Dir(t) => if t.stack.len() == 0 {
                v
            } else {
                without_listing(
                    without_listing(v, t.storage, t.stack.last().dir),
                    t.storage,
                    holder(t),
                )
            },
            AfterDeleteView::Handle { storage, handle } => v.with(
                dropped_handle(v.cache, v.id(storage), handle),
            ),
            AfterDeleteView::Discard(_) => v,
        }
    }
}

/// What follows a deletion.
pub open spec fn deleted_plan(
    v: SessionView,
    now: u64,
    after: AfterDeleteView,
    answer: std::result::Result<(), ErrorView>,
) -> Plan {
    match after {
        AfterDeleteView::Discard(e) => fail(e),
        _ => match answer {
            Err(e) => fail(e),
            Ok(_) => on_storage(
                v,
                deleted_storage(after),
                match after {
                    AfterDeleteView::File { .. } => Plan::Done(Ok(ReplyView::Count(1))),
                    AfterDeleteView::Child(t) => advance(
                        deleted_session(v, after, answer),
                        now,
                        left_file(t),
                    ),
                    AfterDeleteView::Dir(t) => advance(
                        deleted_session(v, after, answer),
                        now,
                        if t.stack.len() == 0 {
                            t
                        } else {
                            left_dir(t)
                        },
                    ),
                    _ => Plan::Done(Ok(ReplyView::Nothing)),
                },
            ),
        },
    }
}

/// The session after a rename.
pub open spec fn renamed_session(
    v: SessionView,
    after: AfterRename,
    answer: std::result::Result<(), ErrorView>,
) -> SessionView {
    let (storage, parent) = match after {
        AfterRename::Reply { storage, parent, .. } => (storage, parent),
        AfterRename::Done { storage, parent } => (storage, parent),
    };
    if answer is Err || storage >= v.storages.len() {
        v
    } else {
        without_listing(v, storage, parent)
    }
}

/// What follows a rename.
pub open spec fn renamed_plan(
    v: SessionView,
    after: AfterRename,
    answer: std::result::Result<(), ErrorView>,
) -> Plan {
    match answer {
        Err(e) => fail(e),
        Ok(_) => match after {
            AfterRename::Reply { storage, handle, .. } => on_storage(
                v,
                storage,
                Plan::Info { storage, handle, after: AfterInfoView::Entry },
            ),
            AfterRename::Done { storage, .. } => on_storage(
                v,
                storage,
                Plan::Done(Ok(ReplyView::Nothing)),
            ),
        },
    }
}

/// The storage and the two directories that a move changed.
pub open spec fn moved_between(after: AfterMoveView) -> (usize, u64, u64) {
    match after {
        AfterMoveView::Reply { storage, src_parent, dir, .. } => (storage, src_parent, dir),
        AfterMoveView::Rename { storage, from, to, .. } => (storage, from, to),
    }
}

/// The session after a move: neither directory keeps its listing.
pub open spec fn moved_session(
    v: SessionView,
    after: AfterMoveView,
    answer: std::result::Result<(), ErrorView>,
) -> SessionView {
    let (storage, from, to) = moved_between(after);
    if answer is Err || storage >= v.storages.len() {
        v
    } else {
        without_listing(without_listing(v, storage, from), storage, to)
    }
}

/// What follows a move.
pub open spec fn moved_plan(
    v: SessionView,
    after: AfterMoveView,
    answer: std::result::Result<(), ErrorView>,
) -> Plan {
    match answer {
        Err(e) => fail(e),
        Ok(_) => on_storage(
            v,
            moved_between(after).0,
            match after {
                AfterMoveView::Reply { storage, object, .. } => Plan::Info {
                    storage,
                    handle: object,
                    after: AfterInfoView::Entry,
                },
                AfterMoveView::Rename { storage, object, to, to_name, .. } => match to_name {
                    None => Plan::Done(Ok(ReplyView::Nothing)),
                    Some(name) => Plan::Rename {
                        storage,
                        handle: object,
                        name,
                        after: AfterRename::Done { storage, parent: to },
                    },
                },
            },
        ),
    }
}

/// How an upload ended.
#[derive(Debug)]
pub enum Uploaded {
    /// The device stored `sent` bytes as `handle`.
    Stored { handle: u64, sent: u64 },
    /// The upload failed and may have left an object behind.
    Failed { error: Error, partial: Option<u64> },
}

/// The session after an upload.
pub open spec fn uploaded_session(v: SessionView, after: AfterUpload, r: Uploaded) -> SessionView {
    if r is Failed || after.storage >= v.storages.len() {
        v
    } else {
        without_listing(v, after.storage, after.parent)
    }
}

/// The error for an upload of which not all bytes arrived.
pub open spec fn short_upload(sent: u64, size: u64) -> ErrorView {
    ErrorView::Mtp("upload sent "@ + dec(sent as nat) + " of "@ + dec(size as nat) + " bytes"@)
}

/// What follows an upload: an object that is not complete is deleted again.
pub open spec fn uploaded_plan(v: SessionView, after: AfterUpload, r: Uploaded) -> Plan {
    match r {
        Uploaded::Failed { error, partial } => match partial {
            None => fail(error@),
            Some(handle) => Plan::Delete {
                storage: after.storage,
                handle,
                after: AfterDeleteView::Discard(error@),
            },
        },
        Uploaded::Stored { handle, sent } => on_storage(
            v,
            after.storage,
            if sent == after.size {
                Plan::Info { storage: after.storage, handle, after: AfterInfoView::Entry }
            } else {
                Plan::Delete {
                    storage: after.storage,
                    handle,
                    after: AfterDeleteView::Discard(short_upload(sent, after.size)),
                }
            },
        ),
    }
}

impl Session {
    fn forget(&mut self, storage: usize, dir: u64)
        requires
            storage < old(self)@.storages.len(),
        ensures
            final(self)@ == without_listing(old(self)@, storage, dir),
    {
        let sid = self.storages[storage].id;
        self.cache.invalidate(sid, dir);
    }

    /// Goes on after a listing.
    pub fn listed(&mut self, after: AfterList, r: Result<Vec<Entry>>, now: u64) -> (step: Step)
        ensures
            final(self)@ == listed_session(old(self)@, now, after@, listing_answer(r)),
            step@ == listed_plan(old(self)@, now, after@, listing_answer(r)),
    {
        let children = match r {
            Err(e) => {
                return failed(e);
            },
            Ok(children) => children,
        };
        let (storage, dir) = match &after {
            AfterList::Reply { storage, dir } => (*storage, *dir),
            AfterList::Walk(w) => (w.storage, w.cur),
            AfterList::Tree { tree, dir } => (tree.storage, *dir),
            AfterList::Pick { storage, from, .. } => (*storage, *from),
        };
        if storage >= self.storages.len() {
            return bad_storage(storage);
        }
        let sid = self.storages[storage].id;
        self.cache.store_listing_at(sid, dir, copy_entries(&children), now);
        match after {
            AfterList::Reply { .. } => Step::Done(Ok(Reply::Entries(children))),
            AfterList::Walk(w) => {
                if w.at >= w.upto() {
                    let cur = w.cur;
                    self.arrived_with(now, w, cur, &children)
                } else {
                    let d = self.descend_listed(sid, now, &w, &children);
                    self.after_descent(now, w, d)
                }
            },
            AfterList::Tree { tree, dir } => self.advance(now, push_frame(tree, dir, children)),
            AfterList::Pick { storage, from, from_name, to, to_name } => rename_child(
                storage,
                from,
                from_name,
                to,
                to_name,
                &children,
            ),
        }
    }

    /// Goes on after the metadata of an object.
    pub fn informed(&self, after: AfterInfo, r: Result<Entry>) -> (step: Step)
        ensures
            step@ == informed_plan(after@, answer(r)),
    {
        let entry = match r {
            Err(e) => {
                return failed(e);
            },
            Ok(entry) => entry,
        };
        match after {
            AfterInfo::Entry => Step::Done(Ok(Reply::Entry(entry))),
            AfterInfo::Resolve { storage, handle } => Step::Done(
                Ok(Reply::Resolved(Resolved { storage_index: storage, handle, entry })),
            ),
            AfterInfo::Into { storage, dir, object, src_parent, dst_raw } => {
                if entry.is_dir {
                    Step::Move {
                        storage,
                        handle: object,
                        dir,
                        after: AfterMove::Reply { storage, object, src_parent, dir },
                    }
                } else {
                    let mut s = dst_raw;
                    s.push_str(" is not a directory");
                    failed(Error::WrongKind(s))
                }
            },
        }
    }

    /// Goes on after a range was read.
    pub fn read_back(&self, r: Result<Vec<u8>>) -> (step: Step)
        ensures
            step@ == match r {
                Ok(b) => Plan::Done(Ok(ReplyView::Bytes(b@))),
                Err(e) => fail(e@),
            },
    {
        match r {
            Ok(b) => Step::Done(Ok(Reply::Bytes(b))),
            Err(e) => failed(e),
        }
    }

    /// Goes on after the device was asked whether it is there.
    pub fn probed(&self, r: Result<()>) -> (step: Step)
        ensures
            step@ == match r {
                Ok(_) => Plan::Done(Ok(ReplyView::Nothing)),
                Err(e) => fail(e@),
            },
    {
        match r {
            Ok(_) => Step::Done(Ok(Reply::Nothing)),
            Err(e) => failed(e),
        }
    }

    /// Goes on after a directory was made.
    pub fn created(&mut self, after: AfterCreate, r: Result<u64>) -> (step: Step)
        ensures
            final(self)@ == created_session(old(self)@, after@, answer(r)),
            step@ == created_plan(old(self)@, after@, answer(r)),
    {
        let handle = match r {
            Err(e) => {
                return failed(e);
            },
            Ok(handle) => handle,
        };
        let (storage, parent) = match &after {
            AfterCreate::Path { storage, parent, .. } => (*storage, *parent),
            AfterCreate::Reply { storage, parent, .. } => (*storage, *parent),
        };
        if storage >= self.storages.len() {
            return bad_storage(storage);
        }
        self.forget(storage, parent);
        match after {
            AfterCreate::Path { storage, path, at, .. } => {
                if at < path.segments.len() && at + 1 < path.segments.len() {
                    assert(path@.segments[at + 1] == path.segments@[at + 1]@);
                    let name = path.segments[at + 1].clone();
                    Step::CreateFolder {
                        storage,
                        parent: handle,
                        name,
                        after: AfterCreate::Path { storage, path, parent: handle, at: at + 1 },
                    }
                } else {
                    let name = last_name(&path);
                    let entry = Entry { handle, parent: 0, name, is_dir: true, size: 0 };
                    Step::Done(Ok(Reply::Entry(entry)))
                }
            },
            AfterCreate::Reply { parent, name, .. } => Step::Done(
                Ok(Reply::Entry(Entry { handle, parent, name, is_dir: true, size: 0 })),
            ),
        }
    }

    /// Goes on after a deletion.
    pub fn deleted(&mut self, after: AfterDelete, r: Result<()>, now: u64) -> (step: Step)
        ensures
            final(self)@ == deleted_session(old(self)@, after@, answer(r)),
            step@ == deleted_plan(old(self)@, now, after@, answer(r)),
    {
        let err = match r {
            Err(e) => Some(e),
            Ok(_) => None,
        };
        match after {
            AfterDelete::Discard(e) => failed(e),
            AfterDelete::File { storage, parent } => {
                if let Some(e) = err {
                    return failed(e);
                }
                if storage >= self.storages.len() {
                    return bad_storage(storage);
                }
                self.forget(storage, parent);
                Step::Done(Ok(Reply::Count(1)))
            },
            AfterDelete::Handle { storage, handle } => {
                if let Some(e) = err {
                    return failed(e);
                }
                if storage >= self.storages.len() {
                    return bad_storage(storage);
                }
                let sid = self.storages[storage].id;
                self.cache.invalidate_handle(sid, handle);
                Step::Done(Ok(Reply::Nothing))
            },
            AfterDelete::Child(t) => {
                if let Some(e) = err {
                    return failed(e);
                }
                if t.storage >= self.storages.len() {
                    return bad_storage(t.storage);
                }
                let mut tree = t;
                let ghost before = tree@;
                let n = tree.stack.len();
                if n > 0 {
                    assert(tree@.stack.last() == tree.stack@[n - 1]@);
                    self.forget(tree.storage, tree.stack[n - 1].dir);
                }
                tree.count = tree.count.saturating_add(1);
                assert(tree@ =~= left_file(before));
                self.advance(now, tree)
            },
            AfterDelete::Dir(t) => {
                if let Some(e) = err {
                    return failed(e);
                }
                if t.storage >= self.storages.len() {
                    return bad_storage(t.storage);
                }
                let mut tree = t;
                let ghost before = tree@;
                let n = tree.stack.len();
                if n > 0 {
                    assert(tree@.stack.last() == tree.stack@[n - 1]@);
                    self.forget(tree.storage, tree.stack[n - 1].dir);
                    let up = if n >= 2 {
                        assert(tree@.stack[n - 2] == tree.stack@[n - 2]@);
                        tree.stack[n - 2].dir
                    } else {
                        tree.parent
                    };
                    self.forget(tree.storage, up);
                    tree.stack.pop();
                    tree.count = tree.count.saturating_add(1);
                    assert(tree@ =~= left_dir(before));
                }
                self.advance(now, tree)
            },
        }
    }

    /// Goes on with a deletion that needed no device call.
    pub fn again(&self, tree: TreeDelete, now: u64) -> (step: Step)
        ensures
            step@ == on_storage(self@, tree@.storage, advance(self@, now, tree@)),
    {
        if tree.storage >= self.storages.len() {
            return bad_storage(tree.storage);
        }
        self.advance(now, tree)
    }

    /// Goes on after a rename.
    pub fn renamed(&mut self, after: AfterRename, r: Result<()>) -> (step: Step)
        ensures
            final(self)@ == renamed_session(old(self)@, after, answer(r)),
            step@ == renamed_plan(old(self)@, after, answer(r)),
    {
        if let Err(e) = r {
            return failed(e);
        }
        match after {
            AfterRename::Reply { storage, parent, handle } => {
                if storage >= self.storages.len() {
                    return bad_storage(storage);
                }
                self.forget(storage, parent);
                Step::Info { storage, handle, after: AfterInfo::Entry }
            },
            AfterRename::Done { storage, parent } => {
                if storage >= self.storages.len() {
                    return bad_storage(storage);
                }
                self.forget(storage, parent);
                Step::Done(Ok(Reply::Nothing))
            },
        }
    }

    /// Goes on after a move.
    pub fn moved(&mut self, after: AfterMove, r: Result<()>) -> (step: Step)
        ensures
            final(self)@ == moved_session(old(self)@, after@, answer(r)),
            step@ == moved_plan(old(self)@, after@, answer(r)),
    {
        if let Err(e) = r {
            return failed(e);
        }
        match after {
            AfterMove::Reply { storage, object, src_parent, dir } => {
                if storage >= self.storages.len() {
                    return bad_storage(storage);
                }
                self.forget(storage, src_parent);
                self.forget(storage, dir);
                Step::Info { storage, handle: object, after: AfterInfo::Entry }
            },
            AfterMove::Rename { storage, object, from, to, to_name } => {
                if storage >= self.storages.len() {
                    return bad_storage(storage);
                }
                self.forget(storage, from);
                self.forget(storage, to);
                match to_name {
                    None => Step::Done(Ok(Reply::Nothing)),
                    Some(name) => Step::Rename {
                        storage,
                        handle: object,
                        name,
                        after: AfterRename::Done { storage, parent: to },
                    },
                }
            },
        }
    }

    /// Goes on after an upload.
    pub fn uploaded(&mut self, after: AfterUpload, r: Uploaded) -> (step: Step)
        ensures
            final(self)@ == uploaded_session(old(self)@, after, r),
            step@ == uploaded_plan(old(self)@, after, r),
    {
        match r {
            Uploaded::Failed { error, partial } => match partial {
                None => failed(error),
                Some(handle) => Step::Delete {
                    storage: after.storage,
                    handle,
                    after: AfterDelete::Discard(error),
                },
            },
            Uploaded::Stored { handle, sent } => {
                if after.storage >= self.storages.len() {
                    return bad_storage(after.storage);
                }
                self.forget(after.storage, after.parent);
                if sent == after.size {
                    Step::Info { storage: after.storage, handle, after: AfterInfo::Entry }
                } else {
                    let mut s = owned("upload sent ");
                    push_dec(&mut s, sent);
                    s.push_str(" of ");
                    push_dec(&mut s, after.size);
                    s.push_str(" bytes");
                    Step::Delete {
                        storage: after.storage,
                        handle,
                        after: AfterDelete::Discard(Error::Mtp(s)),
                    }
                }
            },
        }
    }
}

// ---------------------------------------------------------------------------
// Closing
// ---------------------------------------------------------------------------

/// How long the end of a session may take, in seconds.
pub const CLOSE_LIMIT_SECS: u64 = 10;

/// How the end of a session went.
#[derive(Debug)]
pub enum Closing {
    /// The session had been closed before.
    Before,
    /// The device answered.
    Answered(Result<()>),
    /// The device did not answer in time.
    TimedOut,
    /// What served the session is gone.
    Gone,
}

/// The result of closing a session: closing it again is no error, and what the
/// device answered is handed on.
pub fn closed(c: Closing) -> (r: Result<()>)
    ensures
        answer(r) == match c {
            Closing::Before => Ok(()),
            Closing::Answered(a) => answer(a),
            Closing::TimedOut => Err(ErrorView::Timeout),
            Closing::Gone => Err(ErrorView::ActorClosed),
        },
{
    match c {
        Closing::Before => Ok(()),
        Closing::Answered(a) => a,
        Closing::TimedOut => Err(Error::Timeout),
        Closing::Gone => Err(Error::ActorClosed),
    }
}

} // verus!
