//! What holds of whole tree transfers: every entry that was met is counted.

use vstd::prelude::*;

use crate::error::ErrorView;
use crate::model::EntryView;
use crate::ops::{
    both, files_left, joined, law_pull_takes_each_file_once, past_first, pull_fetched, pull_listed,
    pull_next, push_item, push_made, push_start, safe_component, tree_files, Fetched, FileView,
    LocalItem, LocalKind, PullFrameView, PullPlan, PullView, PushDirView, PushPlan, PushView,
    TreeStats, MAX_TREE_DEPTH,
};

verus! {

/// The counters of a transfer that has not begun.
pub open spec fn no_stats() -> TreeStats {
    TreeStats { files: 0, dirs: 0, bytes: 0, skipped: 0 }
}

/// Everything that was counted: files, directories and what was skipped.
pub open spec fn total(s: TreeStats) -> nat {
    (s.files + s.dirs + s.skipped) as nat
}

// ---------------------------------------------------------------------------
// From the device
// ---------------------------------------------------------------------------

/// The answer to a step of a transfer from the device.
pub enum PullAnswer {
    /// A directory was listed, or was not.
    Listed(std::result::Result<Seq<EntryView>, ErrorView>),
    /// This became of the download of a file.
    Fetched(Fetched),
}

/// A transfer from the device with what it has met on its way.
pub struct PullRun {
    /// The transfer.
    pub v: PullView,
    /// Its next step.
    pub plan: PullPlan,
    /// The entries of all listings so far.
    pub walked: nat,
    /// The bytes of all files that were stored.
    pub fetched: nat,
}

/// The transfer of the directory `remote` after the answers, each to the step
/// that was due. An answer that was not asked for changes nothing.
pub open spec fn pull_run(remote: Seq<char>, answers: Seq<PullAnswer>) -> PullRun
    decreases answers.len(),
{
    if answers.len() == 0 {
        PullRun {
            v: PullView { frames: Seq::empty(), stats: no_stats() },
            plan: PullPlan::Open { remote, local: Seq::empty() },
            walked: 0,
            fetched: 0,
        }
    } else {
        let run = pull_run(remote, answers.drop_last());
        match (run.plan, answers.last()) {
            (PullPlan::Open { remote: dir, local }, PullAnswer::Listed(r)) => {
                let (v, plan) = pull_listed(run.v, dir, local, r);
                PullRun {
                    v,
                    plan,
                    walked: run.walked + match r {
                        Ok(entries) => entries.len(),
                        Err(_) => 0,
                    },
                    ..run
                }
            },
            (PullPlan::Fetch { .. }, PullAnswer::Fetched(r)) => {
                let (v, plan) = pull_fetched(run.v, r);
                PullRun {
                    v,
                    plan,
                    fetched: run.fetched + match r {
                        Fetched::Stored(n) => n as nat,
                        _ => 0,
                    },
                    ..run
                }
            },
            _ => run,
        }
    }
}

/// The entries that were listed and not looked at yet.
pub open spec fn unseen(frames: Seq<PullFrameView>) -> nat
    decreases frames.len(),
{
    if frames.len() == 0 {
        0
    } else {
        unseen(frames.drop_last()) + frames.last().rest.len()
    }
}

/// The entry that a step is about.
pub open spec fn at_hand(plan: PullPlan) -> nat {
    if plan is Open || plan is Fetch {
        1
    } else {
        0
    }
}

/// Going on loses no entry.
proof fn lemma_next_counts(v: PullView)
    requires
        v.stats.skipped + unseen(v.frames) <= u32::MAX,
    ensures
        ({
            let (w, plan) = pull_next(v);
            &&& !(plan is Failed) ==> total(w.stats) + unseen(w.frames) + at_hand(plan) == total(
                v.stats,
            ) + unseen(v.frames)
            &&& w.stats.bytes == v.stats.bytes
            &&& plan matches PullPlan::Done(s) ==> s == w.stats && unseen(w.frames) == 0
        }),
    decreases
            v.frames.len(),
            (if v.frames.len() > 0 {
                v.frames.last().rest.len()
            } else {
                0
            }),
{
    if v.frames.len() > 0 {
        let top = v.frames.last();
        if top.rest.len() == 0 {
            lemma_next_counts(PullView { frames: v.frames.drop_last(), ..v });
        } else {
            let e = top.rest[0];
            let after = PullView { frames: past_first(v.frames), ..v };
            assert(after.frames.drop_last() =~= v.frames.drop_last());
            assert(unseen(after.frames) + 1 == unseen(v.frames));
            if !safe_component(e.name) {
                lemma_next_counts(PullView { stats: v.stats.plus_skip(), ..after });
            }
        }
    }
}

proof fn lemma_pull_counts(remote: Seq<char>, answers: Seq<PullAnswer>)
    requires
        pull_run(remote, answers).walked < u32::MAX,
        pull_run(remote, answers).fetched <= u64::MAX,
    ensures
        ({
            let run = pull_run(remote, answers);
            &&& !(run.plan is Failed) ==> total(run.v.stats) + unseen(run.v.frames) + at_hand(
                run.plan,
            ) == run.walked + 1
            &&& run.v.stats.bytes == run.fetched
            &&& run.plan matches PullPlan::Done(s) ==> s == run.v.stats && unseen(run.v.frames) == 0
        }),
    decreases answers.len(),
{
    if answers.len() > 0 {
        let run = pull_run(remote, answers.drop_last());
        lemma_pull_counts(remote, answers.drop_last());
        match (run.plan, answers.last()) {
            (PullPlan::Open { remote: dir, local }, PullAnswer::Listed(Ok(rest))) => {
                let f = PullFrameView { remote: dir, local, rest };
                let w = PullView { frames: run.v.frames.push(f), stats: run.v.stats.plus_dir() };
                assert(w.frames.drop_last() =~= run.v.frames);
                lemma_next_counts(w);
            },
            (PullPlan::Fetch { .. }, PullAnswer::Fetched(Fetched::Stored(n))) => {
                lemma_next_counts(PullView { stats: run.v.stats.plus_file(n), ..run.v });
            },
            (PullPlan::Fetch { .. }, PullAnswer::Fetched(Fetched::Unstaged)) => {
                lemma_next_counts(PullView { stats: run.v.stats.plus_skip(), ..run.v });
            },
            _ => {},
        }
    }
}

/// A transfer from the device that is complete has counted every entry of every
/// listing on its way, as a file, as a directory or as skipped, beside the
/// directory it began with; and the bytes are those of the files that were
/// stored. (The counters hold up to 2^32 entries and 2^64 bytes.)
pub proof fn law_pull_counts_every_entry(remote: Seq<char>, answers: Seq<PullAnswer>)
    requires
        pull_run(remote, answers).walked < u32::MAX,
        pull_run(remote, answers).fetched <= u64::MAX,
    ensures
        pull_run(remote, answers).plan matches PullPlan::Done(s) ==> {
            &&& s.dirs >= 1
            &&& s.files + (s.dirs - 1) + s.skipped == pull_run(remote, answers).walked
            &&& s.bytes == pull_run(remote, answers).fetched
        },
{
    lemma_pull_counts(remote, answers);
    lemma_root_is_counted(remote, answers);
}

proof fn lemma_next_keeps_dirs(v: PullView)
    ensures
        pull_next(v).0.stats.dirs == v.stats.dirs,
    decreases
            v.frames.len(),
            (if v.frames.len() > 0 {
                v.frames.last().rest.len()
            } else {
                0
            }),
{
    if v.frames.len() > 0 {
        let top = v.frames.last();
        if top.rest.len() == 0 {
            lemma_next_keeps_dirs(PullView { frames: v.frames.drop_last(), ..v });
        } else if !safe_component(top.rest[0].name) {
            lemma_next_keeps_dirs(
                PullView { frames: past_first(v.frames), stats: v.stats.plus_skip() },
            );
        }
    }
}

proof fn lemma_next_keeps_files(v: PullView)
    ensures
        pull_next(v).0.stats.files == v.stats.files,
    decreases
            v.frames.len(),
            (if v.frames.len() > 0 {
                v.frames.last().rest.len()
            } else {
                0
            }),
{
    if v.frames.len() > 0 {
        let top = v.frames.last();
        if top.rest.len() == 0 {
            lemma_next_keeps_files(PullView { frames: v.frames.drop_last(), ..v });
        } else if !safe_component(top.rest[0].name) {
            lemma_next_keeps_files(
                PullView { frames: past_first(v.frames), stats: v.stats.plus_skip() },
            );
        }
    }
}

proof fn lemma_root_is_counted(remote: Seq<char>, answers: Seq<PullAnswer>)
    ensures
        ({
            let run = pull_run(remote, answers);
            run.v.stats.dirs >= 1 || run.plan is Open || run.plan is Failed
        }),
        pull_run(remote, answers).plan matches PullPlan::Done(s) ==> s.dirs >= 1,
    decreases answers.len(),
{
    if answers.len() > 0 {
        let run = pull_run(remote, answers.drop_last());
        lemma_root_is_counted(remote, answers.drop_last());
        match (run.plan, answers.last()) {
            (PullPlan::Open { remote: dir, local }, PullAnswer::Listed(Ok(rest))) => {
                let f = PullFrameView { remote: dir, local, rest };
                let w = PullView { frames: run.v.frames.push(f), stats: run.v.stats.plus_dir() };
                lemma_next_keeps_dirs(w);
                lemma_done_tells_the_counters(w);
            },
            (PullPlan::Fetch { .. }, PullAnswer::Fetched(Fetched::Stored(n))) => {
                let w = PullView { stats: run.v.stats.plus_file(n), ..run.v };
                lemma_next_keeps_dirs(w);
                lemma_done_tells_the_counters(w);
            },
            (PullPlan::Fetch { .. }, PullAnswer::Fetched(Fetched::Unstaged)) => {
                let w = PullView { stats: run.v.stats.plus_skip(), ..run.v };
                lemma_next_keeps_dirs(w);
                lemma_done_tells_the_counters(w);
            },
            _ => {},
        }
    }
}

proof fn lemma_done_tells_the_counters(v: PullView)
    ensures
        pull_next(v).1 matches PullPlan::Done(s) ==> s == pull_next(v).0.stats,
    decreases
            v.frames.len(),
            (if v.frames.len() > 0 {
                v.frames.last().rest.len()
            } else {
                0
            }),
{
    if v.frames.len() > 0 {
        let top = v.frames.last();
        if top.rest.len() == 0 {
            lemma_done_tells_the_counters(PullView { frames: v.frames.drop_last(), ..v });
        } else if !safe_component(top.rest[0].name) {
            lemma_done_tells_the_counters(
                PullView { frames: past_first(v.frames), stats: v.stats.plus_skip() },
            );
        }
    }
}

// ---------------------------------------------------------------------------
// To the device
// ---------------------------------------------------------------------------

/// The answer to a step of a transfer to the device.
pub enum PushAnswer {
    /// A directory was created, or was not.
    Made(std::result::Result<(), ErrorView>),
    /// A local directory was opened, or was not.
    Entered(std::result::Result<(), ErrorView>),
    /// The next entry of the innermost directory, or its end.
    Item(std::result::Result<Option<LocalItem>, ErrorView>),
    /// A file was uploaded, or was not.
    Uploaded(std::result::Result<u64, ErrorView>),
}

/// A transfer to the device with what it has met on its way.
pub struct PushRun {
    /// The transfer.
    pub v: PushView,
    /// Its next step.
    pub plan: PushPlan,
    /// The entries that were read.
    pub walked: nat,
    /// The bytes of all files that were sent.
    pub sent: nat,
}

/// The transfer of the directory `name` into `parent` after the answers, each
/// to the step that was due. An answer that was not asked for changes nothing.
pub open spec fn push_run(
    parent: Seq<char>,
    name: Option<Seq<char>>,
    shown: Seq<char>,
    answers: Seq<PushAnswer>,
) -> PushRun
    decreases answers.len(),
{
    if answers.len() == 0 {
        PushRun {
            v: PushView { dirs: Seq::empty(), stats: no_stats() },
            plan: push_start(parent, name, shown),
            walked: 0,
            sent: 0,
        }
    } else {
        let run = push_run(parent, name, shown, answers.drop_last());
        match (run.plan, answers.last()) {
            (PushPlan::Mkdir { dir, shown: text }, PushAnswer::Made(r)) => {
                let (v, plan) = push_made(run.v, dir, text, r);
                PushRun { v, plan, ..run }
            },
            (PushPlan::Enter(_), PushAnswer::Entered(r)) => PushRun {
                plan: match r {
                    Ok(_) => PushPlan::Next,
                    Err(e) => PushPlan::Failed(e),
                },
                ..run
            },
            (PushPlan::Next, PushAnswer::Item(r)) => match r {
                Ok(item) => {
                    let (v, plan) = push_item(run.v, item);
                    PushRun {
                        v,
                        plan,
                        walked: run.walked + if item is Some {
                            1nat
                        } else {
                            0
                        },
                        ..run
                    }
                },
                Err(e) => PushRun { plan: PushPlan::Failed(e), ..run },
            },
            (PushPlan::Upload { .. }, PushAnswer::Uploaded(r)) => match r {
                Ok(n) => PushRun {
                    v: PushView { stats: run.v.stats.plus_file(n), ..run.v },
                    plan: PushPlan::Next,
                    sent: run.sent + n as nat,
                    ..run
                },
                Err(e) => PushRun { plan: PushPlan::Failed(e), ..run },
            },
            _ => run,
        }
    }
}

proof fn lemma_push_counts(
    parent: Seq<char>,
    name: Option<Seq<char>>,
    shown: Seq<char>,
    answers: Seq<PushAnswer>,
)
    requires
        push_run(parent, name, shown, answers).walked < u32::MAX,
        push_run(parent, name, shown, answers).sent <= u64::MAX,
    ensures
        ({
            let run = push_run(parent, name, shown, answers);
            let due = if run.plan is Mkdir || run.plan is Upload {
                1nat
            } else {
                0
            };
            &&& !(run.plan is Failed) ==> total(run.v.stats) + due == run.walked + 1
            &&& run.v.stats.bytes == run.sent
            &&& run.plan is Next || run.plan is Upload || run.plan is Enter ==> run.v.dirs.len() > 0
            &&& run.v.dirs.len() > 0 || run.plan is Done ==> run.v.stats.dirs >= 1
            &&& run.plan matches PushPlan::Done(s) ==> s == run.v.stats
        }),
    decreases answers.len(),
{
    if answers.len() > 0 {
        lemma_push_counts(parent, name, shown, answers.drop_last());
    }
}

/// A transfer to the device that is complete has counted every entry that it
/// read, as a file, as a directory or as skipped, beside the directory it began
/// with; and the bytes are those of the files that were sent. (The counters hold
/// up to 2^32 entries and 2^64 bytes.)
pub proof fn law_push_counts_every_entry(
    parent: Seq<char>,
    name: Option<Seq<char>>,
    shown: Seq<char>,
    answers: Seq<PushAnswer>,
)
    requires
        push_run(parent, name, shown, answers).walked < u32::MAX,
        push_run(parent, name, shown, answers).sent <= u64::MAX,
    ensures
        push_run(parent, name, shown, answers).plan matches PushPlan::Done(s) ==> {
            &&& s.dirs >= 1
            &&& s.files + (s.dirs - 1) + s.skipped == push_run(parent, name, shown, answers).walked
            &&& s.bytes == push_run(parent, name, shown, answers).sent
        },
{
    lemma_push_counts(parent, name, shown, answers);
}

// ---------------------------------------------------------------------------
// Which files are sent
// ---------------------------------------------------------------------------

/// A local tree: the entries of each directory, by its place below the root, and
/// the bytes that each file has.
pub struct LocalTree {
    /// The entries of each directory.
    pub items: spec_fn(Seq<Seq<char>>) -> Seq<LocalItem>,
    /// The size of each file.
    pub size: spec_fn(Seq<Seq<char>>) -> u64,
}

/// A file that was sent: the directory on the device, the name in it, and the
/// place of the file below the local root.
pub struct Sent {
    /// The directory on the device.
    pub remote: Seq<char>,
    /// The name.
    pub name: Seq<char>,
    /// The place below the local root.
    pub local: Seq<Seq<char>>,
}

/// Two lists one after the other; none when one of them is missing.
pub open spec fn both_sent(a: Option<Seq<Sent>>, b: Option<Seq<Sent>>) -> Option<Seq<Sent>> {
    match (a, b) {
        (Some(x), Some(y)) => Some(x + y),
        _ => None,
    }
}

proof fn lemma_both_sent(a: Option<Seq<Sent>>, b: Option<Seq<Sent>>, c: Option<Seq<Sent>>)
    ensures
        both_sent(both_sent(a, b), c) == both_sent(a, both_sent(b, c)),
        both_sent(Some(Seq::empty()), c) == c,
{
    if a is Some && b is Some && c is Some {
        assert(a->0 + b->0 + c->0 =~= a->0 + (b->0 + c->0));
    }
    if c is Some {
        assert(Seq::<Sent>::empty() + c->0 =~= c->0);
    }
}

/// The regular files of a directory and below it, in order: those of the entries
/// `rest` of the directory `place`, which goes to `remote`. None when a directory
/// lies too deep.
pub open spec fn files_in(
    t: LocalTree,
    remote: Seq<char>,
    place: Seq<Seq<char>>,
    depth: nat,
    rest: Seq<LocalItem>,
) -> Option<Seq<Sent>>
    decreases
            (if depth <= MAX_TREE_DEPTH {
                MAX_TREE_DEPTH + 1 - depth
            } else {
                0
            }),
            rest.len(),
{
    if rest.len() == 0 {
        Some(Seq::empty())
    } else {
        let item = rest[0];
        let later = files_in(t, remote, place, depth, rest.skip(1));
        match item.name {
            None => later,
            Some(n) => if item.kind == LocalKind::File {
                both_sent(Some(seq![Sent { remote, name: n@, local: place.push(n@) }]), later)
            } else if item.kind == LocalKind::Dir {
                if depth >= MAX_TREE_DEPTH {
                    None
                } else {
                    let inner = place.push(n@);
                    both_sent(
                        files_in(t, joined(remote, n@), inner, depth + 1, (t.items)(inner)),
                        later,
                    )
                }
            } else {
                later
            },
        }
    }
}

/// A transfer to the device on a local tree.
pub struct SendRun {
    /// The transfer.
    pub v: PushView,
    /// Its next step.
    pub plan: PushPlan,
    /// What is still to be read of the directories that were entered.
    pub open: Seq<Seq<LocalItem>>,
    /// The directories that were made on the device.
    pub made: Seq<Seq<char>>,
    /// The files that were sent.
    pub sent: Seq<Sent>,
}

/// One step of a transfer, where the device takes everything.
pub open spec fn send_step(t: LocalTree, run: SendRun) -> SendRun {
    match run.plan {
        PushPlan::Mkdir { dir, shown } => {
            let (v, plan) = push_made(run.v, dir, shown, Ok(()));
            SendRun { v, plan, made: run.made.push(dir.remote), ..run }
        },
        PushPlan::Enter(local) => SendRun {
            plan: PushPlan::Next,
            open: run.open.push((t.items)(local)),
            ..run
        },
        PushPlan::Next => if run.open.len() == 0 || run.open.last().len() == 0 {
            let (v, plan) = push_item(run.v, None);
            SendRun { v, plan, open: run.open.drop_last(), ..run }
        } else {
            let (v, plan) = push_item(run.v, Some(run.open.last()[0]));
            SendRun {
                v,
                plan,
                open: run.open.drop_last().push(run.open.last().skip(1)),
                ..run
            }
        },
        PushPlan::Upload { remote, name, local } => SendRun {
            v: PushView { stats: run.v.stats.plus_file((t.size)(local)), ..run.v },
            plan: PushPlan::Next,
            sent: run.sent.push(Sent { remote, name, local }),
            ..run
        },
        _ => run,
    }
}

/// The transfer of the tree into `parent` under `name`, after `n` steps.
pub open spec fn send_run(
    t: LocalTree,
    parent: Seq<char>,
    name: Seq<char>,
    shown: Seq<char>,
    n: nat,
) -> SendRun
    decreases n,
{
    if n == 0 {
        SendRun {
            v: PushView { dirs: Seq::empty(), stats: no_stats() },
            plan: push_start(parent, Some(name), shown),
            open: Seq::empty(),
            made: Seq::empty(),
            sent: Seq::empty(),
        }
    } else {
        send_step(t, send_run(t, parent, name, shown, (n - 1) as nat))
    }
}

/// The files that are left in the directories that were entered.
pub open spec fn files_to_read(
    t: LocalTree,
    dirs: Seq<PushDirView>,
    open: Seq<Seq<LocalItem>>,
) -> Option<Seq<Sent>>
    decreases dirs.len(),
{
    if dirs.len() == 0 {
        Some(Seq::empty())
    } else {
        let top = dirs.last();
        both_sent(
            files_in(t, top.remote, top.local, (dirs.len() - 1) as nat, open.last()),
            files_to_read(t, dirs.drop_last(), open.drop_last()),
        )
    }
}

/// The files that a transfer has yet to send.
pub open spec fn files_to_send(t: LocalTree, run: SendRun) -> Option<Seq<Sent>> {
    let dirs = run.v.dirs;
    match run.plan {
        PushPlan::Mkdir { dir, .. } => if dirs.len() > MAX_TREE_DEPTH {
            None
        } else {
            both_sent(
                files_in(t, dir.remote, dir.local, dirs.len(), (t.items)(dir.local)),
                files_to_read(t, dirs, run.open),
            )
        },
        PushPlan::Enter(local) => files_to_read(t, dirs, run.open.push((t.items)(local))),
        PushPlan::Next => files_to_read(t, dirs, run.open),
        PushPlan::Upload { remote, name, local } => both_sent(
            Some(seq![Sent { remote, name, local }]),
            files_to_read(t, dirs, run.open),
        ),
        PushPlan::Done(_) => Some(Seq::empty()),
        PushPlan::Failed(_) => None,
    }
}

proof fn lemma_send_run(
    t: LocalTree,
    parent: Seq<char>,
    name: Seq<char>,
    shown: Seq<char>,
    n: nat,
)
    ensures
        ({
            let run = send_run(t, parent, name, shown, n);
            let root = Seq::<Seq<char>>::empty();
            let whole = files_in(t, joined(parent, name), root, 0, (t.items)(root));
            &&& whole == both_sent(Some(run.sent), files_to_send(t, run))
            &&& run.plan is Enter ==> run.open.len() + 1 == run.v.dirs.len()
            &&& run.plan matches PushPlan::Enter(local) ==> run.v.dirs.last().local == local
            &&& run.plan is Mkdir || run.plan is Next || run.plan is Upload ==> run.open.len()
                == run.v.dirs.len()
            &&& run.plan is Next || run.plan is Upload ==> run.v.dirs.len() > 0
            &&& run.plan is Done ==> run.v.dirs.len() == 0
            &&& run.v.dirs.len() <= MAX_TREE_DEPTH + 1
            &&& run.sent.len() < u32::MAX ==> run.v.stats.files == run.sent.len()
            &&& run.made.len() < u32::MAX ==> run.v.stats.dirs == run.made.len()
            &&& run.plan matches PushPlan::Done(s) ==> s == run.v.stats
        }),
    decreases n,
{
    let root = Seq::<Seq<char>>::empty();
    let whole = files_in(t, joined(parent, name), root, 0, (t.items)(root));
    let run = send_run(t, parent, name, shown, n);
    let none = Some(Seq::<Sent>::empty());
    if n == 0 {
        lemma_both_sent(none, whole, none);
        lemma_both_sent(none, none, both_sent(whole, none));
        if whole is Some {
            assert(whole->0 + Seq::<Sent>::empty() =~= whole->0);
        }
    } else {
        lemma_send_run(t, parent, name, shown, (n - 1) as nat);
        let before = send_run(t, parent, name, shown, (n - 1) as nat);
        let dirs = before.v.dirs;
        let sent = Some(before.sent);
        match before.plan {
            PushPlan::Mkdir { dir, .. } => {
                if dirs.len() <= MAX_TREE_DEPTH {
                    let open = before.open.push((t.items)(dir.local));
                    assert(run.v.dirs.drop_last() =~= dirs);
                    assert(open.drop_last() =~= before.open);
                } else {
                    assert(whole is None);
                }
            },
            PushPlan::Enter(local) => {},
            PushPlan::Next => {
                let top = dirs.last();
                let below = files_to_read(t, dirs.drop_last(), before.open.drop_last());
                let rest = before.open.last();
                if rest.len() == 0 {
                    lemma_both_sent(none, none, below);
                } else {
                    let item = rest[0];
                    let depth = (dirs.len() - 1) as nat;
                    let later = files_in(t, top.remote, top.local, depth, rest.skip(1));
                    let open = before.open.drop_last().push(rest.skip(1));
                    assert(open.drop_last() =~= before.open.drop_last());
                    assert(files_to_read(t, dirs, open) == both_sent(later, below));
                    if let Some(nm) = item.name {
                        let place = top.local.push(nm@);
                        if item.kind == LocalKind::File {
                            let one = Some(
                                seq![Sent { remote: top.remote, name: nm@, local: place }],
                            );
                            lemma_both_sent(one, later, below);
                        } else if item.kind == LocalKind::Dir && depth < MAX_TREE_DEPTH {
                            let inner = files_in(
                                t,
                                joined(top.remote, nm@),
                                place,
                                depth + 1,
                                (t.items)(place),
                            );
                            lemma_both_sent(inner, later, below);
                        }
                    }
                }
            },
            PushPlan::Upload { remote, name: file, local } => {
                let one = Sent { remote, name: file, local };
                let left = files_to_read(t, dirs, before.open);
                lemma_both_sent(sent, Some(seq![one]), left);
                assert(before.sent + seq![one] =~= run.sent);
            },
            _ => {},
        }
    }
}

/// A transfer to the device that is complete has sent exactly the regular files
/// with a Unicode name of the whole tree, each once and in order, each into the
/// directory on the device that mirrors its own, under its name: at every depth,
/// whatever their number, size and name. One that fails, where the device takes
/// everything, does so only because a directory lies too deep.
pub proof fn law_push_sends_each_file_once(
    t: LocalTree,
    parent: Seq<char>,
    name: Seq<char>,
    shown: Seq<char>,
    n: nat,
)
    ensures
        ({
            let run = send_run(t, parent, name, shown, n);
            let root = Seq::<Seq<char>>::empty();
            let whole = files_in(t, joined(parent, name), root, 0, (t.items)(root));
            &&& run.plan is Done ==> whole == Some(run.sent)
            &&& run.plan is Failed ==> whole is None
            &&& run.plan matches PushPlan::Done(s) ==> {
                &&& run.sent.len() < u32::MAX ==> s.files == run.sent.len()
                &&& run.made.len() < u32::MAX ==> s.dirs == run.made.len()
            }
        }),
{
    lemma_send_run(t, parent, name, shown, n);
    let run = send_run(t, parent, name, shown, n);
    assert(run.sent + Seq::<Sent>::empty() =~= run.sent);
}

/// True when an entry is of the kind and has the name.
pub open spec fn is_item(item: LocalItem, kind: LocalKind, name: Seq<char>) -> bool {
    item.kind == kind && match item.name {
        Some(n) => n@ == name,
        None => false,
    }
}

/// True when one of the entries is of the kind and has the name.
pub open spec fn has_item(items: Seq<LocalItem>, kind: LocalKind, name: Seq<char>) -> bool {
    exists|i: int| 0 <= i < items.len() && is_item(#[trigger] items[i], kind, name)
}

/// True when `local` is the place of a regular file at or below one of the
/// entries `rest` of the directory `place`.
pub open spec fn is_file_below(
    t: LocalTree,
    local: Seq<Seq<char>>,
    place: Seq<Seq<char>>,
    rest: Seq<LocalItem>,
) -> bool {
    &&& local.len() > place.len()
    &&& local.take(place.len() as int) == place
    &&& if local.len() == place.len() + 1 {
        has_item(rest, LocalKind::File, local.last())
    } else {
        &&& has_item(rest, LocalKind::Dir, local[place.len() as int])
        &&& forall|k: int| #![trigger local.take(k)]
            place.len() < k < local.len() ==> has_item(
                (t.items)(local.take(k)),
                if k == local.len() - 1 {
                    LocalKind::File
                } else {
                    LocalKind::Dir
                },
                local[k],
            )
    }
}

/// True when some file of the list has the place.
pub open spec fn lists(files: Seq<Sent>, local: Seq<Seq<char>>) -> bool {
    exists|i: int| 0 <= i < files.len() && (#[trigger] files[i]).local == local
}

proof fn lemma_lists_sum(a: Seq<Sent>, b: Seq<Sent>, local: Seq<Seq<char>>)
    ensures
        lists(a + b, local) == (lists(a, local) || lists(b, local)),
{
    let s = a + b;
    if lists(a, local) {
        let i = choose|i: int| 0 <= i < a.len() && (#[trigger] a[i]).local == local;
        assert(s[i].local == local);
    }
    if lists(b, local) {
        let i = choose|i: int| 0 <= i < b.len() && (#[trigger] b[i]).local == local;
        assert(s[a.len() + i].local == local);
    }
    if lists(s, local) {
        let i = choose|i: int| 0 <= i < s.len() && (#[trigger] s[i]).local == local;
        if i < a.len() {
            assert(a[i].local == local);
        } else {
            assert(b[i - a.len()].local == local);
        }
    }
}

proof fn lemma_has_item(rest: Seq<LocalItem>, kind: LocalKind, name: Seq<char>)
    requires
        rest.len() > 0,
    ensures
        has_item(rest, kind, name) == (is_item(rest[0], kind, name) || has_item(
            rest.skip(1),
            kind,
            name,
        )),
{
    let later = rest.skip(1);
    if has_item(rest, kind, name) {
        let i = choose|i: int| 0 <= i < rest.len() && is_item(#[trigger] rest[i], kind, name);
        if i > 0 {
            assert(later[i - 1] == rest[i]);
        }
    }
    if has_item(later, kind, name) {
        let i = choose|i: int| 0 <= i < later.len() && is_item(#[trigger] later[i], kind, name);
        assert(rest[i + 1] == later[i]);
    }
}

proof fn lemma_files_in(
    t: LocalTree,
    remote: Seq<char>,
    place: Seq<Seq<char>>,
    depth: nat,
    rest: Seq<LocalItem>,
    local: Seq<Seq<char>>,
)
    requires
        files_in(t, remote, place, depth, rest) is Some,
    ensures
        lists(files_in(t, remote, place, depth, rest)->0, local) == is_file_below(
            t,
            local,
            place,
            rest,
        ),
    decreases
            (if depth <= MAX_TREE_DEPTH {
                MAX_TREE_DEPTH + 1 - depth
            } else {
                0
            }),
            rest.len(),
{
    let len = place.len() as int;
    if rest.len() > 0 {
        let item = rest[0];
        let later = files_in(t, remote, place, depth, rest.skip(1));
        lemma_files_in(t, remote, place, depth, rest.skip(1), local);
        if local.len() > len {
            lemma_has_item(rest, LocalKind::File, local.last());
            lemma_has_item(rest, LocalKind::Dir, local[len]);
        }
        if let Some(n) = item.name {
            let inner = place.push(n@);
            if item.kind == LocalKind::File {
                let one = seq![Sent { remote, name: n@, local: inner }];
                lemma_lists_sum(one, later->0, local);
                if local == inner {
                    assert(one[0].local == local);
                    assert(local.take(len) =~= place);
                    assert(local.last() == n@);
                }
                if local.len() == len + 1 && local.take(len) == place && local.last() == n@ {
                    assert(local =~= inner);
                }
            } else if item.kind == LocalKind::Dir {
                let below = files_in(t, joined(remote, n@), inner, depth + 1, (t.items)(inner));
                lemma_files_in(t, joined(remote, n@), inner, depth + 1, (t.items)(inner), local);
                lemma_lists_sum(below->0, later->0, local);
                lemma_file_below(t, local, place, n@, rest);
            }
        }
    }
}

/// Below an entry that is a directory lies what lies in that directory.
proof fn lemma_file_below(
    t: LocalTree,
    local: Seq<Seq<char>>,
    place: Seq<Seq<char>>,
    name: Seq<char>,
    rest: Seq<LocalItem>,
)
    ensures
        ({
            let inner = place.push(name);
            is_file_below(t, local, inner, (t.items)(inner)) <==> {
                &&& local.len() > place.len() + 1
                &&& local.take(place.len() as int) == place
                &&& local[place.len() as int] == name
                &&& forall|k: int| #![trigger local.take(k)]
                    place.len() < k < local.len() ==> has_item(
                        (t.items)(local.take(k)),
                        if k == local.len() - 1 {
                            LocalKind::File
                        } else {
                            LocalKind::Dir
                        },
                        local[k],
                    )
            }
        }),
{
    let inner = place.push(name);
    let len = place.len() as int;
    if local.len() > len + 1 {
        if local.take(len) == place && local[len] == name {
            assert(local.take(len + 1) =~= inner);
        }
        if local.take(len + 1) == inner {
            assert(local.take(len) =~= local.take(len + 1).take(len));
            assert(inner.take(len) =~= place);
            assert(local[len] == local.take(len + 1)[len]);
            if is_file_below(t, local, inner, (t.items)(inner)) {
                assert forall|k: int| #![trigger local.take(k)] len < k < local.len() implies has_item(
                    (t.items)(local.take(k)),
                    if k == local.len() - 1 {
                        LocalKind::File
                    } else {
                        LocalKind::Dir
                    },
                    local[k],
                ) by {
                    if k == len + 1 {
                        assert(local.take(k) == inner);
                    }
                }
            }
        }
    }
}

/// A file is sent by a complete transfer exactly when it is a regular file with
/// a Unicode name that can be reached through directories of the tree: none is
/// left out, and nothing else is sent.
pub proof fn law_push_leaves_no_file_out(
    t: LocalTree,
    parent: Seq<char>,
    name: Seq<char>,
    shown: Seq<char>,
    n: nat,
    local: Seq<Seq<char>>,
)
    requires
        send_run(t, parent, name, shown, n).plan is Done,
    ensures
        lists(send_run(t, parent, name, shown, n).sent, local) == is_file_below(
            t,
            local,
            Seq::empty(),
            (t.items)(Seq::empty()),
        ),
{
    law_push_sends_each_file_once(t, parent, name, shown, n);
    let root = Seq::<Seq<char>>::empty();
    lemma_files_in(t, joined(parent, name), root, 0, (t.items)(root), local);
}

// ---------------------------------------------------------------------------
// Which files are fetched
// ---------------------------------------------------------------------------

/// A transfer from the device on a tree of the device.
pub struct FetchRun {
    /// The transfer.
    pub v: PullView,
    /// Its next step.
    pub plan: PullPlan,
    /// The directories that were created, by their place below the local root.
    pub made: Seq<Seq<Seq<char>>>,
    /// The files that were fetched.
    pub taken: Seq<FileView>,
}

/// The transfer of the directory `remote` after `n` steps, where `dir` gives the
/// entries of each directory of the device and every file can be fetched.
pub open spec fn fetch_run(
    dir: spec_fn(Seq<char>) -> Seq<EntryView>,
    remote: Seq<char>,
    n: nat,
) -> FetchRun
    decreases n,
{
    if n == 0 {
        FetchRun {
            v: PullView { frames: Seq::empty(), stats: no_stats() },
            plan: PullPlan::Open { remote, local: Seq::empty() },
            made: Seq::empty(),
            taken: Seq::empty(),
        }
    } else {
        let run = fetch_run(dir, remote, (n - 1) as nat);
        match run.plan {
            PullPlan::Open { remote: path, local } => {
                let (v, plan) = pull_listed(run.v, path, local, Ok(dir(path)));
                FetchRun { v, plan, made: run.made.push(local), ..run }
            },
            PullPlan::Fetch { remote: path, local, size } => {
                let (v, plan) = pull_fetched(run.v, Fetched::Stored(size));
                FetchRun {
                    v,
                    plan,
                    taken: run.taken.push(FileView { remote: path, local }),
                    ..run
                }
            },
            _ => run,
        }
    }
}

/// The files that a transfer has yet to fetch.
pub open spec fn files_to_fetch(
    dir: spec_fn(Seq<char>) -> Seq<EntryView>,
    run: FetchRun,
) -> Option<Seq<FileView>> {
    let left = files_left(dir, run.v.frames);
    match run.plan {
        PullPlan::Open { remote, local } => both(
            tree_files(dir, remote, local, run.v.frames.len(), dir(remote)),
            left,
        ),
        PullPlan::Fetch { remote, local, .. } => both(
            Some(seq![FileView { remote, local }]),
            left,
        ),
        PullPlan::Done(_) => Some(Seq::empty()),
        PullPlan::Failed(_) => None,
    }
}

proof fn lemma_both_files(
    a: Option<Seq<FileView>>,
    b: Option<Seq<FileView>>,
    c: Option<Seq<FileView>>,
)
    ensures
        both(both(a, b), c) == both(a, both(b, c)),
        both(Some(Seq::empty()), c) == c,
        both(c, Some(Seq::empty())) == c,
{
    if a is Some && b is Some && c is Some {
        assert(a->0 + b->0 + c->0 =~= a->0 + (b->0 + c->0));
    }
    if c is Some {
        assert(Seq::<FileView>::empty() + c->0 =~= c->0);
        assert(c->0 + Seq::<FileView>::empty() =~= c->0);
    }
}

/// Going on changes nothing of what is left.
proof fn lemma_next_to_fetch(
    dir: spec_fn(Seq<char>) -> Seq<EntryView>,
    v: PullView,
    run: FetchRun,
)
    requires
        v.frames.len() <= MAX_TREE_DEPTH + 1,
        (run.v, run.plan) == pull_next(v),
    ensures
        files_to_fetch(dir, run) == files_left(dir, v.frames),
        run.v.frames.len() <= MAX_TREE_DEPTH + 1,
        run.plan is Open ==> run.v.frames.len() <= MAX_TREE_DEPTH,
{
    law_pull_takes_each_file_once(dir, v);
    if let PullPlan::Open { remote, local } = run.plan {
        let f = PullFrameView { remote, local, rest: dir(remote) };
        assert(run.v.frames.push(f).drop_last() =~= run.v.frames);
    }
}

proof fn lemma_fetch_run(dir: spec_fn(Seq<char>) -> Seq<EntryView>, remote: Seq<char>, n: nat)
    ensures
        ({
            let run = fetch_run(dir, remote, n);
            let whole = tree_files(dir, remote, Seq::empty(), 0, dir(remote));
            &&& whole == both(Some(run.taken), files_to_fetch(dir, run))
            &&& run.v.frames.len() <= MAX_TREE_DEPTH + 1
            &&& run.plan is Open ==> run.v.frames.len() <= MAX_TREE_DEPTH
            &&& run.taken.len() < u32::MAX ==> run.v.stats.files == run.taken.len()
            &&& run.made.len() < u32::MAX ==> run.v.stats.dirs == run.made.len()
            &&& run.plan matches PullPlan::Done(s) ==> s == run.v.stats
        }),
    decreases n,
{
    let whole = tree_files(dir, remote, Seq::empty(), 0, dir(remote));
    let run = fetch_run(dir, remote, n);
    let none = Some(Seq::<FileView>::empty());
    if n == 0 {
        lemma_both_files(none, none, whole);
    } else {
        lemma_fetch_run(dir, remote, (n - 1) as nat);
        let before = fetch_run(dir, remote, (n - 1) as nat);
        match before.plan {
            PullPlan::Open { remote: path, local } => {
                let f = PullFrameView { remote: path, local, rest: dir(path) };
                let w = PullView {
                    frames: before.v.frames.push(f),
                    stats: before.v.stats.plus_dir(),
                };
                assert(w.frames.drop_last() =~= before.v.frames);
                lemma_next_keeps_dirs(w);
                lemma_next_keeps_files(w);
                lemma_done_tells_the_counters(w);
                lemma_next_to_fetch(dir, w, run);
            },
            PullPlan::Fetch { remote: path, local, size } => {
                let w = PullView { stats: before.v.stats.plus_file(size), ..before.v };
                lemma_next_keeps_dirs(w);
                lemma_next_keeps_files(w);
                lemma_done_tells_the_counters(w);
                lemma_next_to_fetch(dir, w, run);
                let one = FileView { remote: path, local };
                lemma_both_files(
                    Some(before.taken),
                    Some(seq![one]),
                    files_left(dir, before.v.frames),
                );
                assert(before.taken + seq![one] =~= run.taken);
            },
            _ => {},
        }
    }
}

/// A transfer from the device that is complete has fetched exactly the files of
/// the whole tree that have usable names, each once and in order, each from its
/// own path to the place that mirrors it: at every depth, whatever their number,
/// size and name. One that fails, where every file can be fetched, does so only
/// because a directory lies too deep. The counters tell how many files and
/// directories went.
pub proof fn law_pull_fetches_each_file_once(
    dir: spec_fn(Seq<char>) -> Seq<EntryView>,
    remote: Seq<char>,
    n: nat,
)
    ensures
        ({
            let run = fetch_run(dir, remote, n);
            let whole = tree_files(dir, remote, Seq::empty(), 0, dir(remote));
            &&& run.plan is Done ==> whole == Some(run.taken)
            &&& run.plan is Failed ==> whole is None
            &&& run.plan matches PullPlan::Done(s) ==> {
                &&& run.taken.len() < u32::MAX ==> s.files == run.taken.len()
                &&& run.made.len() < u32::MAX ==> s.dirs == run.made.len()
            }
        }),
{
    lemma_fetch_run(dir, remote, n);
    let run = fetch_run(dir, remote, n);
    assert(run.taken + Seq::<FileView>::empty() =~= run.taken);
}

/// True when one of the entries has the name, and is a directory or is not.
pub open spec fn has_entry(entries: Seq<EntryView>, is_dir: bool, name: Seq<char>) -> bool {
    exists|i: int|
        0 <= i < entries.len() && (#[trigger] entries[i]).is_dir == is_dir && entries[i].name == name
}

/// True when `local` is the place of a file with usable names at or below one of
/// the entries `rest` of the directory `remote`, which is at `place`.
pub open spec fn is_entry_below(
    dir: spec_fn(Seq<char>) -> Seq<EntryView>,
    local: Seq<Seq<char>>,
    remote: Seq<char>,
    place: Seq<Seq<char>>,
    rest: Seq<EntryView>,
) -> bool
    decreases local.len() - place.len(),
{
    let k = place.len() as int;
    &&& local.len() > k
    &&& local.take(k) == place
    &&& safe_component(local[k])
    &&& if local.len() == k + 1 {
        has_entry(rest, false, local[k])
    } else {
        let path = joined(remote, local[k]);
        &&& has_entry(rest, true, local[k])
        &&& is_entry_below(dir, local, path, place.push(local[k]), dir(path))
    }
}

/// True when some file of the list goes to the place.
pub open spec fn takes(files: Seq<FileView>, local: Seq<Seq<char>>) -> bool {
    exists|i: int| 0 <= i < files.len() && (#[trigger] files[i]).local == local
}

proof fn lemma_takes_sum(a: Seq<FileView>, b: Seq<FileView>, local: Seq<Seq<char>>)
    ensures
        takes(a + b, local) == (takes(a, local) || takes(b, local)),
{
    let s = a + b;
    if takes(a, local) {
        let i = choose|i: int| 0 <= i < a.len() && (#[trigger] a[i]).local == local;
        assert(s[i].local == local);
    }
    if takes(b, local) {
        let i = choose|i: int| 0 <= i < b.len() && (#[trigger] b[i]).local == local;
        assert(s[a.len() + i].local == local);
    }
    if takes(s, local) {
        let i = choose|i: int| 0 <= i < s.len() && (#[trigger] s[i]).local == local;
        if i < a.len() {
            assert(a[i].local == local);
        } else {
            assert(b[i - a.len()].local == local);
        }
    }
}

proof fn lemma_has_entry(rest: Seq<EntryView>, is_dir: bool, name: Seq<char>)
    requires
        rest.len() > 0,
    ensures
        has_entry(rest, is_dir, name) == ((rest[0].is_dir == is_dir && rest[0].name == name)
            || has_entry(rest.skip(1), is_dir, name)),
{
    let later = rest.skip(1);
    if has_entry(rest, is_dir, name) {
        let i = choose|i: int|
            0 <= i < rest.len() && (#[trigger] rest[i]).is_dir == is_dir && rest[i].name == name;
        if i > 0 {
            assert(later[i - 1] == rest[i]);
        }
    }
    if has_entry(later, is_dir, name) {
        let i = choose|i: int|
            0 <= i < later.len() && (#[trigger] later[i]).is_dir == is_dir && later[i].name == name;
        assert(rest[i + 1] == later[i]);
    }
}

proof fn lemma_tree_files(
    dir: spec_fn(Seq<char>) -> Seq<EntryView>,
    remote: Seq<char>,
    place: Seq<Seq<char>>,
    depth: nat,
    rest: Seq<EntryView>,
    local: Seq<Seq<char>>,
)
    requires
        tree_files(dir, remote, place, depth, rest) is Some,
    ensures
        takes(tree_files(dir, remote, place, depth, rest)->0, local) == is_entry_below(
            dir,
            local,
            remote,
            place,
            rest,
        ),
    decreases
            (if depth <= MAX_TREE_DEPTH {
                MAX_TREE_DEPTH + 1 - depth
            } else {
                0
            }),
            rest.len(),
{
    let k = place.len() as int;
    if rest.len() > 0 {
        let e = rest[0];
        let later = tree_files(dir, remote, place, depth, rest.skip(1));
        lemma_tree_files(dir, remote, place, depth, rest.skip(1), local);
        if local.len() > k {
            lemma_has_entry(rest, false, local[k]);
            lemma_has_entry(rest, true, local[k]);
        }
        if safe_component(e.name) {
            let path = joined(remote, e.name);
            let inner = place.push(e.name);
            if !e.is_dir {
                let one = seq![FileView { remote: path, local: inner }];
                lemma_takes_sum(one, later->0, local);
                if local == inner {
                    assert(one[0].local == local);
                    assert(local.take(k) =~= place);
                }
                if local.len() == k + 1 && local.take(k) == place && local[k] == e.name {
                    assert(local =~= inner);
                }
            } else {
                let below = tree_files(dir, path, inner, depth + 1, dir(path));
                lemma_tree_files(dir, path, inner, depth + 1, dir(path), local);
                lemma_takes_sum(below->0, later->0, local);
                if is_entry_below(dir, local, path, inner, dir(path)) {
                    assert(local.take(k) =~= local.take(k + 1).take(k));
                    assert(inner.take(k) =~= place);
                    assert(local[k] == local.take(k + 1)[k]);
                }
            }
        }
    }
}

/// A file is fetched by a complete transfer exactly when it can be reached
/// through directories of the device, and it and they have usable names: none is
/// left out, and nothing else is fetched.
pub proof fn law_pull_leaves_no_file_out(
    dir: spec_fn(Seq<char>) -> Seq<EntryView>,
    remote: Seq<char>,
    n: nat,
    local: Seq<Seq<char>>,
)
    requires
        fetch_run(dir, remote, n).plan is Done,
    ensures
        takes(fetch_run(dir, remote, n).taken, local) == is_entry_below(
            dir,
            local,
            remote,
            Seq::empty(),
            dir(remote),
        ),
{
    law_pull_fetches_each_file_once(dir, remote, n);
    lemma_tree_files(dir, remote, Seq::empty(), 0, dir(remote), local);
}

/// A name from the device may be joined onto a local directory exactly when it
/// is one ordinary component.
pub proof fn law_safe_names_are_single_components(name: Seq<char>)
    ensures
        safe_component(name) <==> name.len() > 0 && name != seq!['.'] && name != seq!['.', '.'] && (
        forall|i: int|
            0 <= i < name.len() ==> #[trigger] name[i] != '/' && name[i] != '\\' && name[i]
                != '\0'),
{
    if safe_component(name) {
        assert forall|i: int| 0 <= i < name.len() implies #[trigger] name[i] != '/' && name[i]
            != '\\' && name[i] != '\0' by {
            assert(name.contains(name[i]));
        }
    }
}

} // verus!
