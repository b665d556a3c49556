//! What the commands come to, and what they say.

use vstd::prelude::*;

use crate::commands::{
    default_name, entry_line, info_text, listing_lines, move_target, mv_changed, mv_found,
    parent_and_leaf, parent_problem, size_width, storage_line, tree_report, MvPlan, MvView,
};
use crate::error::Result;
use crate::format::bytes_text;
use crate::model::{DeviceSummary, Entry, EntryView, Resolved};
use crate::ops::{joined, safe_component, TreeStats};
use crate::text::{
    dec, last_index, lemma_last_slash, lemma_strip_end, no_end_slash, pad_start, trim,
};

verus! {

// ---------------------------------------------------------------------------
// Listings
// ---------------------------------------------------------------------------

/// True when `s` is made of spaces.
pub open spec fn all_spaces(s: Seq<char>) -> bool {
    forall|i: int| 0 <= i < s.len() ==> #[trigger] s[i] == ' '
}

proof fn lemma_pad_start(s: Seq<char>, width: nat) -> (front: Seq<char>)
    ensures
        all_spaces(front),
        pad_start(s, width) == front + s,
        pad_start(s, width).len() == if s.len() >= width {
            s.len()
        } else {
            width
        },
    decreases width - s.len(),
{
    if s.len() >= width {
        assert(Seq::<char>::empty() + s =~= s);
        Seq::empty()
    } else {
        let t = seq![' '] + s;
        let front = lemma_pad_start(t, width);
        assert(front + t =~= front.push(' ') + s);
        front.push(' ')
    }
}

proof fn lemma_size_width(entries: Seq<Entry>, i: int)
    requires
        0 <= i < entries.len(),
    ensures
        bytes_text(entries[i].size as nat).len() <= size_width(entries),
    decreases entries.len(),
{
    if i < entries.len() - 1 {
        lemma_size_width(entries.drop_last(), i);
        assert(entries.drop_last()[i] == entries[i]);
    }
}

proof fn lemma_widest(entries: Seq<Entry>) -> (i: int)
    requires
        entries.len() > 0,
    ensures
        0 <= i < entries.len(),
        bytes_text(entries[i].size as nat).len() == size_width(entries),
    decreases entries.len(),
{
    if entries.len() == 1 {
        assert(size_width(entries.drop_last()) == 0);
        0
    } else {
        let j = lemma_widest(entries.drop_last());
        assert(entries.drop_last()[j] == entries[j]);
        if bytes_text(entries.last().size as nat).len() > size_width(entries.drop_last()) {
            entries.len() - 1
        } else {
            j
        }
    }
}

/// Each line of a listing tells of its entry: it starts with `d` for a directory
/// and with `-` for anything else, whatever the size and the name; then come the
/// size, with spaces before it, and the name to the end of the line. There is one
/// line for each entry, in their order, and the names stand in one column.
pub proof fn law_listing_tells_of_each_entry(entries: Seq<Entry>, i: int, j: int) -> (front: Seq<
    char,
>)
    requires
        0 <= i < entries.len(),
        0 <= j < entries.len(),
    ensures
        listing_lines(entries).len() == entries.len(),
        entries[i].is_dir ==> listing_lines(entries)[i][0] == 'd',
        !entries[i].is_dir ==> listing_lines(entries)[i][0] == '-',
        listing_lines(entries)[i].len() > 3 + entries[i].name@.len(),
        all_spaces(front),
        listing_lines(entries)[i].skip(1) == seq![' '] + front + bytes_text(entries[i].size as nat)
            + seq![' '] + entries[i].name@,
        listing_lines(entries)[i].len() - entries[i].name@.len() == listing_lines(entries)[j].len()
            - entries[j].name@.len(),
{
    reveal_strlit("d ");
    reveal_strlit("- ");
    reveal_strlit(" ");
    let width = size_width(entries);
    let size = bytes_text(entries[i].size as nat);
    let front = lemma_pad_start(size, width);
    let other = lemma_pad_start(bytes_text(entries[j].size as nat), width);
    lemma_size_width(entries, i);
    lemma_size_width(entries, j);
    let w = lemma_widest(entries);
    lemma_bytes_text_is_not_empty(entries[w].size as nat);
    assert(listing_lines(entries)[i] == entry_line(entries[i], width));
    assert(listing_lines(entries)[j] == entry_line(entries[j], width));
    assert(listing_lines(entries)[i].skip(1) =~= seq![' '] + front + size + seq![' ']
        + entries[i].name@);
    front
}

proof fn lemma_bytes_text_is_not_empty(n: nat)
    ensures
        bytes_text(n).len() > 1,
{
    reveal_strlit(" B");
    reveal_strlit(" KiB");
    reveal_strlit(" MiB");
    reveal_strlit(" GiB");
}

/// A directory without entries is said to be empty, and only such a one gives a
/// line that is not the line of an entry.
pub proof fn law_empty_listing_is_said_to_be_empty()
    ensures
        listing_lines(Seq::empty()) == seq!["(empty)"@],
{
    assert(listing_lines(Seq::empty()) =~= seq!["(empty)"@]);
}

// ---------------------------------------------------------------------------
// Moves
// ---------------------------------------------------------------------------

/// Where an object lies: in which directory, under which name.
pub struct Place {
    /// The storage.
    pub storage: usize,
    /// The directory.
    pub dir: u64,
    /// The name.
    pub name: Seq<char>,
}

/// A move as far as it has come.
pub struct Moving {
    /// The next step.
    pub plan: MvPlan,
    /// Where the object lies.
    pub place: Place,
    /// The path by which it is reached.
    pub path: Seq<char>,
    /// How often it was changed.
    pub changes: nat,
    /// True when a change was asked for of something else.
    pub astray: bool,
}

/// One step of a move of `from` to `to`, where `look` gives what a path leads to
/// and the device does what it is told.
pub open spec fn moving_step(
    from: Seq<char>,
    to: Seq<char>,
    look: spec_fn(Seq<char>) -> Result<Resolved>,
    e: Entry,
    m: Moving,
) -> Moving {
    match m.plan {
        MvPlan::Resolve(p, at) => Moving { plan: mv_found(from, to, at, look(p)), ..m },
        MvPlan::Move(d, at) => match look(d) {
            Ok(dir) => Moving {
                plan: mv_changed(to, at, Ok(e)),
                place: Place { storage: dir.storage_index, dir: dir.handle, ..m.place },
                path: joined(d, m.place.name),
                changes: m.changes + 1,
                astray: m.astray || !dir.entry.is_dir,
            },
            Err(_) => Moving { astray: true, ..m },
        },
        MvPlan::Rename(p, name, at) => Moving {
            plan: mv_changed(to, at, Ok(e)),
            place: Place { name, ..m.place },
            path: m.path,
            changes: m.changes + 1,
            astray: m.astray || p != m.path,
        },
        _ => m,
    }
}

/// A move of `from`, which is `source`, to `to`, after `n` steps.
pub open spec fn moving(
    from: Seq<char>,
    to: Seq<char>,
    look: spec_fn(Seq<char>) -> Result<Resolved>,
    source: Resolved,
    first: MvPlan,
    n: nat,
) -> Moving
    decreases n,
{
    if n == 0 {
        Moving {
            plan: first,
            place: Place {
                storage: source.storage_index,
                dir: source.entry.parent,
                name: source.entry.name@,
            },
            path: from,
            changes: 0,
            astray: false,
        }
    } else {
        moving_step(
            from,
            to,
            look,
            source.entry,
            moving(from, to, look, source, first, (n - 1) as nat),
        )
    }
}

/// True when the path, slashes at its end aside, is the directory `parent`, a
/// slash and one name.
pub open spec fn lies_in(path: Seq<char>, parent: Seq<char>, name: Seq<char>) -> bool {
    &&& !name.contains('/')
    &&& name.len() > 0
    &&& parent.len() > 0
    &&& path.len() > parent.len() + name.len()
    &&& path.take((parent.len() + 1 + name.len()) as int) == parent + seq!['/'] + name
    &&& forall|i: int| parent.len() + name.len() < i < path.len() ==> #[trigger] path[i] == '/'
}

/// True when a move of `from` to `to` is to put the object into `parent` under
/// the name `leaf`: as the path `to` says, or, when `to` is a bare name, under
/// that name in the directory of `from`.
pub open spec fn is_target(
    from: Seq<char>,
    to: Seq<char>,
    parent: Seq<char>,
    leaf: Seq<char>,
) -> bool {
    if to.contains('/') {
        &&& trim(to) == parent + seq!['/'] + leaf
        &&& parent.len() > 0
        &&& leaf.len() > 0
        &&& !leaf.contains('/')
    } else {
        &&& leaf == to
        &&& exists|name: Seq<char>| #[trigger] lies_in(from, parent, name)
    }
}

proof fn lemma_slash_before(parent: Seq<char>, leaf: Seq<char>)
    requires
        !leaf.contains('/'),
    ensures
        last_index(parent + seq!['/'] + leaf, '/') == Some(parent.len() as int),
{
    lemma_last_slash(parent, leaf);
    assert(parent + seq!['/'] + leaf =~= parent.push('/') + leaf);
}

proof fn lemma_slashes_go(path: Seq<char>, n: int)
    requires
        0 < n <= path.len(),
        path[n - 1] != '/',
        forall|i: int| n <= i < path.len() ==> #[trigger] path[i] == '/',
    ensures
        no_end_slash(path) == path.take(n),
    decreases path.len(),
{
    if path.len() > n {
        assert(path.last() == '/');
        lemma_slashes_go(path.drop_last(), n);
        assert(path.drop_last().take(n) =~= path.take(n));
    } else {
        assert(path.take(n) =~= path);
        assert(path.last() == path[n - 1]);
    }
}

proof fn lemma_target(from: Seq<char>, to: Seq<char>, parent: Seq<char>, leaf: Seq<char>)
    requires
        is_target(from, to, parent, leaf),
    ensures
        move_target(from, to) == Ok::<(Seq<char>, Seq<char>), Seq<char>>((parent, leaf)),
{
    if to.contains('/') {
        let t = trim(to);
        lemma_slash_before(parent, leaf);
        assert(t.take(parent.len() as int) =~= parent);
        assert(t.skip(parent.len() as int + 1) =~= leaf);
    } else {
        let name = choose|name: Seq<char>| #[trigger] lies_in(from, parent, name);
        let n = (parent.len() + 1 + name.len()) as int;
        let t = parent + seq!['/'] + name;
        assert(from.take(n)[n - 1] == t[n - 1]);
        assert(name.contains(name[name.len() - 1]));
        lemma_slashes_go(from, n);
        lemma_slash_before(parent, name);
        assert(from.take(parent.len() as int) =~= from.take(n).take(parent.len() as int));
        assert(t.take(parent.len() as int) =~= parent);
    }
}

/// True when two objects are one directory and the one that holds the source.
pub open spec fn holds_source(dir: Resolved, source: Resolved) -> bool {
    dir.storage_index == source.storage_index && dir.handle == source.entry.parent
}

/// A move ends with the object, file or directory, where the user wants it. When
/// the target is a directory, it lies in that directory under the name it had.
/// When nothing has the name of the target, it lies in the directory of the
/// target under that name; and it was changed unless it lay there before. Only
/// this object is changed, and the user is told that it was moved or renamed when
/// that is so. A target that is a file, and a directory that is none, leave it
/// where it was.
pub proof fn law_move_ends_at_its_target(
    from: Seq<char>,
    to: Seq<char>,
    look: spec_fn(Seq<char>) -> Result<Resolved>,
    source: Resolved,
    parent: Seq<char>,
    leaf: Seq<char>,
    n: nat,
)
    requires
        look(from) == Ok::<Resolved, crate::error::Error>(source),
        is_target(from, to, parent, leaf),
        n >= 6,
    ensures
        ({
            let end = moving(
                from,
                to,
                look,
                source,
                MvPlan::Resolve(to, MvView::Target),
                n,
            );
            let home = Place {
                storage: source.storage_index,
                dir: source.entry.parent,
                name: source.entry.name@,
            };
            &&& !end.astray
            &&& match look(to) {
                Ok(target) => if target.entry.is_dir {
                    &&& end.place == (Place {
                        storage: target.storage_index,
                        dir: target.handle,
                        name: source.entry.name@,
                    })
                    &&& end.changes == 1
                    &&& end.plan == MvPlan::Done(
                        "moved -> "@ + to + "/"@ + source.entry.name@,
                    )
                } else {
                    &&& end.place == home
                    &&& end.changes == 0
                    &&& end.plan is Failed
                },
                Err(_) => match look(parent) {
                    Ok(dir) => if dir.entry.is_dir {
                        &&& end.place == (Place {
                            storage: dir.storage_index,
                            dir: dir.handle,
                            name: leaf,
                        })
                        &&& (end.changes == 0) == (end.place == home)
                        &&& holds_source(dir, source) ==> end.plan == MvPlan::Done(
                            "renamed -> "@ + to,
                        )
                        &&& !holds_source(dir, source) ==> end.plan == MvPlan::Done(
                            "moved+renamed -> "@ + to,
                        )
                    } else {
                        end.place == home && end.changes == 0 && end.plan is Failed
                    },
                    Err(_) => end.place == home && end.changes == 0 && end.plan is Failed,
                },
            }
        }),
    decreases n,
{
    let first = MvPlan::Resolve(to, MvView::Target);
    lemma_target(from, to, parent, leaf);
    if n > 6 {
        law_move_ends_at_its_target(from, to, look, source, parent, leaf, (n - 1) as nat);
    } else {
        let m0 = moving(from, to, look, source, first, 0);
        let m1 = moving(from, to, look, source, first, 1);
        assert(m1 == moving_step(from, to, look, source.entry, m0));
        let m2 = moving(from, to, look, source, first, 2);
        assert(m2 == moving_step(from, to, look, source.entry, m1));
        let m3 = moving(from, to, look, source, first, 3);
        assert(m3 == moving_step(from, to, look, source.entry, m2));
        let m4 = moving(from, to, look, source, first, 4);
        assert(m4 == moving_step(from, to, look, source.entry, m3));
        let m5 = moving(from, to, look, source, first, 5);
        assert(m5 == moving_step(from, to, look, source.entry, m4));
        let m6 = moving(from, to, look, source, first, 6);
        assert(m6 == moving_step(from, to, look, source.entry, m5));
    }
}

// ---------------------------------------------------------------------------
// Paths
// ---------------------------------------------------------------------------

/// A path is split before its last part: what is cut off has no slash in it, and
/// the two give the path back.
pub proof fn law_path_is_split_before_its_last_part(
    path: Seq<char>,
    parent: Seq<char>,
    leaf: Seq<char>,
)
    requires
        parent.len() > 0,
        leaf.len() > 0,
        !leaf.contains('/'),
    ensures
        parent_and_leaf(path) == Some((parent, leaf)) <==> trim(path) == parent.push('/') + leaf,
{
    let t = trim(path);
    if t == parent.push('/') + leaf {
        lemma_slash_before(parent, leaf);
        assert(t =~= parent + seq!['/'] + leaf);
        assert(t.take(parent.len() as int) =~= parent);
        assert(t.skip(parent.len() as int + 1) =~= leaf);
    }
    if parent_and_leaf(path) == Some((parent, leaf)) {
        lemma_slash_at(t);
        let i = last_index(t, '/')->0;
        assert(t =~= t.take(i).push('/') + t.skip(i + 1));
    }
}

proof fn lemma_slash_at(t: Seq<char>)
    ensures
        last_index(t, '/') matches Some(i) ==> 0 <= i < t.len() && t[i] == '/',
    decreases t.len(),
{
    if t.len() > 0 && t.last() != '/' {
        lemma_slash_at(t.drop_last());
    }
}

/// The default name of a file is the name that the device gives it, where that
/// is an ordinary one; the default name of a directory is the last part of its
/// path, whatever slashes end the path.
pub proof fn law_default_name_is_the_own_name(
    dir: Seq<char>,
    name: Seq<char>,
    slashes: Seq<char>,
    entry: EntryView,
)
    requires
        name.len() > 0,
        !name.contains('/'),
        forall|i: int| 0 <= i < slashes.len() ==> #[trigger] slashes[i] == '/',
    ensures
        !entry.is_dir && safe_component(entry.name) ==> default_name(dir.push('/') + name, entry)
            == Ok::<Seq<char>, Seq<char>>(entry.name),
        !entry.is_dir && !safe_component(entry.name) ==> default_name(
            dir.push('/') + name,
            entry,
        ) is Err,
        entry.is_dir ==> default_name(dir.push('/') + name + slashes, entry) == Ok::<
            Seq<char>,
            Seq<char>,
        >(name),
{
    let p = dir.push('/') + name;
    lemma_end_slashes(p, slashes);
    assert(p.last() == name.last());
    assert(name.contains(name.last()));
    lemma_strip_end(p, |c: char| c == '/');
    lemma_slash_before(dir, name);
    assert(p =~= dir + seq!['/'] + name);
    assert(p.skip(dir.len() as int + 1) =~= name);
}

proof fn lemma_end_slashes(p: Seq<char>, slashes: Seq<char>)
    requires
        forall|i: int| 0 <= i < slashes.len() ==> #[trigger] slashes[i] == '/',
    ensures
        no_end_slash(p + slashes) == no_end_slash(p),
    decreases slashes.len(),
{
    if slashes.len() == 0 {
        assert(p + slashes =~= p);
    } else {
        assert((p + slashes).last() == slashes[slashes.len() - 1]);
        assert((p + slashes).drop_last() =~= p + slashes.drop_last());
        lemma_end_slashes(p, slashes.drop_last());
    }
}

/// Only a directory that exists is accepted as the place for an object.
pub proof fn law_only_directories_hold_objects(dir: Seq<char>, is_dir: Option<bool>)
    ensures
        parent_problem(dir, is_dir) is None <==> is_dir == Some(true),
        is_dir == Some(false) ==> parent_problem(dir, is_dir) == Some(
            dir + " is not a directory"@,
        ),
{
}

// ---------------------------------------------------------------------------
// Reports
// ---------------------------------------------------------------------------

/// The report of a transfer counts files, directories and bytes; it has a second
/// line exactly when something was left out, and that line counts it.
pub proof fn law_report_counts_the_transfer(verb: Seq<char>, stats: TreeStats, secs: Seq<char>)
    ensures
        tree_report(verb, stats, secs)[0] == verb + " "@ + dec(stats.files as nat) + " file(s), "@
            + dec(stats.dirs as nat) + " dir(s), "@ + bytes_text(stats.bytes as nat) + " in "@
            + secs + "s"@,
        tree_report(verb, stats, secs).len() == if stats.skipped == 0 {
            1nat
        } else {
            2
        },
        stats.skipped != 0 ==> tree_report(verb, stats, secs)[1] == "warning: "@ + dec(
            stats.skipped as nat,
        )
            + " item(s) skipped (symlinks, special files, unsafe or non-representable names) — the result is incomplete"@,
{
}

/// The summary of a device has one line for each storage, at its end and in
/// their order: with the description, the free space before the capacity, the id,
/// and a word on storages that cannot be written to.
pub proof fn law_summary_tells_of_each_storage(s: DeviceSummary, i: int) -> (line: Seq<char>)
    requires
        0 <= i < s.storages@.len(),
    ensures
        line == info_text(s)[info_text(s).len() - s.storages@.len() + i],
        s.storages@[i].writable ==> line == "  "@ + s.storages@[i].description@ + " — "@
            + bytes_text(s.storages@[i].free as nat) + " free / "@ + bytes_text(
            s.storages@[i].capacity as nat,
        ) + ""@ + " (id="@ + dec(s.storages@[i].id as nat) + ")"@,
        !s.storages@[i].writable ==> line == "  "@ + s.storages@[i].description@ + " — "@
            + bytes_text(s.storages@[i].free as nat) + " free / "@ + bytes_text(
            s.storages@[i].capacity as nat,
        ) + ", read-only"@ + " (id="@ + dec(s.storages@[i].id as nat) + ")"@,
{
    storage_line(s.storages@[i])
}

/// The summary of a device shows what the device tells of itself, each value
/// under its label, and nothing of what it does not tell.
pub proof fn law_summary_shows_what_is_known(s: DeviceSummary)
    ensures
        info_text(s).len() == 2 + known(s.manufacturer) + known(s.product) + known(s.serial)
            + known(s.firmware) + known(s.speed) + s.storages@.len(),
        info_text(s)[0] == "Device:"@,
        s.manufacturer matches Some(v) ==> info_text(s)[1] == "  manufacturer : "@ + v@,
        s.product matches Some(v) ==> info_text(s)[1 + known(s.manufacturer)]
            == "  model        : "@ + v@,
        s.serial matches Some(v) ==> info_text(s)[1 + known(s.manufacturer) + known(s.product)]
            == "  serial       : "@ + v@,
        s.firmware matches Some(v) ==> info_text(s)[1 + known(s.manufacturer) + known(s.product)
            + known(s.serial)] == "  firmware     : "@ + v@,
        s.speed matches Some(v) ==> info_text(s)[1 + known(s.manufacturer) + known(s.product)
            + known(s.serial) + known(s.firmware)] == "  usb speed    : "@ + v@,
{
}

/// How many lines a value takes.
pub open spec fn known(value: Option<String>) -> int {
    if value is Some {
        1
    } else {
        0
    }
}

} // verus!
