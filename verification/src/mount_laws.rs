//! What the scripts for mounting say, and how their output is read.

use vstd::prelude::*;

use crate::mount::{
    candidates, export_text, first_marked, marked, mount_line, mount_lines, mount_ran, mount_text,
    mounted_text, reported_path, shell_word, shown, shows_mount, unmount_ran, unmount_text,
    widget_unmount_text, RunningView, MOUNTED_MARKER,
};
use crate::posix::{is_plain, law_path_has_its_parent_and_name};
use crate::text::{
    dec, digit_char, find_from, lemma_split_append, lemma_split_pieces, lemma_trim_id, occurs_at,
    split, trim, white_space,
};

verus! {

/// The places for a mount begin with the requested one; each further place is a
/// sibling of it, with its name and a number of its own.
pub proof fn law_places_lie_beside_the_mount_point(dir: Seq<char>, name: Seq<char>, i: int)
    requires
        1 <= i < 9,
        is_plain(dir, name),
    ensures
        candidates(dir.push('/') + name).len() == 9,
        candidates(dir.push('/') + name)[0] == dir.push('/') + name,
        candidates(dir.push('/') + name)[i] == dir.push('/') + name + seq![
            '-',
            digit_char((i + 1) as nat),
        ],
{
    reveal_strlit("-");
    law_path_has_its_parent_and_name(dir, name);
    assert(dec((i + 1) as nat) =~= seq![digit_char((i + 1) as nat)]);
    assert(dir.push('/') + (name + "-"@ + dec((i + 1) as nat)) =~= dir.push('/') + name + seq![
        '-',
        digit_char((i + 1) as nat),
    ]);
}

/// The mount script makes each place, mounts the export from the local port at
/// it, and tells of it; and it does so in the order of the places. It fails when
/// no place would do.
pub proof fn law_mount_script_tries_each_place(
    port: u16,
    mount_point: Seq<char>,
    export: Seq<char>,
    i: int,
) -> (r: (Seq<char>, Seq<char>))
    requires
        0 <= i < 9,
    ensures
        ({
            let place = shell_word(candidates(mount_point)[i]);
            mount_text(port, mount_point, export) == r.0 + (("mkdir -p "@ + place
                + " && /sbin/mount_nfs -o soft,nolocks,vers=3,tcp,rsize=1048576,wsize=1048576,retry=1,retrans=2,timeo=50,port="@
                + dec(port as nat) + ",mountport="@ + dec(port as nat) + " "@ + shell_word(
                "127.0.0.1:"@ + export_text(export),
            ) + " "@ + place + " && { printf 'PEREPRAVA_MOUNTED=%s\\n' "@ + place
                + "; exit 0; }\n"@)) + r.1
        }),
        i == 0 ==> r.0.len() == 0,
        i == 8 ==> r.1 == "exit 1\n"@,
{
    let source = shell_word("127.0.0.1:"@ + export_text(export));
    let places = candidates(mount_point);
    let rest = lemma_mount_lines(port, source, places, 9, i);
    let before = mount_lines(port, source, places, i as nat);
    let line = mount_line(port, source, shell_word(places[i]));
    assert((before + line + rest) + "exit 1\n"@ =~= before + line + (rest + "exit 1\n"@));
    assert(i == 8 ==> rest + "exit 1\n"@ =~= "exit 1\n"@);
    (before, rest + "exit 1\n"@)
}

proof fn lemma_mount_lines(
    port: u16,
    source: Seq<char>,
    places: Seq<Seq<char>>,
    n: nat,
    i: int,
) -> (rest: Seq<char>)
    requires
        0 <= i < n,
    ensures
        mount_lines(port, source, places, n) == mount_lines(port, source, places, i as nat)
            + mount_line(port, source, shell_word(places[i])) + rest,
        i == n - 1 ==> rest.len() == 0,
    decreases n,
{
    if i == n - 1 {
        let e = Seq::<char>::empty();
        let all = mount_lines(port, source, places, n);
        assert(all + e =~= all);
        e
    } else {
        let r = lemma_mount_lines(port, source, places, (n - 1) as nat, i);
        let last = mount_line(port, source, shell_word(places[n - 1]));
        let a = mount_lines(port, source, places, i as nat);
        let b = mount_line(port, source, shell_word(places[i]));
        assert((a + b + r) + last =~= a + b + (r + last));
        r + last
    }
}

/// The script that detaches a mount tries it gently first, and then by force; so
/// does that of the widget, which has a second tool to force it with.
pub proof fn law_unmount_scripts_name_the_mount(mount_point: Seq<char>)
    ensures
        unmount_text(mount_point) == "/sbin/umount "@ + shell_word(mount_point)
            + " 2>/dev/null || /sbin/umount -f "@ + shell_word(mount_point),
        widget_unmount_text(mount_point) == unmount_text(mount_point)
            + " 2>/dev/null || /usr/sbin/diskutil unmount force "@ + shell_word(mount_point),
{
    assert(widget_unmount_text(mount_point) =~= unmount_text(mount_point)
        + " 2>/dev/null || /usr/sbin/diskutil unmount force "@ + shell_word(mount_point));
}

/// What the mount script tells is read back: a line with the marker gives the
/// path behind it, whatever lines without a marker come before.
pub proof fn law_reported_path_is_read(noise: Seq<char>, path: Seq<char>, after: Seq<char>)
    requires
        path.len() > 0,
        !white_space(path.first()),
        !white_space(path.last()),
        !path.contains('\n'),
        forall|i: int|
            0 <= i < split(noise, '\n').len() ==> !occurs_at(
                trim(#[trigger] split(noise, '\n')[i]),
                MOUNTED_MARKER@,
                0,
            ),
    ensures
        reported_path(MOUNTED_MARKER@ + path + "\n"@ + after) == Some(path),
        reported_path(noise + "\n"@ + MOUNTED_MARKER@ + path + "\n"@ + after) == Some(path),
        reported_path(noise) is None,
{
    reveal_strlit("\n");
    reveal_strlit("PEREPRAVA_MOUNTED=");
    let line = MOUNTED_MARKER@ + path;
    assert(!line.contains('\n')) by {
        if line.contains('\n') {
            let k = choose|k: int| 0 <= k < line.len() && line[k] == '\n';
            if k >= MOUNTED_MARKER@.len() {
                assert(path[k - MOUNTED_MARKER@.len()] == '\n');
            }
        }
    }
    lemma_trim_id(line);
    lemma_trim_id(path);
    assert(line.skip(MOUNTED_MARKER@.len() as int) =~= path);
    assert(line.subrange(0, MOUNTED_MARKER@.len() as int) =~= MOUNTED_MARKER@);
    assert(marked(line) == Some(path));
    lemma_split_pieces(noise, '\n');
    lemma_split_pieces(after, '\n');
    let one = seq![line];
    lemma_split_at(line, after);
    assert(MOUNTED_MARKER@ + path + "\n"@ + after =~= line.push('\n') + after);
    let lines = split(line, '\n') + split(after, '\n');
    let e = Seq::<char>::empty();
    lemma_split_append(e, line, '\n');
    assert(e + line =~= line);
    assert(split(line, '\n') =~= one);
    assert(lines.first() == line);
    lemma_split_at(noise, line.push('\n') + after);
    assert(noise + "\n"@ + MOUNTED_MARKER@ + path + "\n"@ + after =~= noise.push('\n') + (
    line.push('\n') + after));
    lemma_first_marked(split(noise, '\n'), lines);
    lemma_first_marked(split(noise, '\n'), Seq::empty());
    assert(split(noise, '\n') + Seq::<Seq<char>>::empty() =~= split(noise, '\n'));
}

/// A text with a line end in it is split there.
proof fn lemma_split_at(a: Seq<char>, b: Seq<char>)
    ensures
        split(a.push('\n') + b, '\n') == split(a, '\n') + split(b, '\n'),
    decreases b.len(),
{
    lemma_split_pieces(a, '\n');
    lemma_split_pieces(b, '\n');
    let s = a.push('\n') + b;
    if b.len() == 0 {
        assert(s =~= a.push('\n'));
        assert(s.drop_last() =~= a);
        assert(split(s, '\n') =~= split(a, '\n') + split(b, '\n'));
    } else {
        let c = b.drop_last();
        lemma_split_pieces(c, '\n');
        assert(s.drop_last() =~= a.push('\n') + c);
        lemma_split_at(a, c);
        let p = split(c, '\n');
        assert((split(a, '\n') + p).drop_last() =~= split(a, '\n') + p.drop_last());
        assert(split(s, '\n') =~= split(a, '\n') + split(b, '\n'));
    }
}

proof fn lemma_first_marked(a: Seq<Seq<char>>, b: Seq<Seq<char>>)
    requires
        forall|i: int|
            0 <= i < a.len() ==> !occurs_at(trim(#[trigger] a[i]), MOUNTED_MARKER@, 0),
    ensures
        first_marked(a + b) == first_marked(b),
    decreases a.len(),
{
    if a.len() == 0 {
        assert(a + b =~= b);
    } else {
        assert((a + b).first() == a[0]);
        assert((a + b).drop_first() =~= a.drop_first() + b);
        lemma_first_marked(a.drop_first(), b);
    }
}

/// A place counts as mounted exactly when the output of `mount` has it between
/// the words that `mount` puts around it.
pub proof fn law_mount_is_seen_where_it_stands(output: Seq<char>, path: Seq<char>)
    ensures
        shows_mount(output, path) <==> exists|i: int|
            #[trigger] occurs_at(output, " on "@ + path + " ("@, i),
{
    lemma_find_is_exact(output, " on "@ + path + " ("@, 0);
}

proof fn lemma_find_is_exact(s: Seq<char>, pat: Seq<char>, from: int)
    requires
        0 <= from,
    ensures
        find_from(s, pat, from) is Some <==> exists|i: int|
            from <= i && #[trigger] occurs_at(s, pat, i),
    decreases s.len() - from,
{
    if from + pat.len() <= s.len() && !occurs_at(s, pat, from) && from < s.len() {
        lemma_find_is_exact(s, pat, from + 1);
    }
}

/// The mounts that are found are the places that are shown, all of them, in the
/// order of the places.
pub proof fn law_shown_places_are_found(output: Seq<char>, places: Seq<Seq<char>>, n: nat, i: int)
    requires
        0 <= i < n <= places.len(),
    ensures
        shown(output, places, n).contains(places[i]) || !shows_mount(output, places[i]),
        forall|k: int|
            0 <= k < shown(output, places, n).len() ==> shows_mount(
                output,
                #[trigger] shown(output, places, n)[k],
            ) && places.contains(shown(output, places, n)[k]),
    decreases n,
{
    let before = shown(output, places, (n - 1) as nat);
    if n >= 2 {
        let j = if i < n - 1 {
            i
        } else {
            0
        };
        law_shown_places_are_found(output, places, (n - 1) as nat, j);
        if i < n - 1 && before.contains(places[i]) {
            let k = choose|k: int| 0 <= k < before.len() && before[k] == places[i];
            assert(shown(output, places, n)[k] == places[i]);
        }
    } else {
        assert(before =~= Seq::empty());
    }
    if shows_mount(output, places[n - 1]) {
        let all = before.push(places[n - 1]);
        assert(all[before.len() as int] == places[n - 1]);
    }
}

/// A mount ends where the script says it is; a failure is told with the mount
/// point it was about. A mount is detached once a script has run through.
pub proof fn law_runs_end_with_their_outcome(
    mount_point: Seq<char>,
    out: Seq<char>,
    path: Seq<char>,
    error: Seq<char>,
)
    requires
        reported_path(out) == Some(path),
    ensures
        mount_ran(mount_point, RunningView::Plain, Ok(out)) == RunningView::Done(path),
        mount_ran(mount_point, RunningView::Admin, Ok(out)) == RunningView::Done(path),
        mount_ran(mount_point, RunningView::Admin, Err(error)) == (RunningView::Failed {
            context: "mounting near "@ + mount_point,
            error,
        }),
        unmount_ran(mount_point, RunningView::Plain, Ok(out)) == RunningView::Done(mount_point),
        unmount_ran(mount_point, RunningView::Admin, Ok(out)) == RunningView::Done(mount_point),
        unmount_ran(mount_point, RunningView::Admin, Err(error)) == (RunningView::Failed {
            context: "unmounting "@ + mount_point,
            error,
        }),
{
}

/// What is said of a mounted volume names the place, and says whether it can be
/// written to.
pub proof fn law_mounted_volume_is_described(used: Seq<char>)
    ensures
        mounted_text(used, true)[0] == "mounted "@ + used + " ("@ + "read-only"@
            + ") — press Ctrl-C to unmount"@,
        mounted_text(used, false)[0] == "mounted "@ + used + " ("@ + "writable"@
            + ") — press Ctrl-C to unmount"@,
        mounted_text(used, true).len() == 2,
        mounted_text(used, false).len() == 2,
{
}

} // verus!
