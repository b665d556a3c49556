//! Mounting the volume with the tools of macOS: quoting, the scripts that run
//! with administrator rights, and the places where a mount may be.

use vstd::prelude::*;

use crate::error::{Error, ErrorView, Result};
use crate::posix::{
    child_of, file_name, is_absolute, is_root, is_root_path, join_path, name_of, parent, parent_of,
};
use crate::text::{
    chars_at, chars_of, dec, drop_end_slashes, find, find_chars, no_end_slash, occurs_at, owned,
    pieces, push_dec, replace, replace_char, split, split_chars, string_of, sub_chars, texts, trim,
    trim_chars,
};

verus! {

/// What the mount script prints before the path that it mounted.
pub const MOUNTED_MARKER: &'static str = "PEREPRAVA_MOUNTED=";

/// Whether the NFS listener refuses clients with an unprivileged source port.
/// The NFS client of macOS connects from such a port, so it must not.
pub const REQUIRE_PRIVILEGED_SOURCE_PORT: bool = false;

// ---------------------------------------------------------------------------
// Quoting
// ---------------------------------------------------------------------------

/// What stands for a single quote within single quotes.
pub open spec fn quoted_quote() -> Seq<char> {
    seq!['\'', '\\', '\'', '\'']
}

/// `s` as one word of a POSIX shell.
pub open spec fn shell_word(s: Seq<char>) -> Seq<char> {
    seq!['\''] + replace(s, '\'', quoted_quote()) + seq!['\'']
}

/// Quotes `s` for a POSIX shell.
pub fn sh_quote(s: &str) -> (r: String)
    ensures
        r@ == shell_word(s@),
{
    proof {
        reveal_strlit("'\\''");
    }
    let mut out = String::new();
    out.push('\'');
    let inner = replace_char(s, '\'', "'\\''");
    assert("'\\''"@ =~= quoted_quote());
    out.push_str(inner.as_str());
    out.push('\'');
    assert(out@ =~= shell_word(s@));
    out
}

/// `script` within the double quotes of AppleScript.
pub open spec fn apple_text(script: Seq<char>) -> Seq<char> {
    replace(replace(script, '\\', seq!['\\', '\\']), '"', seq!['\\', '"'])
}

/// Escapes a script for the double quotes of AppleScript.
pub fn osascript_escape(script: &str) -> (r: String)
    ensures
        r@ == apple_text(script@),
{
    proof {
        reveal_strlit("\\\\");
        reveal_strlit("\\\"");
        assert("\\\\"@ =~= seq!['\\', '\\']);
        assert("\\\""@ =~= seq!['\\', '"']);
    }
    let doubled = replace_char(script, '\\', "\\\\");
    replace_char(doubled.as_str(), '"', "\\\"")
}

/// The AppleScript that runs `script` with administrator rights.
pub open spec fn admin_text(script: Seq<char>) -> Seq<char> {
    "do shell script \""@ + apple_text(script) + "\" with administrator privileges"@
}

/// The AppleScript that runs `script` with administrator rights.
pub fn admin_script(script: &str) -> (r: String)
    ensures
        r@ == admin_text(script@),
{
    let mut s = owned("do shell script \"");
    s.push_str(osascript_escape(script).as_str());
    s.push_str("\" with administrator privileges");
    s
}

// ---------------------------------------------------------------------------
// Mount points
// ---------------------------------------------------------------------------

/// The `n`th place beside a mount point.
pub open spec fn numbered(mount_point: Seq<char>, n: nat) -> Seq<char> {
    let name = match name_of(mount_point) {
        Some(x) => x,
        None => "pereprava"@,
    };
    let dir = match parent_of(mount_point) {
        Some(d) => d,
        None => "/"@,
    };
    child_of(dir, name + "-"@ + dec(n))
}

/// The places for a mount, in the order in which they are tried: the requested
/// one, and then the numbers two to nine beside it.
pub open spec fn candidates(mount_point: Seq<char>) -> Seq<Seq<char>> {
    Seq::new(
        9,
        |i: int|
            if i == 0 {
                mount_point
            } else {
                numbered(mount_point, (i + 1) as nat)
            },
    )
}

/// The places for a mount.
#[must_use]
pub fn mount_candidates(mount_point: &str) -> (r: Vec<String>)
    ensures
        texts(r@) == candidates(mount_point@),
{
    let name = match file_name(mount_point) {
        Some(n) => n,
        None => owned("pereprava"),
    };
    let dir = match parent(mount_point) {
        Some(d) => d,
        None => owned("/"),
    };
    let mut out: Vec<String> = Vec::new();
    out.push(owned(mount_point));
    let mut n: u64 = 2;
    while n <= 9
        invariant
            2 <= n <= 10,
            out.len() == n - 1,
            name@ == (match name_of(mount_point@) {
                Some(x) => x,
                None => "pereprava"@,
            }),
            dir@ == (match parent_of(mount_point@) {
                Some(d) => d,
                None => "/"@,
            }),
            forall|i: int| 0 <= i < out.len() ==> (#[trigger] out@[i])@ == candidates(
                mount_point@,
            )[i],
        decreases 10 - n,
    {
        let mut leaf = name.clone();
        leaf.push_str("-");
        push_dec(&mut leaf, n);
        out.push(join_path(dir.as_str(), leaf.as_str()));
        n = n + 1;
    }
    assert(texts(out@) =~= candidates(mount_point@));
    out
}

/// The export as `mount_nfs` wants it: with a slash at its start, and none at
/// its end unless it is the root.
pub open spec fn export_text(export: Seq<char>) -> Seq<char> {
    let body = no_end_slash(export);
    if body.len() == 0 {
        seq!['/']
    } else if body[0] == '/' {
        body
    } else {
        seq!['/'] + body
    }
}

fn normal_export(export: &str) -> (r: String)
    ensures
        r@ == export_text(export@),
{
    let c = drop_end_slashes(&chars_of(export));
    let body = string_of(&c);
    if c.len() > 0 && c[0] == '/' {
        return body;
    }
    let mut s = String::new();
    s.push('/');
    s.push_str(body.as_str());
    assert(s@ =~= seq!['/'] + body@);
    assert(c@.len() == 0 ==> s@ =~= seq!['/']);
    s
}

proof fn lemma_no_end_slash(s: Seq<char>)
    ensures
        no_end_slash(s).len() > 0 ==> no_end_slash(s).last() != '/',
    decreases s.len(),
{
    if s.len() > 0 && s.last() == '/' {
        lemma_no_end_slash(s.drop_last());
    }
}

/// The export that is handed to `mount_nfs` starts with a slash, whatever it
/// was given as, and ends with one only where it is the root.
pub proof fn law_export_starts_with_a_slash(export: Seq<char>)
    ensures
        export_text(export).len() > 0,
        export_text(export)[0] == '/',
        export_text(export).last() == '/' ==> export_text(export) == seq!['/'],
{
    lemma_no_end_slash(export);
}

// ---------------------------------------------------------------------------
// Scripts
// ---------------------------------------------------------------------------

/// The line of the mount script for the mount point `mp`.
pub open spec fn mount_line(port: u16, source: Seq<char>, mp: Seq<char>) -> Seq<char> {
    "mkdir -p "@ + mp
        + " && /sbin/mount_nfs -o soft,nolocks,vers=3,tcp,rsize=1048576,wsize=1048576,retry=1,retrans=2,timeo=50,port="@
        + dec(port as nat) + ",mountport="@ + dec(port as nat) + " "@ + source + " "@ + mp
        + " && { printf 'PEREPRAVA_MOUNTED=%s\\n' "@ + mp + "; exit 0; }\n"@
}

/// The first `n` lines of the mount script.
pub open spec fn mount_lines(port: u16, source: Seq<char>, places: Seq<Seq<char>>, n: nat) -> Seq<
    char,
>
    decreases n,
{
    if n == 0 {
        Seq::empty()
    } else {
        mount_lines(port, source, places, (n - 1) as nat) + mount_line(
            port,
            source,
            shell_word(places[n - 1]),
        )
    }
}

/// The script that mounts at the first place that works.
pub open spec fn mount_text(port: u16, mount_point: Seq<char>, export: Seq<char>) -> Seq<char> {
    mount_lines(
        port,
        shell_word("127.0.0.1:"@ + export_text(export)),
        candidates(mount_point),
        9,
    ) + "exit 1\n"@
}

/// The script that mounts at the first place that works. The root and relative
/// paths are refused.
pub fn mount_script(port: u16, mount_point: &str, export: &str) -> (r: Result<String>)
    ensures
        match r {
            Ok(s) => !is_root_path(mount_point@) && mount_point@.len() > 0 && mount_point@[0] == '/'
                && s@ == mount_text(port, mount_point@, export@),
            Err(e) => if is_root_path(mount_point@) {
                e@ == ErrorView::InvalidArgument("refusing to use `/` as a mount point"@)
            } else {
                (mount_point@.len() == 0 || mount_point@[0] != '/') && e@
                    == ErrorView::InvalidArgument(
                    "mount point must be an absolute path: "@ + mount_point@,
                )
            },
        },
{
    if is_root(mount_point) {
        return Err(Error::InvalidArgument(owned("refusing to use `/` as a mount point")));
    }
    if !is_absolute(mount_point) {
        let mut s = owned("mount point must be an absolute path: ");
        s.push_str(mount_point);
        return Err(Error::InvalidArgument(s));
    }
    let mut from = owned("127.0.0.1:");
    from.push_str(normal_export(export).as_str());
    let source = sh_quote(from.as_str());
    let places = mount_candidates(mount_point);
    let ghost all = candidates(mount_point@);
    let mut s = String::new();
    let mut i: usize = 0;
    assert(texts(places@).len() == 9);
    assert(s@ =~= Seq::empty());
    while i < places.len()
        invariant
            i <= places.len(),
            places.len() == 9,
            texts(places@) == all,
            s@ == mount_lines(port, source@, all, i as nat),
        decreases places.len() - i,
    {
        assert(all[i as int] == places@[i as int]@);
        let mp = sh_quote(places[i].as_str());
        let ghost before = s@;
        s.push_str("mkdir -p ");
        s.push_str(mp.as_str());
        s.push_str(
            " && /sbin/mount_nfs -o soft,nolocks,vers=3,tcp,rsize=1048576,wsize=1048576,retry=1,retrans=2,timeo=50,port=",
        );
        push_dec(&mut s, port as u64);
        s.push_str(",mountport=");
        push_dec(&mut s, port as u64);
        s.push_str(" ");
        s.push_str(source.as_str());
        s.push_str(" ");
        s.push_str(mp.as_str());
        s.push_str(" && { printf 'PEREPRAVA_MOUNTED=%s\\n' ");
        s.push_str(mp.as_str());
        s.push_str("; exit 0; }\n");
        assert(s@ =~= before + mount_line(port, source@, mp@));
        i = i + 1;
    }
    s.push_str("exit 1\n");
    Ok(s)
}

/// The script that detaches a mount, by force if need be.
pub open spec fn unmount_text(mount_point: Seq<char>) -> Seq<char> {
    "/sbin/umount "@ + shell_word(mount_point) + " 2>/dev/null || /sbin/umount -f "@ + shell_word(
        mount_point,
    )
}

/// The script that detaches a mount.
pub fn unmount_script(mount_point: &str) -> (r: String)
    ensures
        r@ == unmount_text(mount_point@),
{
    let mp = sh_quote(mount_point);
    let mut s = owned("/sbin/umount ");
    s.push_str(mp.as_str());
    s.push_str(" 2>/dev/null || /sbin/umount -f ");
    s.push_str(mp.as_str());
    s
}

/// The script with which the status widget detaches the volume.
pub open spec fn widget_unmount_text(path: Seq<char>) -> Seq<char> {
    "/sbin/umount "@ + shell_word(path) + " 2>/dev/null || /sbin/umount -f "@ + shell_word(path)
        + " 2>/dev/null || /usr/sbin/diskutil unmount force "@ + shell_word(path)
}

/// The script with which the status widget detaches the volume; none when no
/// volume is mounted.
pub fn widget_unmount_script(path: &str) -> (r: Option<String>)
    ensures
        match r {
            Some(s) => path@.len() > 0 && s@ == widget_unmount_text(path@),
            None => path@.len() == 0,
        },
{
    let c = chars_of(path);
    if c.len() == 0 {
        return None;
    }
    let q = sh_quote(path);
    let mut s = owned("/sbin/umount ");
    s.push_str(q.as_str());
    s.push_str(" 2>/dev/null || /sbin/umount -f ");
    s.push_str(q.as_str());
    s.push_str(" 2>/dev/null || /usr/sbin/diskutil unmount force ");
    s.push_str(q.as_str());
    Some(s)
}

// ---------------------------------------------------------------------------
// Reading the output of the tools
// ---------------------------------------------------------------------------

/// The path behind the marker in a line, if the marker is there.
pub open spec fn marked(line: Seq<char>) -> Option<Seq<char>> {
    let t = trim(line);
    if occurs_at(t, MOUNTED_MARKER@, 0) {
        Some(trim(t.skip(MOUNTED_MARKER@.len() as int)))
    } else {
        None
    }
}

/// The path in the first line with the marker.
pub open spec fn first_marked(lines: Seq<Seq<char>>) -> Option<Seq<char>>
    decreases lines.len(),
{
    if lines.len() == 0 {
        None
    } else {
        match marked(lines.first()) {
            Some(p) => Some(p),
            None => first_marked(lines.drop_first()),
        }
    }
}

/// The path that the mount script reported, unless it is empty.
pub open spec fn reported_path(stdout: Seq<char>) -> Option<Seq<char>> {
    match first_marked(split(stdout, '\n')) {
        Some(p) => if p.len() == 0 {
            None
        } else {
            Some(p)
        },
        None => None,
    }
}

/// Finds the mounted path in the output of the mount script.
pub fn mounted_path(stdout: &str) -> (r: Option<String>)
    ensures
        match r {
            Some(p) => reported_path(stdout@) == Some(p@),
            None => reported_path(stdout@) is None,
        },
{
    let c = chars_of(stdout);
    let lines = split_chars(&c, '\n');
    let ghost all = split(stdout@, '\n');
    let marker = chars_of(MOUNTED_MARKER);
    let mut i: usize = 0;
    assert(all.skip(0) =~= all);
    while i < lines.len()
        invariant
            i <= lines.len(),
            pieces(lines@) == all,
            all == split(stdout@, '\n'),
            marker@ == MOUNTED_MARKER@,
            first_marked(all) == first_marked(all.skip(i as int)),
        decreases lines.len() - i,
    {
        assert(lines@[i as int]@ == all[i as int]);
        assert(all.skip(i as int).drop_first() =~= all.skip(i + 1));
        let t = trim_chars(&lines[i]);
        if chars_at(&t, &marker, 0) {
            let rest = sub_chars(&t, marker.len(), t.len());
            assert(rest@ =~= t@.skip(marker@.len() as int));
            let p = trim_chars(&rest);
            if p.len() == 0 {
                return None;
            }
            return Some(string_of(&p));
        }
        i = i + 1;
    }
    assert(all.skip(i as int) =~= Seq::empty());
    None
}

/// What a mount reports once its script has succeeded.
pub fn mounted_at(stdout: &str) -> (r: std::result::Result<String, String>)
    ensures
        match r {
            Ok(p) => reported_path(stdout@) == Some(p@),
            Err(e) => reported_path(stdout@) is None && e@ == "mounted but "@ + MOUNTED_MARKER@
                + " was not reported"@,
        },
{
    match mounted_path(stdout) {
        Some(p) => Ok(p),
        None => {
            let mut s = owned("mounted but ");
            s.push_str(MOUNTED_MARKER);
            s.push_str(" was not reported");
            Err(s)
        },
    }
}

/// The error of a tool that ran and failed.
pub fn exit_error(prog: &str, status: &str, stderr: &str) -> (r: String)
    ensures
        r@ == prog@ + " exited "@ + status@ + ": "@ + trim(stderr@),
{
    let mut s = owned(prog);
    s.push_str(" exited ");
    s.push_str(status);
    s.push_str(": ");
    s.push_str(string_of(&trim_chars(&chars_of(stderr))).as_str());
    s
}

/// True when the output of `mount` shows a mount at `path`.
pub open spec fn shows_mount(output: Seq<char>, path: Seq<char>) -> bool {
    find(output, " on "@ + path + " ("@) is Some
}

/// The places of a mount point that `output` shows, of the first `n`.
pub open spec fn shown(output: Seq<char>, places: Seq<Seq<char>>, n: nat) -> Seq<Seq<char>>
    decreases n,
{
    if n == 0 {
        Seq::empty()
    } else {
        let before = shown(output, places, (n - 1) as nat);
        if shows_mount(output, places[n - 1]) {
            before.push(places[n - 1])
        } else {
            before
        }
    }
}

/// The places of a mount point where the output of `mount` shows a mount.
pub fn active_mounts(output: &str, base: &str) -> (r: Vec<String>)
    ensures
        texts(r@) == shown(output@, candidates(base@), 9),
{
    let text = chars_of(output);
    let places = mount_candidates(base);
    let ghost all = candidates(base@);
    assert(texts(places@).len() == 9);
    let mut out: Vec<String> = Vec::new();
    let mut i: usize = 0;
    assert(texts(out@) =~= Seq::empty());
    while i < places.len()
        invariant
            i <= places.len(),
            places.len() == 9,
            texts(places@) == all,
            text@ == output@,
            texts(out@) == shown(output@, all, i as nat),
        decreases places.len() - i,
    {
        assert(all[i as int] == places@[i as int]@);
        let mut pat = owned(" on ");
        pat.push_str(places[i].as_str());
        pat.push_str(" (");
        let p = chars_of(pat.as_str());
        if find_chars(&text, &p, 0).is_some() {
            let ghost before = texts(out@);
            let s = places[i].clone();
            assert(texts(out@.push(s)) =~= before.push(s@));
            out.push(s);
        }
        i = i + 1;
    }
    out
}

/// True when `path` is a mount point that answers: its device is known and is
/// not the device of its parent.
pub fn is_alive_mount(device: Option<u64>, parent_device: Option<u64>) -> (r: bool)
    ensures
        r == (device is Some && parent_device is Some && device != parent_device),
{
    match (device, parent_device) {
        (Some(a), Some(b)) => a != b,
        _ => false,
    }
}

// ---------------------------------------------------------------------------
// Serving
// ---------------------------------------------------------------------------

/// What follows once the server is up.
#[derive(Debug)]
pub enum Serving {
    /// Say so, and wait for the end.
    Wait(String),
    /// Mount the volume.
    Mount,
}

/// What follows once the server is up on `port`.
pub fn serving(serve_only: bool, port: u16) -> (r: Serving)
    ensures
        if serve_only {
            r matches Serving::Wait(t) && t@ == "serving NFS on 127.0.0.1:"@ + dec(port as nat)
                + " (no mount); Ctrl-C to stop"@
        } else {
            r is Mount
        },
{
    if serve_only {
        let mut s = owned("serving NFS on 127.0.0.1:");
        push_dec(&mut s, port as u64);
        s.push_str(" (no mount); Ctrl-C to stop");
        Serving::Wait(s)
    } else {
        Serving::Mount
    }
}

/// What is said of a volume that was mounted.
pub open spec fn mounted_text(used: Seq<char>, read_only: bool) -> Seq<Seq<char>> {
    seq![
        "mounted "@ + used + " ("@ + (if read_only {
            "read-only"@
        } else {
            "writable"@
        }) + ") — press Ctrl-C to unmount"@,
        "the volume should now appear in Finder"@,
    ]
}

/// What is said of a volume that was mounted.
pub fn mounted_lines(used: &str, read_only: bool) -> (r: Vec<String>)
    ensures
        texts(r@) == mounted_text(used@, read_only),
{
    let mut s = owned("mounted ");
    s.push_str(used);
    s.push_str(" (");
    if read_only {
        s.push_str("read-only");
    } else {
        s.push_str("writable");
    }
    s.push_str(") — press Ctrl-C to unmount");
    let mut v: Vec<String> = Vec::new();
    v.push(s);
    v.push(owned("the volume should now appear in Finder"));
    assert(texts(v@) =~= mounted_text(used@, read_only));
    v
}

/// What is said of a volume that could not be unmounted.
pub fn unmount_warning(error: &str, used: &str) -> (r: String)
    ensures
        r@ == "warning: unmount failed ("@ + error@ + "); run `sudo umount -f "@ + used@
            + "` manually"@,
{
    let mut s = owned("warning: unmount failed (");
    s.push_str(error);
    s.push_str("); run `sudo umount -f ");
    s.push_str(used);
    s.push_str("` manually");
    s
}

/// What follows an attempt to take the port that failed.
#[derive(Debug)]
pub enum Bind {
    /// Another instance holds the port: say so, and try again later.
    WarnAndWait(String),
    /// Try again later.
    Wait,
    /// Give up: this is the context of the error.
    Fail(String),
}

/// What follows an attempt to take the port that failed. An instance that holds
/// the port is waited for, and is spoken of once.
pub fn bind_failed(port: u16, in_use: bool, warned: bool) -> (r: Bind)
    ensures
        if !in_use {
            r matches Bind::Fail(t) && t@ == "binding NFS server on 127.0.0.1:"@ + dec(port as nat)
        } else if warned {
            r is Wait
        } else {
            r matches Bind::WarnAndWait(t) && t@ == "watch: port "@ + dec(port as nat)
                + " is already served by another pereprava instance; waiting for it to exit"@
        },
{
    if !in_use {
        let mut s = owned("binding NFS server on 127.0.0.1:");
        push_dec(&mut s, port as u64);
        Bind::Fail(s)
    } else if warned {
        Bind::Wait
    } else {
        let mut s = owned("watch: port ");
        push_dec(&mut s, port as u64);
        s.push_str(" is already served by another pereprava instance; waiting for it to exit");
        Bind::WarnAndWait(s)
    }
}

// ---------------------------------------------------------------------------
// Running a script
// ---------------------------------------------------------------------------

/// A script that is run plainly first, and by the administrator where that does
/// not do.
#[derive(Debug)]
pub enum Running {
    /// Run it with the shell.
    Plain,
    /// Run it by the administrator.
    Admin,
    /// It has done its work at this place.
    Done(String),
    /// It could not be run: the error, and what was attempted.
    Failed {
        /// What was attempted.
        context: String,
        /// The error.
        error: String,
    },
    /// It ran, and did not tell the place: this is said of it.
    Silent(String),
}

/// The view of a [`Running`].
#[allow(inconsistent_fields)]
pub enum RunningView {
    Plain,
    Admin,
    Done(Seq<char>),
    Failed { context: Seq<char>, error: Seq<char> },
    Silent(Seq<char>),
}

impl View for Running {
    type V = RunningView;

    open spec fn view(&self) -> RunningView {
        match self {
            Running::Plain => RunningView::Plain,
            Running::Admin => RunningView::Admin,
            Running::Done(p) => RunningView::Done(p@),
            Running::Failed { context, error } => RunningView::Failed {
                context: context@,
                error: error@,
            },
            Running::Silent(t) => RunningView::Silent(t@),
        }
    }
}

/// What a script wrote, or the error, as values.
pub open spec fn output(r: std::result::Result<String, String>) -> std::result::Result<
    Seq<char>,
    Seq<char>,
> {
    match r {
        Ok(t) => Ok(t@),
        Err(e) => Err(e@),
    }
}

/// What follows a run of the mount script for `mount_point`. The administrator
/// is asked unless the plain run has told where it mounted.
pub open spec fn mount_ran(
    mount_point: Seq<char>,
    at: RunningView,
    r: std::result::Result<Seq<char>, Seq<char>>,
) -> RunningView {
    match at {
        RunningView::Plain => match r {
            Ok(out) => match reported_path(out) {
                Some(p) => RunningView::Done(p),
                None => RunningView::Admin,
            },
            Err(_) => RunningView::Admin,
        },
        RunningView::Admin => match r {
            Ok(out) => match reported_path(out) {
                Some(p) => RunningView::Done(p),
                None => RunningView::Silent(
                    "mounted but "@ + MOUNTED_MARKER@ + " was not reported"@,
                ),
            },
            Err(error) => RunningView::Failed {
                context: "mounting near "@ + mount_point,
                error,
            },
        },
        _ => at,
    }
}

/// What follows a run of the mount script for `mount_point`.
pub fn mount_next(
    mount_point: &str,
    at: Running,
    r: std::result::Result<String, String>,
) -> (next: Running)
    ensures
        next@ == mount_ran(mount_point@, at@, output(r)),
{
    match at {
        Running::Plain => match r {
            Ok(out) => match mounted_path(out.as_str()) {
                Some(p) => Running::Done(p),
                None => Running::Admin,
            },
            Err(_) => Running::Admin,
        },
        Running::Admin => match r {
            Ok(out) => match mounted_at(out.as_str()) {
                Ok(p) => Running::Done(p),
                Err(t) => Running::Silent(t),
            },
            Err(error) => {
                let mut context = owned("mounting near ");
                context.push_str(mount_point);
                Running::Failed { context, error }
            },
        },
        _ => at,
    }
}

/// What follows a run of the unmount script for `mount_point`. The
/// administrator is asked only where the plain run fails.
pub open spec fn unmount_ran(
    mount_point: Seq<char>,
    at: RunningView,
    r: std::result::Result<Seq<char>, Seq<char>>,
) -> RunningView {
    match at {
        RunningView::Plain => match r {
            Ok(_) => RunningView::Done(mount_point),
            Err(_) => RunningView::Admin,
        },
        RunningView::Admin => match r {
            Ok(_) => RunningView::Done(mount_point),
            Err(error) => RunningView::Failed { context: "unmounting "@ + mount_point, error },
        },
        _ => at,
    }
}

/// What follows a run of the unmount script for `mount_point`.
pub fn unmount_next(
    mount_point: &str,
    at: Running,
    r: std::result::Result<String, String>,
) -> (next: Running)
    ensures
        next@ == unmount_ran(mount_point@, at@, output(r)),
{
    match at {
        Running::Plain => match r {
            Ok(_) => Running::Done(owned(mount_point)),
            Err(_) => Running::Admin,
        },
        Running::Admin => match r {
            Ok(_) => Running::Done(owned(mount_point)),
            Err(error) => {
                let mut context = owned("unmounting ");
                context.push_str(mount_point);
                Running::Failed { context, error }
            },
        },
        _ => at,
    }
}

/// The administrator is asked at most once, and never where the plain run has
/// done the work.
pub proof fn law_administrator_is_the_second_resort(
    mount_point: Seq<char>,
    plain: std::result::Result<Seq<char>, Seq<char>>,
    admin: std::result::Result<Seq<char>, Seq<char>>,
)
    ensures
        unmount_ran(mount_point, RunningView::Plain, plain) is Admin <==> plain is Err,
        mount_ran(mount_point, RunningView::Plain, plain) is Admin <==> !(plain is Ok
            && reported_path(plain->Ok_0) is Some),
        !(unmount_ran(mount_point, RunningView::Admin, admin) is Admin),
        !(unmount_ran(mount_point, RunningView::Admin, admin) is Plain),
        !(mount_ran(mount_point, RunningView::Admin, admin) is Admin),
        !(mount_ran(mount_point, RunningView::Admin, admin) is Plain),
{
}

// ---------------------------------------------------------------------------
// Detaching
// ---------------------------------------------------------------------------

/// Detaching the volume from the place where it is: the places are tried in
/// order.
#[derive(Debug)]
pub struct Detach {
    places: Vec<String>,
    next: usize,
}

/// What comes next in a detachment.
#[derive(Debug)]
pub enum DetachStep {
    /// Detach this place.
    Try(String),
    /// The volume is detached; `place` is told to the user.
    Done { place: Option<String> },
    /// No place could be detached.
    Failed(String),
}

impl Detach {
    /// The places to try.
    pub closed spec fn all(self) -> Seq<Seq<char>> {
        texts(self.places@)
    }

    /// How many places were tried.
    pub closed spec fn tried(self) -> nat {
        self.next as nat
    }

    /// Starts with the requested place.
    pub fn new(path: &str) -> (r: Self)
        ensures
            r.all() == candidates(path@),
            r.tried() == 0,
    {
        Detach { places: mount_candidates(path), next: 0 }
    }

    /// The next place, while there is one.
    pub fn place(&self) -> (r: Option<String>)
        ensures
            match r {
                Some(p) => self.tried() < self.all().len() && p@ == self.all()[self.tried() as int],
                None => self.tried() >= self.all().len(),
            },
    {
        if self.next < self.places.len() {
            Some(self.places[self.next].clone())
        } else {
            None
        }
    }

    /// Goes on after an attempt at the place at hand: it ends with the first
    /// success, or with the error of the last place.
    pub fn answered(&mut self, r: std::result::Result<(), String>) -> (step: DetachStep)
        requires
            old(self).tried() < old(self).all().len(),
        ensures
            final(self).all() == old(self).all(),
            match r {
                Ok(_) => final(self).tried() == old(self).tried() && (step matches DetachStep::Done {
                    place,
                } && if old(self).tried() == 0 {
                    place is None
                } else {
                    place is Some && place->0@ == old(self).all()[old(self).tried() as int]
                }),
                Err(e) => final(self).tried() == old(self).tried() + 1 && if old(self).tried() + 1
                    < old(self).all().len() {
                    step matches DetachStep::Try(p) && p@ == old(self).all()[old(self).tried() as int + 1]
                } else {
                    step matches DetachStep::Failed(t) && t@ == e@
                },
            },
    {
        match r {
            Ok(_) => {
                if self.next == 0 {
                    DetachStep::Done { place: None }
                } else {
                    DetachStep::Done { place: Some(self.places[self.next].clone()) }
                }
            },
            Err(e) => {
                let count = self.places.len();
                self.next = self.next + 1;
                if self.next < count {
                    DetachStep::Try(self.places[self.next].clone())
                } else {
                    DetachStep::Failed(e)
                }
            },
        }
    }
}

/// A tool that detaches a mount by force.
#[derive(Clone, Copy, Debug, PartialEq, Eq, Structural)]
pub enum Forcing {
    /// `umount -f`.
    Umount,
    /// `diskutil unmount force`.
    Diskutil,
}

impl Forcing {
    /// The program of the tool.
    pub open spec fn path(self) -> Seq<char> {
        match self {
            Forcing::Umount => "/sbin/umount"@,
            Forcing::Diskutil => "/usr/sbin/diskutil"@,
        }
    }

    /// What the tool is told before the mount point.
    pub open spec fn words(self) -> Seq<Seq<char>> {
        match self {
            Forcing::Umount => seq!["-f"@],
            Forcing::Diskutil => seq!["unmount"@, "force"@],
        }
    }

    /// The program of the tool.
    pub fn program(self) -> (r: String)
        ensures
            r@ == self.path(),
    {
        match self {
            Forcing::Umount => owned("/sbin/umount"),
            Forcing::Diskutil => owned("/usr/sbin/diskutil"),
        }
    }

    /// What the tool is told before the mount point.
    pub fn arguments(self) -> (r: Vec<String>)
        ensures
            texts(r@) == self.words(),
    {
        let mut v: Vec<String> = Vec::new();
        match self {
            Forcing::Umount => {
                v.push(owned("-f"));
            },
            Forcing::Diskutil => {
                v.push(owned("unmount"));
                v.push(owned("force"));
            },
        }
        assert(texts(v@) =~= self.words());
        v
    }

    /// What follows a failure of the tool: the other tool, or the error. The
    /// text is what the tool wrote, or why it did not run.
    pub fn failed(self, ran: bool, text: &str) -> (r: std::result::Result<Forcing, String>)
        ensures
            match self {
                Forcing::Umount => r == Ok::<Forcing, String>(Forcing::Diskutil),
                Forcing::Diskutil => r is Err && r->Err_0@ == self.path() + ": "@ + if ran {
                    trim(text@)
                } else {
                    text@
                },
            },
    {
        match self {
            Forcing::Umount => Ok(Forcing::Diskutil),
            Forcing::Diskutil => {
                let mut s = self.program();
                s.push_str(": ");
                if ran {
                    s.push_str(string_of(&trim_chars(&chars_of(text))).as_str());
                } else {
                    s.push_str(text);
                }
                Err(s)
            },
        }
    }
}

// ---------------------------------------------------------------------------
// What quoting promises
// ---------------------------------------------------------------------------

/// How a POSIX shell reads a word.
pub enum ShellState {
    /// Outside of quotes.
    Plain,
    /// Within single quotes.
    Quoted,
    /// Behind a backslash.
    Escaped,
    /// Something that the word should not hold without quotes.
    Bad,
}

/// What a POSIX shell has read of a word, and the text of it so far.
pub open spec fn shell_read(word: Seq<char>) -> (ShellState, Seq<char>)
    decreases word.len(),
{
    if word.len() == 0 {
        (ShellState::Plain, Seq::empty())
    } else {
        let (state, text) = shell_read(word.drop_last());
        let c = word.last();
        match state {
            ShellState::Plain => if c == '\'' {
                (ShellState::Quoted, text)
            } else if c == '\\' {
                (ShellState::Escaped, text)
            } else {
                (ShellState::Bad, text)
            },
            ShellState::Quoted => if c == '\'' {
                (ShellState::Plain, text)
            } else {
                (ShellState::Quoted, text.push(c))
            },
            ShellState::Escaped => (ShellState::Plain, text.push(c)),
            ShellState::Bad => (ShellState::Bad, text),
        }
    }
}

proof fn lemma_shell_body(s: Seq<char>)
    ensures
        shell_read(seq!['\''] + replace(s, '\'', quoted_quote())) == (ShellState::Quoted, s),
    decreases s.len(),
{
    let open = seq!['\''];
    reveal_with_fuel(shell_read, 5);
    if s.len() == 0 {
        let w = open + replace(s, '\'', quoted_quote());
        assert(w =~= open);
        assert(w.drop_last() =~= Seq::empty());
        assert(s =~= Seq::empty());
    } else {
        let t = s.drop_last();
        lemma_shell_body(t);
        let a = open + replace(t, '\'', quoted_quote());
        let w = open + replace(s, '\'', quoted_quote());
        assert(s =~= t.push(s.last()));
        if s.last() == '\'' {
            let w3 = a.push('\'').push('\\').push('\'');
            assert(w =~= w3.push('\''));
            assert(w.drop_last() =~= w3);
            assert(w3.drop_last() =~= a.push('\'').push('\\'));
            assert(a.push('\'').push('\\').drop_last() =~= a.push('\''));
            assert(a.push('\'').drop_last() =~= a);
        } else {
            assert(w =~= a.push(s.last()));
            assert(w.drop_last() =~= a);
        }
    }
}

/// A quoted text is one word to a shell, and the shell reads it as the text
/// itself, whatever characters it holds.
pub proof fn law_shell_reads_quoted_text_back(s: Seq<char>)
    ensures
        shell_read(shell_word(s)) == (ShellState::Plain, s),
{
    lemma_shell_body(s);
    let w = shell_word(s);
    let a = seq!['\''] + replace(s, '\'', quoted_quote());
    assert(w.drop_last() =~= a);
}

/// What AppleScript has read within double quotes: whether a backslash is
/// pending, whether the quotes are still open, and the text so far.
pub open spec fn apple_read(text: Seq<char>) -> (bool, bool, Seq<char>)
    decreases text.len(),
{
    if text.len() == 0 {
        (false, true, Seq::empty())
    } else {
        let (pending, open, out) = apple_read(text.drop_last());
        let c = text.last();
        if !open {
            (pending, open, out)
        } else if pending {
            (false, true, out.push(c))
        } else if c == '\\' {
            (true, true, out)
        } else if c == '"' {
            (false, false, out)
        } else {
            (false, true, out.push(c))
        }
    }
}

proof fn lemma_replace_append(a: Seq<char>, b: Seq<char>, c: char, by: Seq<char>)
    ensures
        replace(a + b, c, by) == replace(a, c, by) + replace(b, c, by),
    decreases b.len(),
{
    if b.len() == 0 {
        assert(a + b =~= a);
        assert(replace(a, c, by) + replace(b, c, by) =~= replace(a, c, by));
    } else {
        lemma_replace_append(a, b.drop_last(), c, by);
        assert((a + b).drop_last() =~= a + b.drop_last());
        assert(replace(a + b, c, by) =~= replace(a, c, by) + replace(b, c, by));
    }
}

proof fn lemma_replace_one(x: char, c: char, by: Seq<char>)
    ensures
        replace(seq![x], c, by) == if x == c {
            by
        } else {
            seq![x]
        },
{
    assert(seq![x].drop_last() =~= Seq::<char>::empty());
    assert(replace(Seq::empty(), c, by) =~= Seq::empty());
    assert(replace(seq![x], c, by) =~= if x == c {
        by
    } else {
        seq![x]
    });
}

/// What a script adds with one more character to its text in double quotes.
proof fn lemma_apple_text_push(t: Seq<char>, c: char)
    ensures
        apple_text(t.push(c)) == if c == '\\' || c == '"' {
            apple_text(t).push('\\').push(c)
        } else {
            apple_text(t).push(c)
        },
{
    let bb = seq!['\\', '\\'];
    let bq = seq!['\\', '"'];
    let inner = replace(t, '\\', bb);
    assert(t.push(c).drop_last() =~= t);
    if c == '\\' {
        let one = seq!['\\'];
        assert(replace(t.push(c), '\\', bb) =~= inner + one + one);
        lemma_replace_append(inner + one, one, '"', bq);
        lemma_replace_append(inner, one, '"', bq);
        lemma_replace_one('\\', '"', bq);
        assert(apple_text(t) + one + one =~= apple_text(t).push('\\').push(c));
    } else {
        assert(replace(t.push(c), '\\', bb) =~= inner + seq![c]);
        lemma_replace_append(inner, seq![c], '"', bq);
        lemma_replace_one(c, '"', bq);
        if c == '"' {
            assert(apple_text(t) + bq =~= apple_text(t).push('\\').push(c));
        } else {
            assert(apple_text(t) + seq![c] =~= apple_text(t).push(c));
        }
    }
}

/// A script in the double quotes of AppleScript is read as the script itself,
/// and the quotes stay open to its end.
pub proof fn law_apple_script_reads_escaped_text_back(script: Seq<char>)
    ensures
        apple_read(apple_text(script)) == (false, true, script),
    decreases script.len(),
{
    if script.len() == 0 {
        assert(script =~= Seq::empty());
        assert(apple_text(script) =~= Seq::empty());
    } else {
        let t = script.drop_last();
        let c = script.last();
        law_apple_script_reads_escaped_text_back(t);
        assert(script =~= t.push(c));
        lemma_apple_text_push(t, c);
        let a = apple_text(t);
        if c == '\\' || c == '"' {
            assert(a.push('\\').drop_last() =~= a);
            assert(apple_read(a.push('\\')) == (true, true, t));
            assert(a.push('\\').push(c).drop_last() =~= a.push('\\'));
        } else {
            assert(a.push(c).drop_last() =~= a);
        }
    }
}

} // verus!
