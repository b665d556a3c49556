//! Local paths, as text: the directory, the name, and siblings of a path.

use vstd::prelude::*;

use crate::text::{
    chars_of, dec, last_index, lemma_last_slash, owned, push_dec, rfind_char, string_of, sub_chars,
};

verus! {

/// `p` without what does not matter at its end: slashes, and single dots behind
/// a slash. The root stays.
pub open spec fn tidy(p: Seq<char>) -> Seq<char>
    decreases p.len(),
{
    if p.len() >= 2 && (p.last() == '/' || (p.last() == '.' && p[p.len() - 2] == '/')) {
        tidy(p.drop_last())
    } else {
        p
    }
}

/// The last component of a path; none for the root, the empty path, `.` and a
/// path that ends in `..`.
pub open spec fn name_of(p: Seq<char>) -> Option<Seq<char>> {
    let t = tidy(p);
    let name = match last_index(t, '/') {
        Some(i) => t.skip(i + 1),
        None => t,
    };
    if name.len() == 0 || name == seq!['.'] || name == seq!['.', '.'] {
        None
    } else {
        Some(name)
    }
}

/// The path without its last component; none for the root and the empty path.
pub open spec fn parent_of(p: Seq<char>) -> Option<Seq<char>> {
    let t = tidy(p);
    if t.len() == 0 || t == seq!['/'] {
        None
    } else {
        match last_index(t, '/') {
            None => Some(Seq::empty()),
            Some(i) => if i == 0 {
                Some(seq!['/'])
            } else {
                Some(tidy(t.take(i)))
            },
        }
    }
}

/// The path of `name` in `dir`.
pub open spec fn child_of(dir: Seq<char>, name: Seq<char>) -> Seq<char> {
    if dir.len() == 0 || dir.last() == '/' {
        dir + name
    } else {
        dir.push('/') + name
    }
}

/// True for the root: a slash, and nothing but slashes and single dots behind
/// it.
pub open spec fn is_root_path(p: Seq<char>) -> bool {
    tidy(p) == seq!['/']
}

fn tidied(v: &Vec<char>) -> (r: Vec<char>)
    ensures
        r@ == tidy(v@),
{
    let mut n: usize = v.len();
    assert(v@.take(n as int) =~= v@);
    while n >= 2 && (v[n - 1] == '/' || (v[n - 1] == '.' && v[n - 2] == '/'))
        invariant
            n <= v.len(),
            tidy(v@) == tidy(v@.take(n as int)),
        decreases n,
    {
        assert(v@.take(n as int).drop_last() =~= v@.take(n - 1));
        n = n - 1;
    }
    sub_chars(v, 0, n)
}

fn is_dots(v: &Vec<char>) -> (r: bool)
    ensures
        r == (v@ == seq!['.'] || v@ == seq!['.', '.']),
{
    let r = (v.len() == 1 && v[0] == '.') || (v.len() == 2 && v[0] == '.' && v[1] == '.');
    proof {
        if v@.len() == 1 && v@[0] == '.' {
            assert(v@ =~= seq!['.']);
        }
        if v@.len() == 2 && v@[0] == '.' && v@[1] == '.' {
            assert(v@ =~= seq!['.', '.']);
        }
    }
    r
}

/// The last component of a path.
pub fn file_name(p: &str) -> (r: Option<String>)
    ensures
        match r {
            Some(n) => name_of(p@) == Some(n@),
            None => name_of(p@) is None,
        },
{
    let c = chars_of(p);
    let t = tidied(&c);
    let lo: usize = match rfind_char(&t, '/') {
        Some(i) => i + 1,
        None => 0,
    };
    let name = sub_chars(&t, lo, t.len());
    proof {
        match last_index(t@, '/') {
            Some(i) => {
                assert(name@ =~= t@.skip(i + 1));
            },
            None => {
                assert(name@ =~= t@);
            },
        }
    }
    if name.len() == 0 || is_dots(&name) {
        return None;
    }
    Some(string_of(&name))
}

/// The path without its last component.
pub fn parent(p: &str) -> (r: Option<String>)
    ensures
        match r {
            Some(d) => parent_of(p@) == Some(d@),
            None => parent_of(p@) is None,
        },
{
    let c = chars_of(p);
    let t = tidied(&c);
    if t.len() == 0 {
        return None;
    }
    if t.len() == 1 && t[0] == '/' {
        assert(t@ =~= seq!['/']);
        return None;
    }
    match rfind_char(&t, '/') {
        None => {
            let s = String::new();
            assert(s@ =~= Seq::empty());
            Some(s)
        },
        Some(i) => {
            if i == 0 {
                let root = vec!['/'];
                assert(root@ =~= seq!['/']);
                Some(string_of(&root))
            } else {
                let head = sub_chars(&t, 0, i);
                assert(head@ =~= t@.take(i as int));
                Some(string_of(&tidied(&head)))
            }
        },
    }
}

/// The path of `name` in `dir`.
pub fn join_path(dir: &str, name: &str) -> (r: String)
    ensures
        r@ == child_of(dir@, name@),
{
    let c = chars_of(dir);
    let mut s = owned(dir);
    if c.len() > 0 && c[c.len() - 1] != '/' {
        s.push('/');
    }
    s.push_str(name);
    s
}

/// True when the path is the root.
pub fn is_root(p: &str) -> (r: bool)
    ensures
        r == is_root_path(p@),
{
    let c = chars_of(p);
    let t = tidied(&c);
    let r = t.len() == 1 && t[0] == '/';
    proof {
        if t@.len() == 1 && t@[0] == '/' {
            assert(t@ =~= seq!['/']);
        }
    }
    r
}

/// True when the path starts at the root.
pub fn is_absolute(p: &str) -> (r: bool)
    ensures
        r == (p@.len() > 0 && p@[0] == '/'),
{
    let c = chars_of(p);
    c.len() > 0 && c[0] == '/'
}

/// A name beside `p` that starts with a dot and ends in the given tail.
pub open spec fn sibling_text(p: Seq<char>, tail: Seq<char>) -> Seq<char> {
    let name = match name_of(p) {
        Some(n) => n,
        None => "out"@,
    };
    let dir = match parent_of(p) {
        Some(d) => d,
        None => "."@,
    };
    child_of(dir, "."@ + name + tail)
}

/// A path beside `p`.
pub fn sibling(p: &str, tail: &str) -> (r: String)
    ensures
        r@ == sibling_text(p@, tail@),
{
    let name = match file_name(p) {
        Some(n) => n,
        None => owned("out"),
    };
    let dir = match parent(p) {
        Some(d) => d,
        None => owned("."),
    };
    let mut s = owned(".");
    s.push_str(name.as_str());
    s.push_str(tail);
    join_path(dir.as_str(), s.as_str())
}

/// The end of the name of a temporary file.
pub open spec fn temp_tail(pid: u32, n: u64) -> Seq<char> {
    ".pereprava-"@ + dec(pid as nat) + "-"@ + dec(n as nat) + ".tmp"@
}

/// A temporary file beside `path`, the `n`th one of the process `pid`. A rename
/// from there to `path` stays within one file system.
pub fn temp_sibling(path: &str, pid: u32, n: u64) -> (r: String)
    ensures
        r@ == sibling_text(path@, temp_tail(pid, n)),
{
    let mut tail = owned(".pereprava-");
    push_dec(&mut tail, pid as u64);
    tail.push_str("-");
    push_dec(&mut tail, n);
    tail.push_str(".tmp");
    sibling(path, tail.as_str())
}

/// The end of the name of a scratch directory.
pub open spec fn scratch_tail(tag: Seq<char>, pid: u32, n: u64) -> Seq<char> {
    ".pereprava-"@ + tag + "-"@ + dec(pid as nat) + "-"@ + dec(n as nat)
}

/// A scratch directory beside `dest`, the `n`th one of the process `pid`.
pub fn sibling_scratch(dest: &str, tag: &str, pid: u32, n: u64) -> (r: String)
    ensures
        r@ == sibling_text(dest@, scratch_tail(tag@, pid, n)),
{
    let mut tail = owned(".pereprava-");
    tail.push_str(tag);
    tail.push_str("-");
    push_dec(&mut tail, pid as u64);
    tail.push_str("-");
    push_dec(&mut tail, n);
    sibling(dest, tail.as_str())
}

proof fn lemma_dec_injective(n: nat, m: nat)
    requires
        dec(n) == dec(m),
    ensures
        n == m,
{
    crate::text::lemma_dec_reads_back(n);
    crate::text::lemma_dec_reads_back(m);
}

/// Two temporary files of one process beside the same path are different files.
pub proof fn law_temp_siblings_differ(path: Seq<char>, pid: u32, n: u64, m: u64)
    requires
        n != m,
    ensures
        sibling_text(path, temp_tail(pid, n)) != sibling_text(path, temp_tail(pid, m)),
{
    let head = ".pereprava-"@ + dec(pid as nat) + "-"@;
    let a = temp_tail(pid, n);
    let b = temp_tail(pid, m);
    let x = sibling_text(path, a);
    let y = sibling_text(path, b);
    if x == y {
        let k = x.len() - a.len();
        assert(x.len() == y.len());
        assert(a.len() == b.len());
        assert(x.skip(k) =~= a);
        assert(y.skip(k) =~= b);
        assert(a == b);
        let dn = dec(n as nat);
        let dm = dec(m as nat);
        assert(dn.len() == dm.len());
        assert(a.subrange(head.len() as int, (head.len() + dn.len()) as int) =~= dn);
        assert(b.subrange(head.len() as int, (head.len() + dm.len()) as int) =~= dm);
        lemma_dec_injective(n as nat, m as nat);
    }
}

/// A path in a directory has that directory for its parent, and its name for its
/// last component; joined they give the path back.
pub proof fn law_path_has_its_parent_and_name(dir: Seq<char>, name: Seq<char>)
    requires
        is_plain(dir, name),
    ensures
        name_of(dir.push('/') + name) == Some(name),
        parent_of(dir.push('/') + name) == Some(dir),
        child_of(dir, name) == dir.push('/') + name,
        !is_root_path(dir.push('/') + name),
{
    let p = dir.push('/') + name;
    let n = p.len();
    assert(p.last() == name.last());
    assert(name.contains(name.last()));
    if p[n - 1] == '.' && p[n - 2] == '/' {
        if name.len() >= 2 {
            assert(name.contains(name[name.len() - 2]));
        } else {
            assert(name =~= seq!['.']);
        }
    }
    assert(tidy(p) == p);
    lemma_last_slash(dir, name);
    assert(p.skip(dir.len() as int + 1) =~= name);
    assert(p.take(dir.len() as int) =~= dir);
    assert(tidy(dir) == dir);
}

/// True when `name` is an ordinary name, and `dir` a path with nothing at its
/// end that does not matter.
pub open spec fn is_plain(dir: Seq<char>, name: Seq<char>) -> bool {
    &&& name.len() > 0
    &&& !name.contains('/')
    &&& name != seq!['.']
    &&& name != seq!['.', '.']
    &&& dir.len() > 0
    &&& dir.last() != '/'
    &&& !(dir.len() >= 2 && dir.last() == '.' && dir[dir.len() - 2] == '/')
}

/// A sibling of a path lies in the same directory, hidden, under the name of the
/// path with the given ending.
pub proof fn law_sibling_lies_beside_the_path(dir: Seq<char>, name: Seq<char>, tail: Seq<char>)
    requires
        is_plain(dir, name),
    ensures
        sibling_text(dir.push('/') + name, tail) == dir.push('/') + (seq!['.'] + name + tail),
{
    reveal_strlit(".");
    law_path_has_its_parent_and_name(dir, name);
    assert("."@ =~= seq!['.']);
}

} // verus!
