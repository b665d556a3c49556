//! Device paths: `/storage-name/dir/subdir/file.ext`.
//!
//! The first segment addresses a storage, by its description
//! (`/Internal shared storage/DCIM`) or by its index counted from one
//! (`/1/DCIM`). The empty path (`""` or `"/"`) denotes the device root, whose
//! listing is the set of storages.

use vstd::prelude::*;

use crate::error::{Error, ErrorView, Result};
use crate::text::{
    chars_of, copy_strings, has_char, join, lemma_split_join, lemma_split_pieces,
    lemma_strip_end, lemma_strip_start, lemma_trim_id, owned, pieces, same_chars, split,
    split_chars, string_of, strip_end, strip_start, texts, trim, trim_chars, white_space,
};

verus! {

/// A parsed device path.
#[derive(Debug, PartialEq, Eq)]
pub struct DevPath {
    /// The first segment, which names the storage. Empty for the device root.
    pub storage_ref: String,
    /// The segments below the storage.
    pub segments: Vec<String>,
}

/// A [`DevPath`] with its parts as sequences of characters.
#[verifier::ext_equal]
pub struct DevPathView {
    pub storage_ref: Seq<char>,
    pub segments: Seq<Seq<char>>,
}

impl View for DevPath {
    type V = DevPathView;

    open spec fn view(&self) -> DevPathView {
        DevPathView { storage_ref: self.storage_ref@, segments: texts(self.segments@) }
    }
}

impl Clone for DevPath {
    fn clone(&self) -> (r: Self)
        ensures
            r@ == self@,
    {
        DevPath {
            storage_ref: self.storage_ref.clone(),
            segments: copy_strings(&self.segments),
        }
    }
}

/// What makes a segment unusable.
#[derive(Clone, Copy)]
pub enum Fault {
    /// The segment is `..`.
    DotDot,
    /// The segment is `.`.
    Dot,
    /// The segment is empty or white space alone.
    Blank,
    /// The segment holds a NUL character.
    Nul,
}

/// The fault of a segment, if it has one.
pub open spec fn fault(part: Seq<char>) -> Option<Fault> {
    if part == seq!['.', '.'] {
        Some(Fault::DotDot)
    } else if trim(part).len() == 0 {
        Some(Fault::Blank)
    } else if part == seq!['.'] {
        Some(Fault::Dot)
    } else if part.contains('\0') {
        Some(Fault::Nul)
    } else {
        None
    }
}

/// The fault of the first faulty segment.
pub open spec fn first_fault(parts: Seq<Seq<char>>) -> Option<Fault>
    decreases parts.len(),
{
    if parts.len() == 0 {
        None
    } else {
        match first_fault(parts.drop_last()) {
            Some(f) => Some(f),
            None => fault(parts.last()),
        }
    }
}

/// The segments of an input: what stands between its slashes, where one slash
/// at the start and one at the end only mark the ends of the path.
pub open spec fn path_parts(input: Seq<char>) -> Seq<Seq<char>> {
    let all = split(trim(input), '/');
    let tail = if all.first().len() == 0 {
        all.drop_first()
    } else {
        all
    };
    if tail.len() > 0 && tail.last().len() == 0 {
        tail.drop_last()
    } else {
        tail
    }
}

/// The message for a faulty input.
pub open spec fn fault_text(f: Fault, input: Seq<char>) -> Seq<char> {
    match f {
        Fault::DotDot => "`..` is not allowed in device paths: "@ + input,
        Fault::Dot => "`.` is not allowed in device paths: "@ + input,
        Fault::Blank => "empty path segment in "@ + input,
        Fault::Nul => "NUL character in "@ + input,
    }
}

/// What parsing gives: the path, or the error of the first faulty segment.
pub open spec fn parsed(input: Seq<char>) -> std::result::Result<DevPathView, ErrorView> {
    let parts = path_parts(input);
    match first_fault(parts) {
        Some(f) => Err(ErrorView::InvalidArgument(fault_text(f, input))),
        None => Ok(
            if parts.len() == 0 {
                DevPathView { storage_ref: Seq::empty(), segments: Seq::empty() }
            } else {
                DevPathView { storage_ref: parts.first(), segments: parts.drop_first() }
            },
        ),
    }
}

/// The text of a path.
pub open spec fn path_text(p: DevPathView) -> Seq<char> {
    if p.storage_ref.len() == 0 {
        seq!['/']
    } else {
        join(seq![Seq::<char>::empty(), p.storage_ref] + p.segments, '/')
    }
}

/// True when every part of the path is a usable segment without a slash, and a
/// path without a storage has no segments either.
pub open spec fn well_formed(p: DevPathView) -> bool {
    if p.storage_ref.len() == 0 {
        p.segments.len() == 0
    } else {
        &&& fault(p.storage_ref) is None
        &&& !p.storage_ref.contains('/')
        &&& forall|i: int|
            0 <= i < p.segments.len() ==> fault(#[trigger] p.segments[i]) is None
                && !p.segments[i].contains('/')
    }
}

fn find_fault(part: &Vec<char>) -> (r: Option<Fault>)
    ensures
        r == fault(part@),
{
    let dots = vec!['.', '.'];
    assert(dots@ =~= seq!['.', '.']);
    if same_chars(part, &dots) {
        return Some(Fault::DotDot);
    }
    if trim_chars(part).len() == 0 {
        return Some(Fault::Blank);
    }
    let dot = vec!['.'];
    assert(dot@ =~= seq!['.']);
    if same_chars(part, &dot) {
        return Some(Fault::Dot);
    }
    if has_char(part, '\0') {
        return Some(Fault::Nul);
    }
    None
}

fn fault_error(f: Fault, input: &str) -> (r: Error)
    ensures
        r@ == ErrorView::InvalidArgument(fault_text(f, input@)),
{
    let mut s = match f {
        Fault::DotDot => owned("`..` is not allowed in device paths: "),
        Fault::Dot => owned("`.` is not allowed in device paths: "),
        Fault::Blank => owned("empty path segment in "),
        Fault::Nul => owned("NUL character in "),
    };
    s.push_str(input);
    Error::InvalidArgument(s)
}

impl DevPath {
    /// Parses a device path supplied by the user.
    ///
    /// The error is [`Error::InvalidArgument`]: it names the first segment that
    /// is `.` or `..`, is blank (two slashes in a row), or holds a NUL
    /// character.
    pub fn parse(input: &str) -> (r: Result<Self>)
        ensures
            match r {
                Ok(p) => parsed(input@) == Ok::<DevPathView, ErrorView>(p@),
                Err(e) => parsed(input@) == Err::<DevPathView, ErrorView>(e@),
            },
    {
        let raw = chars_of(input);
        let trimmed = trim_chars(&raw);
        let all = split_chars(&trimmed, '/');
        let ghost every = split(trim(input@), '/');
        let mut lo: usize = 0;
        let mut hi: usize = all.len();
        assert(all@[0]@ == every[0]);
        if all[0].len() == 0 {
            lo = 1;
        }
        let ghost tail = every.skip(lo as int);
        assert(lo == 0 ==> tail =~= every);
        assert(lo == 1 ==> tail =~= every.drop_first());
        if lo < hi {
            assert(all@[hi - 1]@ == tail.last());
            if all[hi - 1].len() == 0 {
                hi = hi - 1;
            }
        }
        let ghost parts = path_parts(input@);
        assert(parts =~= every.subrange(lo as int, hi as int));

        let mut i: usize = lo;
        while i < hi
            invariant
                lo <= i <= hi <= all.len(),
                pieces(all@) == every,
                parts == every.subrange(lo as int, hi as int),
                parts == path_parts(input@),
                first_fault(parts.take(i - lo)) is None,
            decreases hi - i,
        {
            assert(all@[i as int]@ == every[i as int]);
            assert(parts.take(i + 1 - lo).drop_last() =~= parts.take(i - lo));
            if let Some(f) = find_fault(&all[i]) {
                proof {
                    lemma_first_fault_stays(parts, i + 1 - lo);
                }
                return Err(fault_error(f, input));
            }
            i = i + 1;
        }
        assert(parts.take(parts.len() as int) =~= parts);

        if lo == hi {
            let root = DevPath { storage_ref: String::new(), segments: Vec::new() };
            assert(root@.segments =~= Seq::empty());
            return Ok(root);
        }
        assert(all@[lo as int]@ == every[lo as int]);
        let storage_ref = string_of(&all[lo]);
        let mut segments: Vec<String> = Vec::new();
        let mut j: usize = lo + 1;
        while j < hi
            invariant
                lo < j <= hi <= all.len(),
                pieces(all@) == every,
                texts(segments@) == every.subrange(lo + 1, j as int),
            decreases hi - j,
        {
            assert(all@[j as int]@ == every[j as int]);
            let ghost before = texts(segments@);
            let seg = string_of(&all[j]);
            assert(texts(segments@.push(seg)) =~= before.push(seg@));
            segments.push(seg);
            j = j + 1;
            assert(every.subrange(lo + 1, j as int) =~= before.push(every[j - 1]));
        }
        assert(parts.drop_first() =~= every.subrange(lo + 1, hi as int));
        Ok(DevPath { storage_ref, segments })
    }

    /// True when the path addresses the device root.
    #[must_use]
    pub fn is_root(&self) -> (r: bool)
        ensures
            r == (self@.storage_ref.len() == 0),
    {
        let c = chars_of(self.storage_ref.as_str());
        c.len() == 0
    }

    /// The text of the path.
    #[must_use]
    pub fn display(&self) -> (r: String)
        ensures
            r@ == path_text(self@),
    {
        if self.is_root() {
            let s = string_of(&vec!['/']);
            assert(s@ =~= seq!['/']);
            return s;
        }
        let ghost head = seq![Seq::<char>::empty(), self@.storage_ref];
        let mut s = String::new();
        s.push('/');
        s.push_str(self.storage_ref.as_str());
        proof {
            reveal_with_fuel(join, 3);
            assert(head.drop_last() =~= seq![Seq::<char>::empty()]);
            assert(join(head, '/') =~= s@);
            assert(head + self@.segments.take(0) =~= head);
        }
        let mut i: usize = 0;
        while i < self.segments.len()
            invariant
                i <= self.segments.len(),
                head == seq![Seq::<char>::empty(), self@.storage_ref],
                s@ == join(head + self@.segments.take(i as int), '/'),
            decreases self.segments.len() - i,
        {
            let ghost before = s@;
            s.push('/');
            s.push_str(self.segments[i].as_str());
            assert((head + self@.segments.take(i + 1)).drop_last() =~= head
                + self@.segments.take(i as int));
            assert(s@ =~= before.push('/') + self@.segments[i as int]);
            i = i + 1;
        }
        assert(self@.segments.take(i as int) =~= self@.segments);
        s
    }
}

proof fn lemma_first_fault_stays(parts: Seq<Seq<char>>, i: int)
    requires
        0 <= i <= parts.len(),
        first_fault(parts.take(i)) is Some,
    ensures
        first_fault(parts) == first_fault(parts.take(i)),
    decreases parts.len() - i,
{
    if i == parts.len() {
        assert(parts.take(i) =~= parts);
    } else {
        assert(parts.take(i + 1).drop_last() =~= parts.take(i));
        lemma_first_fault_stays(parts, i + 1);
    }
}

proof fn lemma_no_fault(parts: Seq<Seq<char>>)
    ensures
        first_fault(parts) is None <==> (forall|i: int|
            0 <= i < parts.len() ==> fault(#[trigger] parts[i]) is None),
    decreases parts.len(),
{
    if parts.len() > 0 {
        let init = parts.drop_last();
        lemma_no_fault(init);
        if first_fault(parts) is None {
            assert forall|i: int| 0 <= i < parts.len() implies fault(
                #[trigger] parts[i],
            ) is None by {
                if i < init.len() {
                    assert(init[i] == parts[i]);
                }
            }
        }
        if forall|i: int| 0 <= i < parts.len() ==> fault(#[trigger] parts[i]) is None {
            assert forall|i: int| 0 <= i < init.len() implies fault(#[trigger] init[i]) is None by {
                assert(init[i] == parts[i]);
            }
            assert(fault(parts[parts.len() - 1]) is None);
        }
    }
}

/// Whatever the input, a path that parsing accepts has usable segments only: no
/// part is `.` or `..`, is blank, or holds a slash or a NUL character.
pub proof fn law_parsed_paths_are_well_formed(input: Seq<char>)
    ensures
        parsed(input) matches Ok(p) ==> well_formed(p),
{
    if parsed(input) is Ok {
        let p = parsed(input)->Ok_0;
        let all = split(trim(input), '/');
        let parts = path_parts(input);
        lemma_split_pieces(trim(input), '/');
        lemma_no_fault(parts);
        let lo: int = if all.first().len() == 0 {
            1
        } else {
            0
        };
        assert forall|i: int| 0 <= i < parts.len() implies fault(parts[i]) is None && !(
        #[trigger] parts[i]).contains('/') by {
            assert(parts[i] == all[i + lo]);
        }
        if parts.len() > 0 {
            let first = parts[0];
            assert(fault(first) is None);
            assert(first.len() > 0) by {
                if first.len() == 0 {
                    lemma_trim_id(first);
                }
            }
            assert forall|i: int| 0 <= i < p.segments.len() implies fault(
                #[trigger] p.segments[i],
            ) is None && !p.segments[i].contains('/') by {
                assert(p.segments[i] == parts[i + 1]);
            }
        }
    }
}

/// Parsing the text of a path gives the path back, unless the last part ends in
/// white space (which parsing takes for white space around the path).
pub proof fn law_text_parses_back(p: DevPathView)
    requires
        well_formed(p),
        !white_space(path_text(p).last()),
    ensures
        parsed(path_text(p)) == Ok::<DevPathView, ErrorView>(p),
{
    let text = path_text(p);
    let e = Seq::<char>::empty();
    if p.storage_ref.len() == 0 {
        lemma_trim_id(text);
        assert(text =~= e.push('/'));
        reveal_with_fuel(split, 2);
        assert(text.drop_last() =~= e);
        assert(split(text, '/') =~= seq![e, e]);
        assert(path_parts(text) =~= Seq::<Seq<char>>::empty());
        assert(p.segments =~= Seq::empty());
        assert(p.storage_ref =~= Seq::empty());
    } else {
        let all = seq![e, p.storage_ref] + p.segments;
        assert forall|i: int| 0 <= i < all.len() implies !(#[trigger] all[i]).contains('/') by {
            if i >= 2 {
                assert(all[i] == p.segments[i - 2]);
            }
        }
        lemma_join_starts(all);
        lemma_trim_id(text);
        lemma_split_join(all, '/');
        let parts = seq![p.storage_ref] + p.segments;
        assert(all.drop_first() =~= parts);
        assert(parts.last().len() > 0) by {
            let l = parts.last();
            if l.len() == 0 {
                lemma_trim_id(l);
                assert(p.segments.len() > 0 ==> l == p.segments[p.segments.len() - 1]);
            }
        }
        assert(path_parts(text) =~= parts);
        lemma_no_fault(parts);
        assert forall|i: int| 0 <= i < parts.len() implies fault(#[trigger] parts[i]) is None by {
            if i > 0 {
                assert(parts[i] == p.segments[i - 1]);
            }
        }
        assert(parts.drop_first() =~= p.segments);
    }
}

proof fn lemma_join_starts(all: Seq<Seq<char>>)
    requires
        all.len() >= 2,
        all[0].len() == 0,
    ensures
        join(all, '/').len() > 0,
        join(all, '/').first() == '/',
    decreases all.len(),
{
    if all.len() == 2 {
        assert(all.drop_last().len() == 1);
        assert(join(all.drop_last(), '/') == all[0]);
    } else {
        lemma_join_starts(all.drop_last());
    }
}

/// True when a text can be a part of a device path: it is not blank, not one of
/// the names for the directory itself and the one above it, and has neither a
/// slash nor a NUL character in it.
pub open spec fn ordinary(part: Seq<char>) -> bool {
    &&& exists|i: int| 0 <= i < part.len() && !white_space(#[trigger] part[i])
    &&& part != seq!['.']
    &&& part != seq!['.', '.']
    &&& !part.contains('/')
    &&& !part.contains('\0')
}

proof fn lemma_strip_keeps(s: Seq<char>, p: spec_fn(char) -> bool, i: int)
    requires
        0 <= i < s.len(),
        !p(s[i]),
    ensures
        strip_start(s, p).len() > 0,
        strip_end(s, p).len() > 0,
    decreases s.len(),
{
    if p(s.first()) {
        assert(s.drop_first()[i - 1] == s[i]);
        lemma_strip_keeps(s.drop_first(), p, i - 1);
    }
    if p(s.last()) {
        assert(s.drop_last()[i] == s[i]);
        lemma_strip_keeps(s.drop_last(), p, i);
    }
}

proof fn lemma_blank(s: Seq<char>)
    ensures
        trim(s).len() > 0 <==> exists|i: int| 0 <= i < s.len() && !white_space(#[trigger] s[i]),
{
    let p = |c: char| white_space(c);
    let t = strip_start(s, p);
    lemma_strip_start(s, p);
    lemma_strip_end(t, p);
    if trim(s).len() > 0 {
        let k = s.len() - t.len() + trim(s).len() - 1;
        assert(trim(s).last() == t[trim(s).len() - 1]);
        assert(s[k] == trim(s).last());
        assert(!white_space(s[k]));
    }
    if exists|i: int| 0 <= i < s.len() && !white_space(#[trigger] s[i]) {
        let i = choose|i: int| 0 <= i < s.len() && !white_space(#[trigger] s[i]);
        lemma_strip_keeps(s, p, i);
        assert(!p(t.first()));
        lemma_strip_keeps(t, p, 0);
    }
}

/// The parts of an accepted path are ordinary ones.
pub proof fn law_accepted_parts_are_ordinary(input: Seq<char>, p: DevPathView, i: int)
    requires
        parsed(input) == Ok::<DevPathView, ErrorView>(p),
        0 <= i < p.segments.len(),
    ensures
        ordinary(p.storage_ref),
        ordinary(p.segments[i]),
{
    law_parsed_paths_are_well_formed(input);
    assert(fault(p.segments[i]) is None && !p.segments[i].contains('/'));
    lemma_blank(p.storage_ref);
    lemma_blank(p.segments[i]);
}

/// Ordinary parts with slashes between them, and one before them, are accepted
/// as the path with those parts, unless white space ends the last one.
pub proof fn law_ordinary_parts_are_accepted(parts: Seq<Seq<char>>)
    requires
        parts.len() > 0,
        forall|i: int| 0 <= i < parts.len() ==> ordinary(#[trigger] parts[i]),
        !white_space(parts.last().last()),
    ensures
        parsed(join(seq![Seq::<char>::empty()] + parts, '/')) == Ok::<DevPathView, ErrorView>(
            DevPathView { storage_ref: parts[0], segments: parts.drop_first() },
        ),
{
    let e = Seq::<char>::empty();
    let p = DevPathView { storage_ref: parts[0], segments: parts.drop_first() };
    assert forall|i: int| 0 <= i < parts.len() implies fault(#[trigger] parts[i]) is None
        && !parts[i].contains('/') && parts[i].len() > 0 by {
        assert(ordinary(parts[i]));
        lemma_blank(parts[i]);
    }
    assert(parts[0].len() > 0 && fault(parts[0]) is None);
    assert forall|i: int| 0 <= i < p.segments.len() implies fault(#[trigger] p.segments[i]) is None
        && !p.segments[i].contains('/') by {
        assert(p.segments[i] == parts[i + 1]);
    }
    let all = seq![e] + parts;
    assert(all =~= seq![e, parts[0]] + parts.drop_first());
    assert(all.last() == parts.last());
    assert(parts[parts.len() - 1].len() > 0);
    assert(join(all, '/').last() == parts.last().last());
    law_text_parses_back(p);
}

} // verus!
