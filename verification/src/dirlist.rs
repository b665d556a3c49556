//! Directory listings of the volume: sorted by name without regard to case, one
//! entry per name, handed out page by page.

use vstd::prelude::*;

use crate::names::{lowercase, lowercase_of, names_eq_ci, same_name_ci};
use crate::text::chars_of;

verus! {

/// An entry of a directory of the volume.
#[derive(Debug)]
pub struct Child {
    pub id: u64,
    pub name: String,
    pub is_dir: bool,
    pub size: u64,
}

/// A [`Child`] with its name as a sequence of characters.
pub struct ChildView {
    pub id: u64,
    pub name: Seq<char>,
    pub is_dir: bool,
    pub size: u64,
}

impl View for Child {
    type V = ChildView;

    open spec fn view(&self) -> ChildView {
        ChildView { id: self.id, name: self.name@, is_dir: self.is_dir, size: self.size }
    }
}

impl Clone for Child {
    fn clone(&self) -> (r: Self)
        ensures
            r == *self,
    {
        Child { id: self.id, name: self.name.clone(), is_dir: self.is_dir, size: self.size }
    }
}

/// The views of a list of children.
pub open spec fn child_views(s: Seq<Child>) -> Seq<ChildView> {
    s.map_values(|c: Child| c@)
}

// ---------------------------------------------------------------------------
// Order
// ---------------------------------------------------------------------------

/// The order of texts, character by character.
pub open spec fn text_le(a: Seq<char>, b: Seq<char>) -> bool
    decreases a.len(),
{
    if a.len() == 0 {
        true
    } else if b.len() == 0 {
        false
    } else if a.first() != b.first() {
        a.first() < b.first()
    } else {
        text_le(a.drop_first(), b.drop_first())
    }
}

/// True when `a` does not come after `b`.
pub fn chars_le(a: &Vec<char>, b: &Vec<char>) -> (r: bool)
    ensures
        r == text_le(a@, b@),
{
    let mut i: usize = 0;
    assert(a@.skip(0) =~= a@);
    assert(b@.skip(0) =~= b@);
    while i < a.len()
        invariant
            i <= a.len(),
            i <= b.len(),
            text_le(a@, b@) == text_le(a@.skip(i as int), b@.skip(i as int)),
        decreases a.len() - i,
    {
        if i >= b.len() {
            return false;
        }
        if a[i] != b[i] {
            return a[i] < b[i];
        }
        assert(a@.skip(i as int).drop_first() =~= a@.skip(i + 1));
        assert(b@.skip(i as int).drop_first() =~= b@.skip(i + 1));
        i = i + 1;
    }
    true
}

/// The order of texts is total, and goes on from text to text.
pub proof fn lemma_text_le(a: Seq<char>, b: Seq<char>, c: Seq<char>)
    ensures
        text_le(a, a),
        text_le(a, b) || text_le(b, a),
        text_le(a, b) && text_le(b, c) ==> text_le(a, c),
    decreases a.len(),
{
    if a.len() > 0 {
        lemma_text_le(
            a.drop_first(),
            if b.len() > 0 {
                b.drop_first()
            } else {
                b
            },
            if c.len() > 0 {
                c.drop_first()
            } else {
                c
            },
        );
    }
}

/// What a child is sorted by.
pub open spec fn sort_key(c: ChildView) -> Seq<char> {
    lowercase_of(c.name)
}

/// `s` with `c` put behind the last child that does not come after it.
pub open spec fn inserted(s: Seq<ChildView>, c: ChildView) -> Seq<ChildView>
    decreases s.len(),
{
    if s.len() == 0 || text_le(sort_key(s.last()), sort_key(c)) {
        s.push(c)
    } else {
        inserted(s.drop_last(), c).push(s.last())
    }
}

/// The children sorted by name without regard to case. Children with the same
/// key stay in their order.
pub open spec fn sorted(s: Seq<ChildView>) -> Seq<ChildView>
    decreases s.len(),
{
    if s.len() == 0 {
        s
    } else {
        inserted(sorted(s.drop_last()), s.last())
    }
}

fn name_key(c: &Child) -> (r: Vec<char>)
    ensures
        r@ == sort_key(c@),
{
    let l = lowercase(c.name.as_str());
    chars_of(l.as_str())
}

/// The children after `i` moved one place on, and `c` at place `i`.
proof fn lemma_inserted_at(s: Seq<ChildView>, c: ChildView, i: int)
    requires
        0 <= i <= s.len(),
        i > 0 ==> text_le(sort_key(s[i - 1]), sort_key(c)),
        forall|j: int| i <= j < s.len() ==> !text_le(sort_key(#[trigger] s[j]), sort_key(c)),
    ensures
        inserted(s, c) == s.take(i).push(c) + s.skip(i),
    decreases s.len(),
{
    if i == s.len() {
        assert(inserted(s, c) =~= s.take(i).push(c) + s.skip(i));
    } else {
        let t = s.drop_last();
        assert(!text_le(sort_key(s[s.len() - 1]), sort_key(c)));
        lemma_inserted_at(t, c, i);
        assert(t.take(i) =~= s.take(i));
        assert(inserted(s, c) =~= s.take(i).push(c) + s.skip(i));
    }
}

/// Sorts children by name without regard to case.
pub fn sort_children(children: &Vec<Child>) -> (r: Vec<Child>)
    ensures
        child_views(r@) == sorted(child_views(children@)),
{
    let ghost all = child_views(children@);
    let mut out: Vec<Child> = Vec::new();
    let mut keys: Vec<Vec<char>> = Vec::new();
    let mut n: usize = 0;
    assert(all.take(0) =~= Seq::empty());
    assert(child_views(out@) =~= Seq::empty());
    while n < children.len()
        invariant
            n <= children.len(),
            all == child_views(children@),
            child_views(out@) == sorted(all.take(n as int)),
            keys.len() == out.len(),
            forall|j: int| 0 <= j < out.len() ==> (#[trigger] keys@[j])@ == sort_key(out@[j]@),
        decreases children.len() - n,
    {
        let ghost s = child_views(out@);
        let ghost keys0 = keys@;
        let ghost out0 = out@;
        let c = children[n].clone();
        let key = name_key(&c);
        let mut i: usize = out.len();
        while i > 0 && !chars_le(&keys[i - 1], &key)
            invariant
                i <= out.len(),
                keys.len() == out.len(),
                s == child_views(out@),
                key@ == sort_key(c@),
                forall|j: int| 0 <= j < out.len() ==> (#[trigger] keys@[j])@ == sort_key(out@[j]@),
                forall|j: int|
                    i <= j < s.len() ==> !text_le(sort_key(#[trigger] s[j]), sort_key(c@)),
            decreases i,
        {
            i = i - 1;
        }
        proof {
            if i > 0 {
                assert(s[i - 1] == out@[i - 1]@);
            }
            lemma_inserted_at(s, c@, i as int);
            assert(all.take(n + 1).drop_last() =~= all.take(n as int));
        }
        let ghost cv = c@;
        out.insert(i, c);
        keys.insert(i, key);
        proof {
            assert(child_views(out@) =~= s.take(i as int).push(cv) + s.skip(i as int));
            assert forall|j: int| 0 <= j < out.len() implies (#[trigger] keys@[j])@ == sort_key(
                out@[j]@,
            ) by {
                if j < i {
                    assert(keys@[j] == keys0[j]);
                    assert(out@[j] == out0[j]);
                } else if j > i {
                    assert(keys@[j] == keys0[j - 1]);
                    assert(out@[j] == out0[j - 1]);
                }
            }
        }
        n = n + 1;
    }
    assert(all.take(n as int) =~= all);
    out
}

// ---------------------------------------------------------------------------
// One entry per name
// ---------------------------------------------------------------------------

/// The children without those whose name is the name of the one kept before.
pub open spec fn deduped(s: Seq<ChildView>) -> Seq<ChildView>
    decreases s.len(),
{
    if s.len() == 0 {
        s
    } else {
        let kept = deduped(s.drop_last());
        if kept.len() > 0 && same_name_ci(s.last().name, kept.last().name) {
            kept
        } else {
            kept.push(s.last())
        }
    }
}

/// Keeps one child of each run of the same name, the first.
pub fn dedup_children(children: &Vec<Child>) -> (r: Vec<Child>)
    ensures
        child_views(r@) == deduped(child_views(children@)),
{
    let ghost all = child_views(children@);
    let mut out: Vec<Child> = Vec::new();
    let mut n: usize = 0;
    assert(all.take(0) =~= Seq::empty());
    assert(child_views(out@) =~= Seq::empty());
    while n < children.len()
        invariant
            n <= children.len(),
            all == child_views(children@),
            child_views(out@) == deduped(all.take(n as int)),
        decreases children.len() - n,
    {
        assert(all.take(n + 1).drop_last() =~= all.take(n as int));
        let ghost kept = child_views(out@);
        let same = out.len() > 0 && names_eq_ci(
            children[n].name.as_str(),
            out[out.len() - 1].name.as_str(),
        );
        if !same {
            let c = children[n].clone();
            assert(child_views(out@.push(c)) =~= kept.push(c@));
            out.push(c);
        }
        n = n + 1;
    }
    assert(all.take(n as int) =~= all);
    out
}

// ---------------------------------------------------------------------------
// Pages
// ---------------------------------------------------------------------------

/// The smaller of two numbers.
pub open spec fn smaller(a: int, b: int) -> int {
    if a <= b {
        a
    } else {
        b
    }
}

/// The page that starts behind `start` children and holds `max` at most.
pub open spec fn page(s: Seq<ChildView>, start: u64, max: nat) -> Seq<ChildView> {
    let skip = smaller(start as int, s.len() as int);
    s.subrange(skip, skip + smaller(max as int, s.len() - skip))
}

/// True when nothing comes after the page.
pub open spec fn is_last_page(s: Seq<ChildView>, start: u64, max: nat) -> bool {
    let skip = smaller(start as int, s.len() as int);
    skip + smaller(max as int, s.len() - skip) >= s.len()
}

/// The bounds of a page.
pub fn page_bounds(total: usize, start: u64, max: usize) -> (r: (usize, usize))
    ensures
        r.0 == smaller(start as int, total as int),
        r.1 == r.0 + smaller(max as int, total - r.0),
        r.0 <= r.1 <= total,
{
    let skip: usize = if start <= total as u64 {
        start as usize
    } else {
        total
    };
    let rest: usize = total - skip;
    let take: usize = if max <= rest {
        max
    } else {
        rest
    };
    (skip, skip + take)
}

// ---------------------------------------------------------------------------
// What holds of a listing
// ---------------------------------------------------------------------------

/// True when no child comes before one that it should follow.
pub open spec fn in_order(s: Seq<ChildView>) -> bool {
    forall|i: int, j: int|
        0 <= i <= j < s.len() ==> text_le(sort_key(#[trigger] s[i]), sort_key(#[trigger] s[j]))
}

proof fn lemma_inserted(s: Seq<ChildView>, c: ChildView)
    requires
        in_order(s),
    ensures
        in_order(inserted(s, c)),
        inserted(s, c).to_multiset() == s.to_multiset().insert(c),
        inserted(s, c).len() == s.len() + 1,
        forall|k: ChildView|
            in_order(s) && s.len() > 0 && text_le(sort_key(s.last()), sort_key(k)) && text_le(
                sort_key(c),
                sort_key(k),
            ) ==> text_le(sort_key(inserted(s, c).last()), #[trigger] sort_key(k)),
    decreases s.len(),
{
    broadcast use vstd::seq_lib::group_to_multiset_ensures;

    if s.len() == 0 || text_le(sort_key(s.last()), sort_key(c)) {
        let r = s.push(c);
        assert forall|i: int, j: int| 0 <= i <= j < r.len() implies text_le(
            sort_key(#[trigger] r[i]),
            sort_key(#[trigger] r[j]),
        ) by {
            if j < s.len() {
                assert(r[i] == s[i] && r[j] == s[j]);
            } else if i < s.len() {
                assert(r[i] == s[i]);
                assert(text_le(sort_key(s[i]), sort_key(s[s.len() - 1])));
                lemma_text_le(sort_key(s[i]), sort_key(s.last()), sort_key(c));
            } else {
                lemma_text_le(sort_key(c), sort_key(c), sort_key(c));
            }
        }
    } else {
        let t = s.drop_last();
        let l = s.last();
        assert(in_order(t)) by {
            assert forall|i: int, j: int| 0 <= i <= j < t.len() implies text_le(
                sort_key(#[trigger] t[i]),
                sort_key(#[trigger] t[j]),
            ) by {
                assert(t[i] == s[i] && t[j] == s[j]);
            }
        }
        lemma_inserted(t, c);
        let m = inserted(t, c);
        let r = m.push(l);
        lemma_text_le(sort_key(c), sort_key(l), sort_key(l));
        lemma_text_le(sort_key(l), sort_key(l), sort_key(l));
        assert(text_le(sort_key(m.last()), sort_key(l))) by {
            if t.len() > 0 {
                assert(t.last() == s[s.len() - 2]);
                assert(text_le(sort_key(s[s.len() - 2]), sort_key(s[s.len() - 1])));
            }
        }
        assert forall|i: int, j: int| 0 <= i <= j < r.len() implies text_le(
            sort_key(#[trigger] r[i]),
            sort_key(#[trigger] r[j]),
        ) by {
            if j < m.len() {
                assert(r[i] == m[i] && r[j] == m[j]);
            } else if i < m.len() {
                assert(r[i] == m[i]);
                assert(text_le(sort_key(m[i]), sort_key(m[m.len() - 1])));
                lemma_text_le(sort_key(m[i]), sort_key(m.last()), sort_key(l));
            }
        }
        assert(s =~= t.push(l));
        assert(r.to_multiset() =~= s.to_multiset().insert(c));
    }
}

/// A sorted listing is in order and holds the same children.
pub proof fn law_listing_is_sorted(s: Seq<ChildView>)
    ensures
        in_order(sorted(s)),
        sorted(s).to_multiset() == s.to_multiset(),
    decreases s.len(),
{
    broadcast use vstd::seq_lib::group_to_multiset_ensures;

    if s.len() > 0 {
        let t = s.drop_last();
        law_listing_is_sorted(t);
        lemma_inserted(sorted(t), s.last());
        assert(s =~= t.push(s.last()));
    }
}

/// Dropping repeated names keeps no two neighbours of the same name.
pub proof fn law_neighbours_have_different_names(s: Seq<ChildView>)
    ensures
        forall|i: int|
            0 < i < deduped(s).len() ==> !same_name_ci(
                (#[trigger] deduped(s)[i]).name,
                deduped(s)[i - 1].name,
            ),
        s.len() > 0 ==> deduped(s).len() > 0 && deduped(s).first() == s.first(),
    decreases s.len(),
{
    if s.len() > 0 {
        law_neighbours_have_different_names(s.drop_last());
        let d = deduped(s);
        let k = deduped(s.drop_last());
        if s.len() == 1 {
            assert(k.len() == 0);
            assert(d[0] == s[0]);
        } else {
            assert(d[0] == k[0]);
            assert(s.drop_last().first() == s.first());
        }
    }
}

/// The pages of a listing put together are the listing: a page followed by what
/// the page behind it starts is what the longer page holds, and a page that is
/// not the last one is full.
pub proof fn law_pages_cover_the_listing(s: Seq<ChildView>, start: u64, max: nat)
    requires
        start <= s.len(),
    ensures
        s.skip(start as int) == page(s, start, max) + s.skip(
            start + page(s, start, max).len(),
        ),
        !is_last_page(s, start, max) ==> page(s, start, max).len() == max,
        is_last_page(s, start, max) <==> start + page(s, start, max).len() == s.len(),
{
    let p = page(s, start, max);
    assert(s.skip(start as int) =~= p + s.skip(start + p.len()));
}

/// The first character in which two texts differ decides their order; a text
/// comes before every longer one that begins with it.
pub proof fn law_first_difference_decides(
    front: Seq<char>,
    a: char,
    b: char,
    s: Seq<char>,
    t: Seq<char>,
)
    requires
        a < b,
    ensures
        text_le(front.push(a) + s, front.push(b) + t),
        !text_le(front.push(b) + t, front.push(a) + s),
        text_le(front, front + s),
        s.len() > 0 ==> !text_le(front + s, front),
    decreases front.len(),
{
    let x = front.push(a) + s;
    let y = front.push(b) + t;
    if front.len() == 0 {
        assert(x.first() == a && y.first() == b);
        assert(front + s =~= s);
    } else {
        let rest = front.drop_first();
        law_first_difference_decides(rest, a, b, s, t);
        assert(x.drop_first() =~= rest.push(a) + s);
        assert(y.drop_first() =~= rest.push(b) + t);
        assert((front + s).drop_first() =~= rest + s);
        assert((front + s).first() == front.first());
    }
}

/// A listing is sorted by the names in small letters.
pub proof fn law_names_are_in_order(s: Seq<ChildView>, i: int, j: int)
    requires
        0 <= i <= j < sorted(s).len(),
    ensures
        text_le(lowercase_of(sorted(s)[i].name), lowercase_of(sorted(s)[j].name)),
{
    law_listing_is_sorted(s);
    if i == j {
        lemma_text_le(sort_key(sorted(s)[i]), sort_key(sorted(s)[i]), sort_key(sorted(s)[i]));
    }
}

} // verus!
