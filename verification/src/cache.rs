//! Metadata cache: directory listings per storage, each with its age.
//!
//! Operations that change a directory drop its listing at once. Times are
//! nanoseconds since the cache was made.

use std::collections::HashMap;

use vstd::prelude::*;
use vstd::std_specs::iter::IteratorSpec;

use crate::model::Entry;

verus! {

/// How long a listing stays fresh, in nanoseconds.
pub const LIST_TTL: u64 = 10_000_000_000;

/// Upper bound on the listings kept per storage.
pub const MAX_LISTINGS: usize = 256;

/// The clock of the standard library.
#[verifier::external_type_specification]
#[verifier::external_body]
pub struct ExInstant(std::time::Instant);

/// `std::time::Instant::now`. Nothing is claimed of the reading.
#[verifier::external_body]
pub(crate) fn clock() -> (r: std::time::Instant) {
    std::time::Instant::now()
}

/// `std::time::Instant::elapsed`, in nanoseconds. Nothing is claimed of the
/// reading.
#[verifier::external_body]
pub(crate) fn nanos_since(start: &std::time::Instant) -> (r: u64) {
    u64::try_from(start.elapsed().as_nanos()).unwrap_or(u64::MAX)
}

/// A directory listing and the time at which it was fetched.
#[derive(Debug)]
struct Listing {
    fetched_at: u64,
    children: Vec<Entry>,
}

/// What is known of one storage.
#[derive(Debug)]
struct StorageCache {
    listings: HashMap<u64, Listing>,
    /// Child handle to the directory it was listed from: the directory that was
    /// asked about, not the parent that the device claims.
    parents: HashMap<u64, u64>,
}

/// Metadata cache, by storage id and then by object handle.
#[derive(Debug)]
pub struct MetaCache {
    origin: std::time::Instant,
    storages: HashMap<u32, StorageCache>,
}

/// A listing: when it was fetched, and what it held.
pub struct ListingView {
    pub at: u64,
    pub children: Seq<Entry>,
}

/// What is known of one storage.
pub struct StorageView {
    /// The listings, by directory.
    pub listings: Map<u64, ListingView>,
    /// The directory in which each handle was last seen.
    pub parents: Map<u64, u64>,
}

/// What the cache holds, by storage id.
pub type CacheView = Map<u32, StorageView>;

impl View for Listing {
    type V = ListingView;

    closed spec fn view(&self) -> ListingView {
        ListingView { at: self.fetched_at, children: self.children@ }
    }
}

impl View for StorageCache {
    type V = StorageView;

    closed spec fn view(&self) -> StorageView {
        StorageView {
            listings: self.listings@.map_values(|l: Listing| l@),
            parents: self.parents@,
        }
    }
}

impl View for MetaCache {
    type V = CacheView;

    closed spec fn view(&self) -> CacheView {
        self.storages@.map_values(|s: StorageCache| s@)
    }
}

/// True when something fetched at `at` is still fresh at `now`.
pub open spec fn is_fresh(at: u64, now: u64) -> bool {
    now - at <= LIST_TTL
}

/// The listing of `dir` that the cache serves at `now`.
pub open spec fn fresh_listing(c: CacheView, storage_id: u32, dir: u64, now: u64) -> Option<
    Seq<Entry>,
> {
    if c.contains_key(storage_id) && c[storage_id].listings.contains_key(dir) && is_fresh(
        c[storage_id].listings[dir].at,
        now,
    ) {
        Some(c[storage_id].listings[dir].children)
    } else {
        None
    }
}

/// The directory in which `handle` was last seen.
pub open spec fn known_parent(c: CacheView, storage_id: u32, handle: u64) -> Option<u64> {
    if c.contains_key(storage_id) && c[storage_id].parents.contains_key(handle) {
        Some(c[storage_id].parents[handle])
    } else {
        None
    }
}

/// What is known of a storage; nothing when it is not in the cache.
pub open spec fn storage_of(c: CacheView, storage_id: u32) -> StorageView {
    if c.contains_key(storage_id) {
        c[storage_id]
    } else {
        StorageView { listings: Map::empty(), parents: Map::empty() }
    }
}

/// The listings that are still fresh at `now`.
pub open spec fn pruned(m: Map<u64, ListingView>, now: u64) -> Map<u64, ListingView> {
    m.restrict(m.dom().filter(|k: u64| is_fresh(m[k].at, now)))
}

/// True when `k` is the listing to give up: the one fetched first and, of
/// several fetched at the same time, the one with the smallest handle.
pub open spec fn is_oldest(m: Map<u64, ListingView>, k: u64) -> bool {
    &&& m.contains_key(k)
    &&& forall|j: u64| #[trigger]
        m.contains_key(j) ==> m[k].at < m[j].at || (m[k].at == m[j].at && k <= j)
}

/// The listings with room for one of `dir`: at the limit the oldest one goes,
/// unless `dir` has a place already.
pub open spec fn with_room(m: Map<u64, ListingView>, dir: u64) -> Map<u64, ListingView> {
    if m.len() >= MAX_LISTINGS && !m.contains_key(dir) {
        m.remove(choose|k: u64| is_oldest(m, k))
    } else {
        m
    }
}

/// True when one of `children` has the handle `h`.
pub open spec fn lists_handle(children: Seq<Entry>, h: u64) -> bool {
    exists|i: int| 0 <= i < children.len() && (#[trigger] children[i]).handle == h
}

/// The known parents after a listing of `dir` showed `children`.
pub open spec fn learned(parents: Map<u64, u64>, children: Seq<Entry>, dir: u64) -> Map<u64, u64> {
    Map::new(
        |h: u64| parents.contains_key(h) || lists_handle(children, h),
        |h: u64|
            if lists_handle(children, h) {
                dir
            } else {
                parents[h]
            },
    )
}

/// The cache after a listing of `dir` was stored at `now`.
pub open spec fn stored(
    c: CacheView,
    storage_id: u32,
    dir: u64,
    children: Seq<Entry>,
    now: u64,
) -> CacheView {
    let st = storage_of(c, storage_id);
    c.insert(
        storage_id,
        StorageView {
            listings: with_room(pruned(st.listings, now), dir).insert(
                dir,
                ListingView { at: now, children },
            ),
            parents: learned(st.parents, children, dir),
        },
    )
}

/// The cache after the listing of `parent` was dropped.
pub open spec fn dropped(c: CacheView, storage_id: u32, parent: u64) -> CacheView {
    if c.contains_key(storage_id) {
        c.insert(
            storage_id,
            StorageView {
                listings: c[storage_id].listings.remove(parent),
                parents: c[storage_id].parents,
            },
        )
    } else {
        c
    }
}

/// The cache after the object `handle` changed: the listing of the directory
/// that held it is dropped, or everything about the storage when that directory
/// is not known.
pub open spec fn dropped_handle(c: CacheView, storage_id: u32, handle: u64) -> CacheView {
    match known_parent(c, storage_id, handle) {
        Some(parent) => dropped(c, storage_id, parent),
        None => c.remove(storage_id),
    }
}

/// The keys of a map, each once.
pub(crate) fn map_keys<V>(m: &HashMap<u64, V>) -> (r: Vec<u64>)
    ensures
        r@.no_duplicates(),
        forall|k: u64| r@.contains(k) <==> #[trigger] m@.contains_key(k),
        r@.len() == m@.len(),
{
    broadcast use vstd::std_specs::hash::group_hash_axioms;

    let mut out: Vec<u64> = Vec::new();
    let keys = m.keys();
    let ghost all = keys.remaining().unref();
    assert(all.to_set() == m@.dom());
    for k in it: keys
        invariant
            it.seq().unref() == all,
            out@ == all.take(it.index() as int),
    {
        out.push(*k);
    }
    assert(out@ =~= all);
    assert forall|k: u64| out@.contains(k) <==> #[trigger] m@.contains_key(k) by {
        assert(all.to_set().contains(k) == all.contains(k));
    }
    assert(all.no_duplicates());
    out
}

impl MetaCache {
    /// Creates an empty cache.
    #[must_use]
    pub fn new() -> (r: Self)
        ensures
            r@ == Map::<u32, StorageView>::empty(),
    {
        let r = MetaCache { origin: clock(), storages: HashMap::new() };
        assert(r@ =~= Map::<u32, StorageView>::empty());
        r
    }

    /// The time on the clock of the cache.
    pub fn now(&self) -> (r: u64) {
        nanos_since(&self.origin)
    }

    /// The listing of `dir`, if it is fresh at `now`.
    #[must_use]
    pub fn listing_at(&self, storage_id: u32, dir: u64, now: u64) -> (r: Option<&Vec<Entry>>)
        ensures
            match r {
                Some(l) => fresh_listing(self@, storage_id, dir, now) == Some(l@),
                None => fresh_listing(self@, storage_id, dir, now) is None,
            },
    {
        broadcast use vstd::std_specs::hash::group_hash_axioms;

        match self.storages.get(&storage_id) {
            None => None,
            Some(st) => {
                assert(self@[storage_id] == st@);
                match st.listings.get(&dir) {
                    None => None,
                    Some(l) => {
                        assert(st@.listings[dir] == l@);
                        if now > l.fetched_at && now - l.fetched_at > LIST_TTL {
                            None
                        } else {
                            Some(&l.children)
                        }
                    },
                }
            },
        }
    }

    /// The listing of `dir`, if it is fresh.
    #[must_use]
    pub fn listing(&self, storage_id: u32, dir: u64) -> (r: Option<&Vec<Entry>>)
        ensures
            exists|now: u64|
                #![trigger fresh_listing(self@, storage_id, dir, now)]
                match r {
                    Some(l) => fresh_listing(self@, storage_id, dir, now) == Some(l@),
                    None => fresh_listing(self@, storage_id, dir, now) is None,
                },
    {
        let now = self.now();
        self.listing_at(storage_id, dir, now)
    }

    /// Stores the listing of `dir` fetched at `now`. Stale listings go first;
    /// at the limit the oldest one goes too.
    pub fn store_listing_at(
        &mut self,
        storage_id: u32,
        dir: u64,
        children: Vec<Entry>,
        now: u64,
    )
        ensures
            final(self)@ == stored(old(self)@, storage_id, dir, children@, now),
    {
        broadcast use vstd::std_specs::hash::group_hash_axioms;

        let ghost before = self@;
        let ghost was = self.storages@;
        let taken = self.storages.remove(&storage_id);
        let mut st = match taken {
            Some(s) => s,
            None => StorageCache { listings: HashMap::new(), parents: HashMap::new() },
        };
        assert(st@.listings =~= storage_of(before, storage_id).listings);
        assert(st@.parents =~= storage_of(before, storage_id).parents);
        st.prune(now);
        st.make_room(dir);
        st.learn(&children, dir);
        let ghost kept = st@;
        let ghost l = Listing { fetched_at: now, children };
        st.listings.insert(dir, Listing { fetched_at: now, children });
        assert(st@.listings =~= kept.listings.insert(dir, l@));
        let ghost full = st;
        self.storages.insert(storage_id, st);
        assert(self@ =~= before.insert(storage_id, full@));
    }

    /// Stores the listing of `dir`, just fetched.
    pub fn store_listing(&mut self, storage_id: u32, dir: u64, children: Vec<Entry>)
        ensures
            exists|now: u64|
                final(self)@ == #[trigger] stored(old(self)@, storage_id, dir, children@, now),
    {
        let now = self.now();
        self.store_listing_at(storage_id, dir, children, now);
    }

    /// The directory in which `handle` was last seen.
    #[must_use]
    pub fn parent_of(&self, storage_id: u32, handle: u64) -> (r: Option<u64>)
        ensures
            r == known_parent(self@, storage_id, handle),
    {
        broadcast use vstd::std_specs::hash::group_hash_axioms;

        match self.storages.get(&storage_id) {
            None => None,
            Some(st) => {
                assert(self@[storage_id] == st@);
                match st.parents.get(&handle) {
                    None => None,
                    Some(p) => Some(*p),
                }
            },
        }
    }

    /// Drops the listing of `parent`, whose contents changed.
    pub fn invalidate(&mut self, storage_id: u32, parent: u64)
        ensures
            final(self)@ == dropped(old(self)@, storage_id, parent),
    {
        broadcast use vstd::std_specs::hash::group_hash_axioms;

        let ghost before = self@;
        let ghost was = self.storages@;
        let taken = self.storages.remove(&storage_id);
        match taken {
            None => {
                assert(self@ =~= before);
            },
            Some(mut st) => {
                let ghost first = st;
                st.listings.remove(&parent);
                assert(st@.listings =~= first@.listings.remove(parent));
                let ghost full = st;
                self.storages.insert(storage_id, st);
                assert(self@ =~= before.insert(storage_id, full@));
            },
        }
    }

    /// Drops the listing of the directory that held `handle`. When no listing
    /// ever showed it, any directory of the storage may be the stale one, and
    /// all of them go.
    pub fn invalidate_handle(&mut self, storage_id: u32, handle: u64)
        ensures
            final(self)@ == dropped_handle(old(self)@, storage_id, handle),
    {
        match self.parent_of(storage_id, handle) {
            Some(parent) => self.invalidate(storage_id, parent),
            None => self.clear_storage(storage_id),
        }
    }

    /// Drops everything known of a storage.
    pub fn clear_storage(&mut self, storage_id: u32)
        ensures
            final(self)@ == old(self)@.remove(storage_id),
    {
        broadcast use vstd::std_specs::hash::group_hash_axioms;

        let ghost before = self@;
        self.storages.remove(&storage_id);
        assert(self@ =~= before.remove(storage_id));
    }
}

impl StorageCache {
    /// Drops the listings that are no longer fresh.
    fn prune(&mut self, now: u64)
        ensures
            final(self)@.listings == pruned(old(self)@.listings, now),
            final(self)@.parents == old(self)@.parents,
    {
        broadcast use vstd::std_specs::hash::group_hash_axioms;

        let ghost all = self@.listings;
        let keys = map_keys(&self.listings);
        let mut i: usize = 0;
        while i < keys.len()
            invariant
                i <= keys.len(),
                keys@.no_duplicates(),
                forall|k: u64| keys@.contains(k) <==> #[trigger] all.contains_key(k),
                all == old(self)@.listings,
                self@.parents == old(self)@.parents,
                forall|k: u64| #[trigger]
                    self@.listings.contains_key(k) <==> all.contains_key(k) && (is_fresh(
                        all[k].at,
                        now,
                    ) || !keys@.take(i as int).contains(k)),
                forall|k: u64| #[trigger]
                    self@.listings.contains_key(k) ==> self@.listings[k] == all[k],
            decreases keys.len() - i,
        {
            broadcast use vstd::std_specs::hash::group_hash_axioms;

            let k = keys[i];
            let ghost before = self@.listings;
            assert(keys@.contains(k));
            assert(!keys@.take(i as int).contains(k));
            assert(before.contains_key(k));
            let stale = match self.listings.get(&k) {
                None => false,
                Some(l) => {
                    assert(before[k] == l@);
                    now > l.fetched_at && now - l.fetched_at > LIST_TTL
                },
            };
            if stale {
                self.listings.remove(&k);
                assert(self@.listings =~= before.remove(k));
            }
            assert(keys@.take(i + 1) =~= keys@.take(i as int).push(k));
            assert forall|j: u64|
                keys@.take(i + 1).contains(j) <==> keys@.take(i as int).contains(j) || j == k by {
                let t = keys@.take(i as int);
                if t.contains(j) {
                    let x = choose|x: int| 0 <= x < t.len() && t[x] == j;
                    assert(keys@.take(i + 1)[x] == j);
                }
                assert(keys@.take(i + 1)[i as int] == k);
            }
            i = i + 1;
        }
        assert(keys@.take(i as int) =~= keys@);
        assert(self@.listings =~= pruned(all, now));
    }

    /// Gives up the oldest listing when the limit is reached and `dir` has no
    /// place yet.
    fn make_room(&mut self, dir: u64)
        ensures
            final(self)@.listings == with_room(old(self)@.listings, dir),
            final(self)@.parents == old(self)@.parents,
    {
        broadcast use vstd::std_specs::hash::group_hash_axioms;

        let ghost all = self@.listings;
        assert(all.dom() =~= self.listings@.dom());
        if self.listings.len() >= MAX_LISTINGS && !self.listings.contains_key(&dir) {
            let keys = map_keys(&self.listings);
            assert(keys@.len() == all.len());
            let mut best: u64 = keys[0];
            let mut best_at: u64 = match self.listings.get(&best) {
                Some(l) => l.fetched_at,
                None => 0,
            };
            assert(keys@.contains(keys@[0]));
            assert(all.contains_key(best));
            assert(all[best].at == best_at);
            let mut i: usize = 1;
            while i < keys.len()
                invariant
                    1 <= i <= keys.len(),
                    forall|k: u64| keys@.contains(k) <==> #[trigger] all.contains_key(k),
                    all == self@.listings,
                    all.contains_key(best),
                    all[best].at == best_at,
                    forall|j: int|
                        0 <= j < i ==> best_at < all[#[trigger] keys@[j]].at || (best_at
                            == all[keys@[j]].at && best <= keys@[j]),
                decreases keys.len() - i,
            {
                broadcast use vstd::std_specs::hash::group_hash_axioms;

                let k = keys[i];
                assert(keys@.contains(k));
                assert(all.contains_key(k));
                let at: u64 = match self.listings.get(&k) {
                    Some(l) => l.fetched_at,
                    None => 0,
                };
                assert(all[k].at == at);
                if at < best_at || (at == best_at && k < best) {
                    best = k;
                    best_at = at;
                }
                i = i + 1;
            }
            assert(is_oldest(all, best)) by {
                assert forall|j: u64| #[trigger] all.contains_key(j) implies all[best].at
                    < all[j].at || (all[best].at == all[j].at && best <= j) by {
                    assert(keys@.contains(j));
                    let x = choose|x: int| 0 <= x < keys@.len() && keys@[x] == j;
                    assert(keys@[x] == j);
                }
            }
            assert forall|k: u64| is_oldest(all, k) implies k == best by {
                assert(all.contains_key(k));
                assert(all.contains_key(best));
            }
            self.listings.remove(&best);
            assert(self@.listings =~= all.remove(best));
        } else {
            assert(all.contains_key(dir) == self.listings@.contains_key(dir));
        }
    }

    /// Learns in which directory `children` were seen.
    fn learn(&mut self, children: &Vec<Entry>, dir: u64)
        ensures
            final(self)@.listings == old(self)@.listings,
            final(self)@.parents == learned(old(self)@.parents, children@, dir),
    {
        broadcast use vstd::std_specs::hash::group_hash_axioms;

        let ghost first = self@.parents;
        let mut i: usize = 0;
        assert(self@.parents =~= learned(first, children@.take(0), dir));
        while i < children.len()
            invariant
                i <= children.len(),
                first == old(self)@.parents,
                self@.listings == old(self)@.listings,
                self@.parents == learned(first, children@.take(i as int), dir),
            decreases children.len() - i,
        {
            broadcast use vstd::std_specs::hash::group_hash_axioms;

            let h = children[i].handle;
            let ghost before = self@.parents;
            self.parents.insert(h, dir);
            assert(self@.parents =~= before.insert(h, dir));
            let ghost t = children@.take(i as int);
            let ghost u = children@.take(i + 1);
            assert forall|x: u64| lists_handle(u, x) <==> lists_handle(t, x) || x == h by {
                if lists_handle(t, x) {
                    let j = choose|j: int| 0 <= j < t.len() && (#[trigger] t[j]).handle == x;
                    assert(u[j].handle == x);
                }
                assert(u[i as int].handle == h);
                if lists_handle(u, x) {
                    let j = choose|j: int| 0 <= j < u.len() && (#[trigger] u[j]).handle == x;
                    if j < i {
                        assert(t[j].handle == x);
                    }
                }
            }
            assert(before.insert(h, dir) =~= learned(first, u, dir));
            i = i + 1;
        }
        assert(children@.take(i as int) =~= children@);
    }
}

// ---------------------------------------------------------------------------
// What holds of the cache as a whole
// ---------------------------------------------------------------------------

/// A listing that was stored is served as it was stored, until it is stale.
pub proof fn law_stored_listing_is_served(
    c: CacheView,
    storage_id: u32,
    dir: u64,
    children: Seq<Entry>,
    at: u64,
    now: u64,
)
    ensures
        fresh_listing(stored(c, storage_id, dir, children, at), storage_id, dir, now) == if is_fresh(
            at,
            now,
        ) {
            Some(children)
        } else {
            None
        },
{
}

/// Once dropped, the listing of a directory is not served again, and every
/// other listing is served as before.
pub proof fn law_dropped_listing_is_gone(c: CacheView, storage_id: u32, parent: u64, now: u64)
    ensures
        fresh_listing(dropped(c, storage_id, parent), storage_id, parent, now) is None,
        forall|s: u32, d: u64|
            (s != storage_id || d != parent) ==> #[trigger] fresh_listing(
                dropped(c, storage_id, parent),
                s,
                d,
                now,
            ) == fresh_listing(c, s, d, now),
{
}

/// After an object changed, no listing that held it is served: its directory is
/// listed anew, whether or not the cache knew which one it is.
pub proof fn law_changed_object_is_not_served(
    c: CacheView,
    storage_id: u32,
    dir: u64,
    handle: u64,
    now: u64,
)
    requires
        known_parent(c, storage_id, handle) is None || known_parent(c, storage_id, handle) == Some(
            dir,
        ),
    ensures
        fresh_listing(dropped_handle(c, storage_id, handle), storage_id, dir, now) is None,
{
}

/// The parent of a handle is the directory whose listing showed it last,
/// whatever parent the device claimed.
pub proof fn law_parent_is_the_listed_directory(
    c: CacheView,
    storage_id: u32,
    dir: u64,
    children: Seq<Entry>,
    now: u64,
    i: int,
)
    requires
        0 <= i < children.len(),
    ensures
        known_parent(
            stored(c, storage_id, dir, children, now),
            storage_id,
            children[i].handle,
        ) == Some(dir),
{
    assert(lists_handle(children, children[i].handle));
}

/// True when every storage keeps at most [`MAX_LISTINGS`] listings.
pub open spec fn bounded(c: CacheView) -> bool {
    forall|s: u32| #[trigger]
        c.contains_key(s) ==> c[s].listings.dom().finite() && c[s].listings.len() <= MAX_LISTINGS
}

/// The cache does not grow without bound: every operation keeps the limit on
/// the listings of each storage.
pub proof fn law_cache_stays_bounded(
    c: CacheView,
    storage_id: u32,
    dir: u64,
    children: Seq<Entry>,
    now: u64,
)
    requires
        bounded(c),
    ensures
        bounded(Map::empty()),
        bounded(stored(c, storage_id, dir, children, now)),
        bounded(dropped(c, storage_id, dir)),
        bounded(dropped_handle(c, storage_id, dir)),
        bounded(c.remove(storage_id)),
{
    let st = storage_of(c, storage_id);
    let p = pruned(st.listings, now);
    assert(st.listings.dom().finite() && st.listings.len() <= MAX_LISTINGS);
    assert(p.dom() =~= st.listings.dom().filter(|k: u64| is_fresh(st.listings[k].at, now)));
    vstd::set_lib::lemma_len_subset(p.dom(), st.listings.dom());
    let w = with_room(p, dir);
    if p.len() >= MAX_LISTINGS && !p.contains_key(dir) {
        assert(p.dom().len() > 0);
        lemma_some_oldest(p);
        let k = choose|k: u64| is_oldest(p, k);
        assert(is_oldest(p, k));
        assert(w.dom() =~= p.dom().remove(k));
    }
    let l = w.insert(dir, ListingView { at: now, children });
    assert(l.dom() =~= w.dom().insert(dir));
    let d = dropped(c, storage_id, dir);
    assert forall|s: u32| #[trigger] d.contains_key(s) implies d[s].listings.dom().finite()
        && d[s].listings.len() <= MAX_LISTINGS by {
        assert(c.contains_key(s));
        if s == storage_id {
            assert(d[s].listings.dom() =~= c[s].listings.dom().remove(dir));
        }
    }
    match known_parent(c, storage_id, dir) {
        Some(q) => {
            let e = dropped(c, storage_id, q);
            assert forall|s: u32| #[trigger] e.contains_key(s) implies e[s].listings.dom().finite()
                && e[s].listings.len() <= MAX_LISTINGS by {
                assert(c.contains_key(s));
                if s == storage_id {
                    assert(e[s].listings.dom() =~= c[s].listings.dom().remove(q));
                }
            }
        },
        None => {},
    }
}

proof fn lemma_some_oldest(m: Map<u64, ListingView>)
    requires
        m.dom().finite(),
        m.dom().len() > 0,
    ensures
        exists|k: u64| is_oldest(m, k),
    decreases m.dom().len(),
{
    let x = m.dom().choose();
    assert(m.dom().contains(x));
    let rest = m.remove(x);
    assert(rest.dom() =~= m.dom().remove(x));
    if rest.dom().len() == 0 {
        assert forall|j: u64| #[trigger] m.contains_key(j) implies m[x].at < m[j].at || (m[x].at
            == m[j].at && x <= j) by {
            if j != x {
                assert(rest.dom().contains(j));
                assert(rest.dom() =~= Set::empty());
            }
        }
        assert(is_oldest(m, x));
    } else {
        lemma_some_oldest(rest);
        let y = choose|k: u64| is_oldest(rest, k);
        let best = if m[x].at < m[y].at || (m[x].at == m[y].at && x <= y) {
            x
        } else {
            y
        };
        assert forall|j: u64| #[trigger] m.contains_key(j) implies m[best].at < m[j].at || (
        m[best].at == m[j].at && best <= j) by {
            if j != x {
                assert(rest.contains_key(j));
            }
        }
        assert(is_oldest(m, best));
    }
}

/// A listing is served for ten seconds after it was stored, and not after that.
pub proof fn law_listings_are_served_for_ten_seconds(
    c: CacheView,
    storage_id: u32,
    dir: u64,
    children: Seq<Entry>,
    at: u64,
    now: u64,
)
    ensures
        fresh_listing(stored(c, storage_id, dir, children, at), storage_id, dir, now) == if now - at
            <= 10_000_000_000 {
            Some(children)
        } else {
            None
        },
{
}

/// Room for a new listing is made at the expense of the oldest one: of two
/// listings that are still fresh the older one goes first, and none goes while
/// there are fewer than 256 of them.
pub proof fn law_older_listings_go_first(
    c: CacheView,
    storage_id: u32,
    dir: u64,
    children: Seq<Entry>,
    now: u64,
    older: u64,
    newer: u64,
)
    requires
        bounded(c),
        c.contains_key(storage_id),
        c[storage_id].listings.contains_key(older),
        c[storage_id].listings.contains_key(newer),
        c[storage_id].listings[older].at < c[storage_id].listings[newer].at,
        fresh_listing(c, storage_id, older, now) is Some,
        older != dir,
        newer != dir,
    ensures
        fresh_listing(stored(c, storage_id, dir, children, now), storage_id, newer, now)
            == fresh_listing(c, storage_id, newer, now),
        c[storage_id].listings.len() < 256 ==> fresh_listing(
            stored(c, storage_id, dir, children, now),
            storage_id,
            older,
            now,
        ) == fresh_listing(c, storage_id, older, now),
{
    let m = c[storage_id].listings;
    let p = pruned(m, now);
    assert(p.dom() =~= m.dom().filter(|k: u64| is_fresh(m[k].at, now)));
    vstd::set_lib::lemma_len_subset(p.dom(), m.dom());
    assert(p.contains_key(older) && p.contains_key(newer));
    if p.len() >= MAX_LISTINGS && !p.contains_key(dir) {
        lemma_some_oldest(p);
        let k = choose|k: u64| is_oldest(p, k);
        assert(is_oldest(p, k));
        assert(k != newer);
    }
}

} // verus!
