use pereprava::cache::MetaCache;
use pereprava::model::Entry;

fn entry(handle: u64, name: &str) -> Entry {
    Entry {
        handle,
        parent: 0,
        name: name.to_string(),
        is_dir: false,
        size: 1,
    }
}

#[test]
fn stores_and_returns_listing() {
    let mut c = MetaCache::new();
    c.store_listing(7, 0, vec![entry(1, "a.txt"), entry(2, "b.txt")]);
    let got = c.listing(7, 0).expect("listing miss");
    assert_eq!(got.len(), 2);
    assert_eq!(got[0].name, "a.txt");
}

#[test]
fn invalidation_drops_parent_listing() {
    let mut c = MetaCache::new();
    c.store_listing(7, 0, vec![entry(1, "a.txt")]);
    c.invalidate(7, 0);
    assert!(c.listing(7, 0).is_none());
}

#[test]
fn handle_delete_invalidates_the_real_parent() {
    let mut c = MetaCache::new();
    c.store_listing(7, 0, vec![entry(10, "DCIM")]);
    c.store_listing(7, 10, vec![entry(20, "a.jpg"), entry(21, "b.jpg")]);
    c.store_listing(7, 20, vec![entry(30, "c.jpg")]);

    // Deleting a.jpg must drop DCIM's listing, not the storage root.
    c.invalidate_handle(7, 20);
    assert!(
        c.listing(7, 10).is_none(),
        "the real parent must be dropped"
    );
    assert!(
        c.listing(7, 0).is_some(),
        "unrelated directories must survive"
    );
    assert!(c.listing(7, 20).is_some(), "a child's listing is unrelated");
}

#[test]
fn unknown_handle_falls_back_to_dropping_the_storage() {
    let mut c = MetaCache::new();
    c.store_listing(7, 0, vec![entry(10, "DCIM")]);
    // No listing ever revealed handle 99, so any directory could hold it.
    c.invalidate_handle(7, 99);
    assert!(c.listing(7, 0).is_none());
}

#[test]
fn parent_is_learned_from_the_listing_key() {
    // The device's own `parent` field is deliberately wrong here: the
    // directory we listed from is the fact we cache.
    let mut c = MetaCache::new();
    let mut e = entry(20, "a.jpg");
    e.parent = 999;
    c.store_listing(7, 10, vec![e]);
    assert_eq!(c.parent_of(7, 20), Some(10));
}

#[test]
fn unknown_storage_is_a_miss() {
    let c = MetaCache::new();
    assert!(c.listing(42, 0).is_none());
}

#[test]
fn a_listing_is_served_for_ten_seconds() {
    let mut c = MetaCache::new();
    c.store_listing_at(7, 0, vec![entry(1, "a.txt")], 5);
    assert!(c.listing_at(7, 0, 5 + 10_000_000_000).is_some());
    assert!(c.listing_at(7, 0, 6 + 10_000_000_000).is_none());
}

#[test]
fn the_oldest_listing_makes_room() {
    let mut c = MetaCache::new();
    for dir in 0..256u64 {
        c.store_listing_at(7, dir, vec![entry(1000 + dir, "x")], 100 + dir);
    }
    assert!(c.listing_at(7, 0, 400).is_some());
    c.store_listing_at(7, 5000, Vec::new(), 400);
    assert!(c.listing_at(7, 0, 400).is_none(), "the oldest one goes");
    assert!(c.listing_at(7, 1, 400).is_some());
    assert!(c.listing_at(7, 5000, 400).is_some());
    // A directory that has its place takes no other one's.
    c.store_listing_at(7, 1, Vec::new(), 401);
    assert!(c.listing_at(7, 2, 401).is_some());
}

#[test]
fn stale_listings_go_before_fresh_ones() {
    let mut c = MetaCache::new();
    for dir in 0..256u64 {
        c.store_listing_at(7, dir, Vec::new(), if dir == 9 { 0 } else { 20_000_000_000 });
    }
    c.store_listing_at(7, 5000, Vec::new(), 20_000_000_000);
    assert!(c.listing_at(7, 0, 20_000_000_000).is_some());
    assert!(c.listing_at(7, 9, 0).is_none());
}

#[test]
fn clearing_a_storage_leaves_the_others() {
    let mut c = MetaCache::new();
    c.store_listing(1, 0, vec![entry(1, "a")]);
    c.store_listing(2, 0, vec![entry(1, "a")]);
    c.clear_storage(1);
    assert!(c.listing(1, 0).is_none());
    assert_eq!(c.parent_of(1, 1), None);
    assert!(c.listing(2, 0).is_some());
}
