use pereprava::commands::{
    check_parent, check_path, created_line, deleted_line, destination, info_lines, is_same_parent,
    local_name, ls_lines, mv_moved, mv_resolved, mv_start, pulled_line, push_dir, pushed_line,
    report_tree, split_device_parent_leaf, upload_over, MvStep, Problem, Upload,
};
use pereprava::error::Error;
use pereprava::model::{DeviceSummary, Entry, Resolved, StorageSummary};
use pereprava::ops::TreeStats;

#[test]
fn malformed_paths_are_refused_before_any_device_access() {
    for bad in ["/1/./DCIM", "/1/../etc", "/a/.", "/a/\u{0}b"] {
        assert!(check_path(bad).is_err(), "`{bad}` must be refused");
    }
    for good in ["/1/DCIM", "/Internal shared storage/Camera", "/", ""] {
        assert!(check_path(good).is_ok(), "`{good}` must be accepted");
    }
}

#[test]
fn splits_parent_and_leaf() {
    let (p, l) = split_device_parent_leaf("/Internal storage/DCIM/a.jpg").expect("should split");
    assert_eq!(p, "/Internal storage/DCIM");
    assert_eq!(l, "a.jpg");
}

#[test]
fn storage_root_has_no_leaf() {
    assert!(split_device_parent_leaf("/storage").is_none());
}

#[test]
fn paths_without_a_leaf_do_not_split() {
    for p in ["", "/", "name", "/a/b/", "  /x  "] {
        assert!(split_device_parent_leaf(p).is_none(), "{p}");
    }
    assert_eq!(
        split_device_parent_leaf("  a/b "),
        Some(("a".to_string(), "b".to_string()))
    );
}

fn entry(handle: u64, parent: u64, name: &str, is_dir: bool) -> Entry {
    Entry { handle, parent, name: name.to_string(), is_dir, size: 1 }
}

fn resolved(storage_index: usize, handle: u64, parent: u64) -> Resolved {
    Resolved { storage_index, handle, entry: entry(handle, parent, "f.bin", false) }
}

#[test]
fn same_directory_on_same_storage_is_detected() {
    let src = resolved(0, 10, 7);
    let dst = resolved(0, 7, 0);
    assert!(is_same_parent(&src, &dst));
}

#[test]
fn identical_handles_on_different_storages_are_not_the_same_directory() {
    let src = resolved(0, 10, 7);
    let dst = resolved(1, 7, 0);
    assert!(!is_same_parent(&src, &dst));
}

#[test]
fn a_different_directory_on_the_same_storage_is_not_the_parent() {
    let src = resolved(0, 10, 7);
    let dst = resolved(0, 9, 0);
    assert!(!is_same_parent(&src, &dst));
}

#[test]
fn destinations_of_moves() {
    assert_eq!(
        destination("/1/a/b.txt", "c.txt"),
        Ok(("/1/a".to_string(), "c.txt".to_string()))
    );
    assert_eq!(destination("/1/a/b/", "c"), Ok(("/1/a".to_string(), "c".to_string())));
    assert_eq!(destination("/1/x", "/1/y/z"), Ok(("/1/y".to_string(), "z".to_string())));
    assert_eq!(
        destination("x", "y"),
        Err("source must be an absolute device path like /storage/file".to_string())
    );
    assert_eq!(
        destination("/x", "y"),
        Err("source parent cannot be the device root".to_string())
    );
    assert_eq!(
        destination("/1/x", "/y"),
        Err("destination must look like <storage>/.../<name>".to_string())
    );
}

/// A device with the directories `/1/a` (handle 7) and `/1/b` (handle 9), and
/// `/2/b` with the handle 7 on another storage.
fn look(path: &str) -> Result<Resolved, Error> {
    let dir = |storage_index: usize, handle: u64| Resolved {
        storage_index,
        handle,
        entry: entry(handle, 0, "dir", true),
    };
    match path {
        "/1/a" => Ok(dir(0, 7)),
        "/1/b" => Ok(dir(0, 9)),
        "/2/b" => Ok(dir(1, 7)),
        "/1/a/f.bin" => Ok(resolved(0, 10, 7)),
        "/1/b/old" => Ok(resolved(0, 11, 9)),
        _ => Err(Error::NotFound(path.to_string())),
    }
}

fn mv(from: &str, to: &str) -> (Vec<String>, Result<String, Problem>) {
    let mut trace = Vec::new();
    let mut step = mv_start(to);
    loop {
        step = match step {
            MvStep::Resolve(p, at) => {
                let r = look(&p);
                mv_resolved(from, to, at, r)
            }
            MvStep::Move(dir, at) => {
                trace.push(format!("move {from} {dir}"));
                mv_moved(to, at, Ok(entry(10, 0, "f.bin", false)))
            }
            MvStep::Rename(path, name, at) => {
                trace.push(format!("rename {path} {name}"));
                mv_moved(to, at, Ok(entry(10, 0, &name, false)))
            }
            MvStep::Done(t) => return (trace, Ok(t)),
            MvStep::Failed(p) => return (trace, Err(p)),
        }
    }
}

#[test]
fn a_move_goes_into_a_directory() {
    let (t, r) = mv("/1/a/f.bin", "/1/b");
    assert_eq!(t, ["move /1/a/f.bin /1/b"]);
    assert_eq!(r.unwrap(), "moved -> /1/b/f.bin");
}

#[test]
fn a_bare_name_renames_in_place() {
    let (t, r) = mv("/1/a/f.bin", "g.bin");
    assert_eq!(t, ["rename /1/a/f.bin g.bin"]);
    assert_eq!(r.unwrap(), "renamed -> g.bin");
    let (t, r) = mv("/1/a/f.bin", "f.bin");
    assert!(t.is_empty(), "the name is the same");
    assert_eq!(r.unwrap(), "renamed -> f.bin");
}

#[test]
fn a_move_to_a_new_path_moves_and_renames() {
    let (t, r) = mv("/1/a/f.bin", "/1/b/g.bin");
    assert_eq!(t, ["move /1/a/f.bin /1/b", "rename /1/b/f.bin g.bin"]);
    assert_eq!(r.unwrap(), "moved+renamed -> /1/b/g.bin");
    let (t, _) = mv("/1/a/f.bin", "/1/b/f.bin");
    assert_eq!(t, ["move /1/a/f.bin /1/b"]);
    let (t, _) = mv("/1/a/f.bin", "/2/b/g.bin");
    assert_eq!(t[0], "move /1/a/f.bin /2/b", "the same handle on another storage");
}

#[test]
fn a_move_is_refused_where_it_makes_no_sense() {
    let refused = |from: &str, to: &str| match mv(from, to) {
        (t, Err(Problem::Refused(e))) => {
            assert!(t.is_empty());
            e
        }
        other => panic!("{other:?}"),
    };
    assert_eq!(refused("/1/a/f.bin", "/1/b/old"), "target /1/b/old already exists");
    assert_eq!(refused("/1/a/f.bin", "/1/b/old/x"), "/1/b/old is not a directory");
    assert_eq!(
        refused("/1/a/f.bin", "/1/none/x"),
        "remote directory /1/none does not exist (create it with `pereprava mkdir`)"
    );
    assert!(matches!(
        mv("/1/a/none", "/1/b/x"),
        (_, Err(Problem::Device(Error::NotFound(_))))
    ));
}

#[test]
fn parents_are_checked() {
    assert_eq!(check_parent("/1/x", Some(true)), Ok(()));
    assert_eq!(check_parent("/1/x", Some(false)), Err("/1/x is not a directory".to_string()));
    assert!(check_parent("/1/x", None).unwrap_err().contains("does not exist"));
}

#[test]
fn default_local_names() {
    assert_eq!(local_name("/1/DCIM/", &entry(1, 0, "DCIM", true)), Ok("DCIM".to_string()));
    assert_eq!(local_name("/1/x", &entry(1, 0, "a.jpg", false)), Ok("a.jpg".to_string()));
    assert_eq!(
        local_name("/1/x", &entry(1, 0, "../\"x", false)),
        Err("device reported an unusable file name: \"../\\\"x\"".to_string())
    );
}

#[test]
fn files_are_replaced_on_request_only() {
    assert!(matches!(upload_over("/1/x", None, false), Upload::Fresh));
    assert!(matches!(upload_over("/1/x", Some(false), true), Upload::Replace));
    for (dir, force) in [(false, false), (true, true), (true, false)] {
        match upload_over("/1/x", Some(dir), force) {
            Upload::Refuse(t) => {
                assert_eq!(t, "/1/x already exists on device (use --force to replace)")
            }
            other => panic!("{other:?}"),
        }
    }
    assert_eq!(push_dir(None), "/1");
    assert_eq!(push_dir(Some("/2/x".to_string())), "/2/x");
}

#[test]
fn reports_of_commands() {
    assert_eq!(pulled_line(2048, "/tmp/a", "1.50"), "2.0 KiB -> /tmp/a in 1.50s");
    assert_eq!(
        pushed_line(&entry(1, 0, "a", false), "/1/x", "0.10"),
        "1 B -> /1/x/a in 0.10s"
    );
    assert_eq!(created_line("/1/x"), "created /1/x");
    assert_eq!(deleted_line(3, "/1/x"), "deleted 3 object(s): /1/x");
    let clean = TreeStats { files: 2, dirs: 1, bytes: 2048, skipped: 0 };
    assert_eq!(
        report_tree("pulled", &clean, "1.00"),
        ["pulled 2 file(s), 1 dir(s), 2.0 KiB in 1.00s"]
    );
    let partial = TreeStats { skipped: 4, ..clean };
    let lines = report_tree("pushed", &partial, "1.00");
    assert_eq!(
        lines[1],
        "warning: 4 item(s) skipped (symlinks, special files, unsafe or non-representable names) — the result is incomplete"
    );
}

#[test]
fn listings_are_aligned() {
    assert_eq!(ls_lines(&Vec::new()), ["(empty)"]);
    let mut big = entry(2, 0, "big", false);
    big.size = 2048;
    let v = vec![entry(1, 0, "dir", true), big];
    assert_eq!(ls_lines(&v), ["d     1 B dir", "- 2.0 KiB big"]);
}

#[test]
fn the_summary_of_a_device() {
    let s = DeviceSummary {
        vendor_id: 1,
        product_id: 2,
        manufacturer: Some("Nothing".to_string()),
        product: Some("A065".to_string()),
        serial: None,
        speed: None,
        firmware: Some("14".to_string()),
        storages: vec![StorageSummary {
            id: 65537,
            description: "Internal".to_string(),
            capacity: 4096,
            free: 2048,
            writable: false,
        }],
    };
    assert_eq!(
        info_lines(&s),
        [
            "Device:",
            "  manufacturer : Nothing",
            "  model        : A065",
            "  firmware     : 14",
            "Storages:",
            "  Internal — 2.0 KiB free / 4.0 KiB, read-only (id=65537)",
        ]
    );
}
