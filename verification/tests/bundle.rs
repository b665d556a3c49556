use pereprava::bundle::{
    archive_exists, archive_name, is_unsafe_archive_path, last_part_of, promote_next, staging_name,
    unpack_next, ArchiveKind, BundleStats, Promotion, Unpack, Unpacking, Verdict, MAX_BYTES,
    MAX_ENTRIES,
};
use pereprava::pack::{same_file, FileId, Pack, PackKind, PackStep, MAX_PACK_DEPTH};

#[test]
fn unsafe_archive_paths_are_rejected() {
    assert!(is_unsafe_archive_path(b"../escaped.txt"));
    assert!(is_unsafe_archive_path(b"a/../../etc/passwd"));
    assert!(is_unsafe_archive_path(b"/etc/passwd"));
    assert!(!is_unsafe_archive_path(b"a/b.txt"));
    assert!(!is_unsafe_archive_path(b"b.txt"));
    assert!(!is_unsafe_archive_path(b"a/..b/c")); // not a parent directory
}

#[test]
fn parent_components_are_found_at_every_place() {
    for bad in [&b".."[..], b"../", b"a/..", b"a/../", b"a//../b", b"/"] {
        assert!(is_unsafe_archive_path(bad), "{bad:?}");
    }
    for good in [&b""[..], b".", b"...", b"a..", b"a../b", b"..a/b", b"./a", b"a/.../b"] {
        assert!(!is_unsafe_archive_path(good), "{good:?}");
    }
}

#[test]
fn names_of_archives() {
    assert_eq!(archive_name("photos"), "photos.tar.zst");
    assert_eq!(last_part_of("/1/DCIM/x.tar.zst"), "x.tar.zst");
    assert_eq!(last_part_of("/1/DCIM/"), "DCIM");
    assert_eq!(last_part_of("plain"), "plain");
    assert_eq!(last_part_of("///"), "");
    assert_eq!(staging_name(42, "x.tar.zst"), "pereprava-stage-42-x.tar.zst");
    assert_eq!(archive_exists("/1/x.tar.zst"), "/1/x.tar.zst already exists on device");
}

#[test]
fn an_ordinary_archive_is_extracted_and_counted() {
    let mut u = Unpack::new();
    assert!(matches!(u.entry(b"d", ArchiveKind::Directory, 0), Verdict::Extract));
    assert!(matches!(u.entry(b"d/a", ArchiveKind::Regular, 5), Verdict::Extract));
    assert!(matches!(u.entry(b"d/l", ArchiveKind::Other, 9), Verdict::Skip));
    assert!(matches!(u.entry(b"b", ArchiveKind::Regular, 6), Verdict::Extract));
    assert_eq!(u.totals(), (2, 1, 11));
    assert_eq!(u.skipped(), 1);
}

#[test]
fn links_in_archives_are_reported() {
    let mut u = Unpack::new();
    assert_eq!(u.skipped(), 0);
    for name in [&b"l"[..], b"d/m", b"pipe"] {
        assert!(matches!(u.entry(name, ArchiveKind::Other, 0), Verdict::Skip));
    }
    assert_eq!(u.skipped(), 3);
    assert_eq!(u.totals(), (0, 0, 0));
    assert!(matches!(u.entry(b"/l", ArchiveKind::Other, 0), Verdict::Refuse(_)));
    assert_eq!(u.skipped(), 3);
    let mut s = BundleStats {
        skipped: 0,
        files: 0,
        dirs: 0,
        raw_bytes: 0,
        packed_bytes: 0,
        elapsed_ms: 0,
    };
    assert_eq!(s.skipped_line(), None);
    s.skipped = 3;
    assert_eq!(
        s.skipped_line().unwrap(),
        "warning: 3 item(s) skipped (links and special files are not extracted)"
    );
}

#[test]
fn a_hostile_archive_is_refused() {
    let mut u = Unpack::new();
    match u.entry(b"../escaped.txt", ArchiveKind::Regular, 3) {
        Verdict::Refuse(t) => assert_eq!(t, "unsafe path in archive: ../escaped.txt"),
        other => panic!("{other:?}"),
    }
    match u.entry(b"/\xff", ArchiveKind::Other, 0) {
        Verdict::Refuse(t) => assert_eq!(t, "unsafe path in archive: /\u{fffd}"),
        other => panic!("{other:?}"),
    }
    assert!(matches!(u.entry(b"a", ArchiveKind::Regular, MAX_BYTES), Verdict::Extract));
    match u.entry(b"b", ArchiveKind::Regular, 1) {
        Verdict::Refuse(t) => assert_eq!(t, "archive expands beyond the size limit"),
        other => panic!("{other:?}"),
    }
    assert!(matches!(u.entry(b"b", ArchiveKind::Regular, u64::MAX), Verdict::Refuse(_)));
    assert!(matches!(u.entry(b"b", ArchiveKind::Regular, 0), Verdict::Extract));
    for i in 2..MAX_ENTRIES {
        assert!(matches!(u.entry(b"d", ArchiveKind::Directory, 0), Verdict::Extract), "{i}");
    }
    match u.entry(b"d", ArchiveKind::Directory, 0) {
        Verdict::Refuse(t) => assert_eq!(t, "archive has too many entries"),
        other => panic!("{other:?}"),
    }
    assert_eq!(u.totals(), (2, 1_999_998, MAX_BYTES));
}

#[test]
fn reports_of_bundles() {
    let s = BundleStats {
        skipped: 0,
        files: 3,
        dirs: 1,
        raw_bytes: 2048,
        packed_bytes: 1024,
        elapsed_ms: 1234,
    };
    assert_eq!(
        s.packed_line(),
        "packed 3 file(s), 1 dir(s), 2.0 KiB -> 1.0 KiB (2.00x smaller) in 1.23s"
    );
    assert_eq!(
        s.extracted_line("/tmp/out"),
        "extracted 3 file(s) 2.0 KiB (from 1.0 KiB) into /tmp/out in 1.23s"
    );
    let t = BundleStats { packed_bytes: 0, raw_bytes: 5, ..s };
    assert!(t.packed_line().contains("(5.00x smaller)"));
}

fn promote(answers: &[(&str, Result<bool, &str>)]) -> (Vec<String>, Promotion) {
    let mut at = Promotion::ClearBackup;
    let mut trace = Vec::new();
    loop {
        let name = format!("{at:?}").split('(').next().unwrap().to_string();
        if name == "Done" || name == "Failed" {
            return (trace, at);
        }
        let r = answers
            .iter()
            .find(|(n, _)| *n == name)
            .map(|(_, r)| r.map_err(|e| e.to_string()))
            .unwrap_or(Ok(true));
        trace.push(name);
        at = promote_next(at, r);
    }
}

#[test]
fn an_older_tree_is_replaced() {
    let (trace, end) = promote(&[]);
    assert_eq!(trace, ["ClearBackup", "LookAtDest", "SetAside", "Install", "ClearOld"]);
    assert!(matches!(end, Promotion::Done));
    let (trace, _) = promote(&[("LookAtDest", Ok(false))]);
    assert_eq!(trace, ["ClearBackup", "LookAtDest", "Install", "ClearOld"]);
}

#[test]
fn an_older_tree_comes_back_when_the_new_one_fails() {
    let (trace, end) = promote(&[("Install", Err("disk full"))]);
    assert_eq!(
        trace,
        ["ClearBackup", "LookAtDest", "SetAside", "Install", "LookAtBackup", "Restore"]
    );
    assert!(matches!(end, Promotion::Failed(e) if e == "disk full"));
    let (trace, end) = promote(&[("SetAside", Err("no"))]);
    assert_eq!(trace, ["ClearBackup", "LookAtDest", "SetAside"]);
    assert!(matches!(end, Promotion::Failed(e) if e == "no"));
}

fn unpack(answers: &[(&str, Result<bool, &str>)]) -> (Vec<String>, Unpacking) {
    let mut at = Unpacking::ClearScratch;
    let mut trace = Vec::new();
    loop {
        let name = match &at {
            Unpacking::Done | Unpacking::Failed(_) => return (trace, at),
            Unpacking::Promote(p) => format!("{p:?}").split('(').next().unwrap().to_string(),
            other => format!("{other:?}").split('(').next().unwrap().to_string(),
        };
        let r = answers
            .iter()
            .find(|(n, _)| *n == name)
            .map(|(_, r)| r.map_err(|e| e.to_string()))
            .unwrap_or(Ok(true));
        trace.push(name);
        at = unpack_next(at, r);
    }
}

#[test]
fn an_extracted_tree_is_promoted() {
    let (trace, end) = unpack(&[("ClearScratch", Err("not there"))]);
    assert_eq!(
        trace,
        [
            "ClearScratch",
            "MakeScratch",
            "Extract",
            "ClearBackup",
            "LookAtDest",
            "SetAside",
            "Install",
            "ClearOld",
        ]
    );
    assert!(matches!(end, Unpacking::Done));
}

#[test]
fn a_failed_extraction_leaves_the_destination_alone() {
    let (trace, end) = unpack(&[("Extract", Err("bad archive"))]);
    assert_eq!(trace, ["ClearScratch", "MakeScratch", "Extract", "RemoveScratch"]);
    assert!(matches!(end, Unpacking::Failed(e) if e == "bad archive"));
    let (trace, end) = unpack(&[("MakeScratch", Err("read-only"))]);
    assert_eq!(trace, ["ClearScratch", "MakeScratch"]);
    assert!(matches!(end, Unpacking::Failed(e) if e == "read-only"));
    let (trace, end) = unpack(&[("Install", Err("disk full"))]);
    assert_eq!(trace.last().unwrap(), "Restore");
    assert!(matches!(end, Unpacking::Failed(e) if e == "disk full"));
}

fn name(n: &str) -> Vec<u8> {
    n.as_bytes().to_vec()
}

fn shown(p: &Vec<Vec<u8>>) -> String {
    p.iter().map(|n| String::from_utf8(n.clone()).unwrap()).collect::<Vec<_>>().join("/")
}

/// Walks a tree that `dir` and `kind` describe.
fn walk(
    dir: fn(&str) -> Vec<&'static str>,
    kind: fn(&str) -> PackKind,
    id: fn(&str) -> FileId,
) -> (Vec<String>, PackStep) {
    let (mut p, mut step) = Pack::start();
    let mut trace = Vec::new();
    loop {
        step = match step {
            PackStep::Identify(place) => {
                let s = shown(&place);
                p.identified(place, id(&s), &s)
            }
            PackStep::Read { place, id } => {
                let s = shown(&place);
                p.read(place, id, dir(&s).into_iter().map(name).collect())
            }
            PackStep::Look(place) => {
                let s = shown(&place);
                p.looked(place, kind(&s))
            }
            PackStep::AddLink(place) => {
                trace.push(format!("link {}", shown(&place)));
                p.added()
            }
            PackStep::AddFile(place) => {
                trace.push(format!("file {}", shown(&place)));
                p.added()
            }
            PackStep::AddDir(place) => {
                trace.push(format!("dir {}", shown(&place)));
                let s = shown(&place);
                p.enter(place, &s)
            }
            end => return (trace, end),
        }
    }
}

#[test]
fn a_tree_is_packed_in_the_order_of_its_names() {
    let (trace, end) = walk(
        |d| match d {
            "" => vec!["z", "link", "b", "sub", "a", "fifo"],
            "sub" => vec!["y", "x"],
            _ => vec![],
        },
        |p| match p {
            "sub" => PackKind::Dir,
            "link" => PackKind::Symlink,
            "fifo" => PackKind::Other,
            _ => PackKind::File(5),
        },
        |d| FileId { dev: 1, ino: d.len() as u64 },
    );
    assert_eq!(
        trace,
        ["file a", "file b", "link link", "dir sub", "file sub/x", "file sub/y", "file z"]
    );
    assert!(matches!(end, PackStep::Done(5, 1, 25)), "{end:?}");
}

#[test]
fn a_directory_within_itself_is_refused() {
    let (_, end) = walk(|_| vec!["again"], |_| PackKind::Dir, |_| FileId { dev: 1, ino: 7 });
    assert!(
        matches!(&end, PackStep::Failed(t) if t == "directory cycle detected at again"),
        "{end:?}"
    );
}

#[test]
fn a_tree_that_is_too_deep_is_refused() {
    let (trace, end) =
        walk(|_| vec!["d"], |_| PackKind::Dir, |d| FileId { dev: 1, ino: d.len() as u64 });
    assert_eq!(trace.len(), MAX_PACK_DEPTH + 1);
    assert!(
        matches!(&end, PackStep::Failed(t) if t.starts_with("directory nesting exceeds 128 levels at d/d")),
        "{end:?}"
    );
}

#[test]
fn files_are_known_by_device_and_inode() {
    let a = FileId { dev: 1, ino: 2 };
    assert!(same_file(&a, &FileId { dev: 1, ino: 2 }));
    assert!(!same_file(&a, &FileId { dev: 1, ino: 3 }));
    assert!(!same_file(&a, &FileId { dev: 2, ino: 2 }));
}

#[test]
fn what_was_packed_is_unpacked() {
    let (mut pack, _) = Pack::start();
    let root = FileId { dev: 1, ino: 1 };
    let mut unpack = Unpack::new();
    let mut step = pack.read(Vec::new(), root, vec![b"l".to_vec(), b"d".to_vec(), b"..f".to_vec()]);
    loop {
        step = match step {
            PackStep::Look(place) => {
                let path = place.join(&b'/');
                let (kind, size) = match path.as_slice() {
                    b"d" => (PackKind::Dir, 0),
                    b"l" => (PackKind::Symlink, 0),
                    _ => (PackKind::File(7), 7),
                };
                let taken = match kind {
                    PackKind::Dir => unpack.entry(&path, ArchiveKind::Directory, size),
                    PackKind::Symlink => unpack.entry(&path, ArchiveKind::Other, size),
                    _ => unpack.entry(&path, ArchiveKind::Regular, size),
                };
                assert!(!matches!(taken, Verdict::Refuse(_)), "{path:?}");
                pack.looked(place, kind)
            }
            PackStep::AddDir(place) => pack.enter(place, "d"),
            PackStep::Identify(place) => pack.identified(place, FileId { dev: 1, ino: 2 }, "d"),
            PackStep::Read { place, id } => pack.read(place, id, vec![b"x".to_vec()]),
            PackStep::AddLink(_) | PackStep::AddFile(_) => pack.added(),
            PackStep::Done(files, dirs, raw) => {
                assert_eq!((files, dirs, raw), (2, 1, 14));
                assert_eq!(unpack.totals(), (files, dirs, raw));
                assert_eq!(unpack.skipped(), 1);
                return;
            }
            PackStep::Failed(t) => panic!("{t}"),
        };
    }
}
