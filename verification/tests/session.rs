//! A session against a phone in memory.

use std::collections::BTreeMap;

use pereprava::error::{Error, Result};
use pereprava::model::{Entry, Resolved, StorageSummary};
use pereprava::session::{closed, find_storage_index, Closing, Request, Session, Uploaded};
use pereprava::step::{Reply, Step};

struct Object {
    parent: u64,
    name: String,
    is_dir: bool,
    data: Vec<u8>,
}

struct Phone {
    objects: BTreeMap<u64, Object>,
    next: u64,
    calls: Vec<String>,
    sent: Option<u64>,
    broken_upload: Option<Option<u64>>,
}

impl Phone {
    fn new() -> Phone {
        Phone {
            objects: BTreeMap::new(),
            next: 100,
            calls: Vec::new(),
            sent: None,
            broken_upload: None,
        }
    }

    fn put(&mut self, parent: u64, name: &str, is_dir: bool, data: &[u8]) -> u64 {
        let h = self.next;
        self.next += 1;
        self.objects.insert(
            h,
            Object { parent, name: name.to_string(), is_dir, data: data.to_vec() },
        );
        h
    }

    fn entry(&self, h: u64) -> Result<Entry> {
        match self.objects.get(&h) {
            Some(o) => Ok(Entry {
                handle: h,
                parent: o.parent,
                name: o.name.clone(),
                is_dir: o.is_dir,
                size: o.data.len() as u64,
            }),
            None => Err(Error::NotFound(String::new())),
        }
    }

    fn list(&self, dir: u64) -> Vec<Entry> {
        let mut out = Vec::new();
        for (h, o) in &self.objects {
            if o.parent == dir {
                out.push(self.entry(*h).unwrap());
            }
        }
        out
    }

    fn remove(&mut self, h: u64) -> Result<()> {
        match self.objects.remove(&h) {
            Some(_) => Ok(()),
            None => Err(Error::NotFound(String::new())),
        }
    }
}

fn storage(id: u32, description: &str) -> StorageSummary {
    StorageSummary { id, description: description.to_string(), capacity: 1000, free: 400, writable: true }
}

fn session() -> Session {
    Session::new(vec![storage(0x10001, "Internal shared storage"), storage(0x20001, "SD card")])
}

fn run(s: &mut Session, p: &mut Phone, req: Request) -> Result<Reply> {
    let mut step = s.dispatch(req, 1_000);
    loop {
        step = match step {
            Step::Done(r) => return r,
            Step::List { dir, after, .. } => {
                p.calls.push(format!("list {dir}"));
                let r = p.list(dir);
                s.listed(after, Ok(r), 1_000)
            }
            Step::Info { handle, after, .. } => {
                p.calls.push(format!("info {handle}"));
                let r = p.entry(handle);
                s.informed(after, r)
            }
            Step::Read { handle, offset, count, .. } => {
                p.calls.push(format!("read {handle}"));
                let d = p.objects[&handle].data.clone();
                let from = (offset as usize).min(d.len());
                let to = (from + count as usize).min(d.len());
                s.read_back(Ok(d[from..to].to_vec()))
            }
            Step::CreateFolder { parent, name, after, .. } => {
                p.calls.push(format!("mkdir {name}"));
                let h = p.put(parent, &name, true, b"");
                s.created(after, Ok(h))
            }
            Step::Delete { handle, after, .. } => {
                p.calls.push(format!("delete {handle}"));
                let r = p.remove(handle);
                s.deleted(after, r, 1_000)
            }
            Step::Rename { handle, name, after, .. } => {
                p.calls.push(format!("rename {handle} {name}"));
                p.objects.get_mut(&handle).unwrap().name = name;
                s.renamed(after, Ok(()))
            }
            Step::Move { handle, dir, after, .. } => {
                p.calls.push(format!("move {handle} {dir}"));
                p.objects.get_mut(&handle).unwrap().parent = dir;
                s.moved(after, Ok(()))
            }
            Step::Upload { parent, name, size, after, .. } => {
                p.calls.push(format!("upload {name}"));
                match p.broken_upload.take() {
                    Some(partial) => {
                        let partial = partial.map(|_| p.put(parent, &name, false, b"half"));
                        s.uploaded(after, Uploaded::Failed { error: Error::Disconnected, partial })
                    }
                    None => {
                        let sent = p.sent.unwrap_or(size);
                        let h = p.put(parent, &name, false, &vec![7u8; sent as usize]);
                        s.uploaded(after, Uploaded::Stored { handle: h, sent })
                    }
                }
            }
            Step::Download { handle, .. } => {
                p.calls.push(format!("download {handle}"));
                return Ok(Reply::Nothing);
            }
            Step::Probe { .. } => {
                p.calls.push("probe".to_string());
                s.probed(Ok(()))
            }
            Step::Again(t) => s.again(t, 1_000),
        };
    }
}

fn list(path: &str) -> Request {
    Request::List { path: path.to_string(), refresh: false }
}

fn names(r: Result<Reply>) -> Vec<String> {
    match r {
        Ok(Reply::Entries(v)) => v.iter().map(|e| e.name.clone()).collect(),
        other => panic!("expected entries, got {other:?}"),
    }
}

fn resolve(s: &mut Session, p: &mut Phone, path: &str) -> Result<Resolved> {
    match run(s, p, Request::Resolve { path: path.to_string(), refresh: false }) {
        Ok(Reply::Resolved(r)) => Ok(r),
        Ok(other) => panic!("expected a resolved object, got {other:?}"),
        Err(e) => Err(e),
    }
}

#[test]
fn the_root_lists_the_storages() {
    let (mut s, mut p) = (session(), Phone::new());
    assert_eq!(names(run(&mut s, &mut p, list("/"))), ["Internal shared storage", "SD card"]);
    assert!(p.calls.is_empty(), "the storage table is known");
}

#[test]
fn storages_are_found_by_name_and_by_position() {
    let v = vec![storage(1, "Internal shared storage"), storage(2, "SD card")];
    assert_eq!(find_storage_index(&v, "SD card").unwrap(), 1);
    assert_eq!(find_storage_index(&v, "sd CARD").unwrap(), 1);
    assert_eq!(find_storage_index(&v, "1").unwrap(), 0);
    assert_eq!(find_storage_index(&v, "+2").unwrap(), 1);
    match find_storage_index(&v, "USB") {
        Err(e) => {
            let t = e.to_string();
            assert!(t.contains("USB"), "{t}");
            assert!(t.contains("[\"Internal shared storage\", \"SD card\"]"), "{t}");
        }
        Ok(i) => panic!("found {i}"),
    }
    assert!(find_storage_index(&v, "3").is_err());
    assert!(find_storage_index(&v, "0").is_err());
}

#[test]
fn a_path_is_walked_and_then_served_from_the_cache() {
    let (mut s, mut p) = (session(), Phone::new());
    let dcim = p.put(0, "DCIM", true, b"");
    let cam = p.put(dcim, "Camera", true, b"");
    p.put(cam, "a.jpg", false, b"12345");
    let r = resolve(&mut s, &mut p, "/1/dcim/Camera/A.JPG").unwrap();
    assert_eq!((r.storage_index, r.entry.size), (0, 5));
    assert_eq!(p.calls.iter().filter(|c| c.starts_with("list")).count(), 3);
    p.calls.clear();
    resolve(&mut s, &mut p, "/Internal shared storage/DCIM/Camera/a.jpg").unwrap();
    assert_eq!(p.calls, [format!("info {}", r.handle)], "only the object itself is asked for");
    p.calls.clear();
    assert_eq!(names(run(&mut s, &mut p, list("/1/DCIM"))), ["Camera"]);
    assert!(p.calls.is_empty());
}

#[test]
fn refresh_asks_the_device_again() {
    let (mut s, mut p) = (session(), Phone::new());
    p.put(0, "one", false, b"");
    assert_eq!(names(run(&mut s, &mut p, list("/1"))), ["one"]);
    p.put(0, "two", false, b"");
    assert_eq!(names(run(&mut s, &mut p, list("/1"))), ["one"]);
    let r = Request::List { path: "/1".to_string(), refresh: true };
    assert_eq!(names(run(&mut s, &mut p, r)), ["one", "two"]);
}

#[test]
fn missing_parts_and_files_in_the_way_are_named() {
    let (mut s, mut p) = (session(), Phone::new());
    p.put(0, "file", false, b"x");
    assert!(matches!(resolve(&mut s, &mut p, "/1/none"), Err(Error::NotFound(_))));
    assert!(matches!(
        run(&mut s, &mut p, list("/1/file/deeper")),
        Err(Error::NotFound(_)) | Err(Error::WrongKind(_))
    ));
    assert!(matches!(run(&mut s, &mut p, list("/1/../x")), Err(Error::InvalidArgument(_))));
}

#[test]
fn mkdir_makes_what_is_missing_and_is_seen_at_once() {
    let (mut s, mut p) = (session(), Phone::new());
    let a = p.put(0, "a", true, b"");
    assert_eq!(names(run(&mut s, &mut p, list("/1/a"))), Vec::<String>::new());
    let r = run(&mut s, &mut p, Request::MkdirAll { path: "/1/a/b/c".to_string() });
    match r {
        Ok(Reply::Entry(e)) => assert!(e.is_dir && e.name == "c"),
        other => panic!("{other:?}"),
    }
    assert_eq!(names(run(&mut s, &mut p, list("/1/a"))), ["b"]);
    assert_eq!(p.objects.values().filter(|o| o.is_dir).count(), 3);
    assert_eq!(p.list(a).len(), 1);
}

#[test]
fn removal_of_a_directory_needs_to_be_asked_for() {
    let (mut s, mut p) = (session(), Phone::new());
    let d = p.put(0, "d", true, b"");
    let e = p.put(d, "e", true, b"");
    let f = p.put(e, "f", false, b"x");
    let g = p.put(d, "g", false, b"x");
    let r = run(&mut s, &mut p, Request::Remove { path: "/1/d".to_string(), recursive: false });
    assert!(r.is_err());
    assert_eq!(p.objects.len(), 4, "nothing was deleted");
    p.calls.clear();
    let r = run(&mut s, &mut p, Request::Remove { path: "/1/d".to_string(), recursive: true });
    assert!(matches!(r, Ok(Reply::Count(4))), "{r:?}");
    assert!(p.objects.is_empty());
    let deletes: Vec<String> =
        p.calls.iter().filter(|c| c.starts_with("delete")).cloned().collect();
    assert_eq!(
        deletes,
        [format!("delete {f}"), format!("delete {e}"), format!("delete {g}"), format!("delete {d}")]
    );
    assert_eq!(names(run(&mut s, &mut p, list("/1"))), Vec::<String>::new());
}

#[test]
fn rename_and_move_are_seen_at_once() {
    let (mut s, mut p) = (session(), Phone::new());
    let a = p.put(0, "a", true, b"");
    let b = p.put(0, "b", true, b"");
    p.put(a, "f.txt", false, b"x");
    assert_eq!(names(run(&mut s, &mut p, list("/1/a"))), ["f.txt"]);
    assert_eq!(names(run(&mut s, &mut p, list("/1/b"))), Vec::<String>::new());
    let r = run(
        &mut s,
        &mut p,
        Request::Rename { path: "/1/a/f.txt".to_string(), new_name: "g.txt".to_string() },
    );
    assert!(matches!(r, Ok(Reply::Entry(_))), "{r:?}");
    assert_eq!(names(run(&mut s, &mut p, list("/1/a"))), ["g.txt"]);
    let r = run(
        &mut s,
        &mut p,
        Request::MoveInto { src: "/1/a/g.txt".to_string(), dst_dir: "/1/b".to_string() },
    );
    match r {
        Ok(Reply::Entry(e)) => assert_eq!((e.parent, e.name.as_str()), (b, "g.txt")),
        other => panic!("{other:?}"),
    }
    assert_eq!(names(run(&mut s, &mut p, list("/1/a"))), Vec::<String>::new());
    assert_eq!(names(run(&mut s, &mut p, list("/1/b"))), ["g.txt"]);
}

#[test]
fn an_upload_is_stored_and_seen_at_once() {
    let (mut s, mut p) = (session(), Phone::new());
    p.put(0, "d", true, b"");
    assert_eq!(names(run(&mut s, &mut p, list("/1/d"))), Vec::<String>::new());
    let parent = resolve(&mut s, &mut p, "/1/d").unwrap();
    let r = run(
        &mut s,
        &mut p,
        Request::Upload { parent, name: "new.bin".to_string(), size: 3 },
    );
    match r {
        Ok(Reply::Entry(e)) => assert_eq!((e.name.as_str(), e.size), ("new.bin", 3)),
        other => panic!("{other:?}"),
    }
    assert_eq!(names(run(&mut s, &mut p, list("/1/d"))), ["new.bin"]);
}

#[test]
fn a_short_upload_is_removed_and_reported() {
    let (mut s, mut p) = (session(), Phone::new());
    p.put(0, "d", true, b"");
    let parent = resolve(&mut s, &mut p, "/1/d").unwrap();
    p.sent = Some(2);
    let r = run(&mut s, &mut p, Request::Upload { parent, name: "x".to_string(), size: 3 });
    match r {
        Err(e) => assert!(e.to_string().contains("2 of 3"), "{}", e.to_string()),
        Ok(x) => panic!("{x:?}"),
    }
    assert_eq!(p.objects.len(), 1, "the incomplete object is gone");
}

#[test]
fn a_failed_upload_leaves_no_part_behind() {
    let (mut s, mut p) = (session(), Phone::new());
    p.put(0, "d", true, b"");
    let parent = resolve(&mut s, &mut p, "/1/d").unwrap();
    p.broken_upload = Some(Some(0));
    let r = run(&mut s, &mut p, Request::Upload { parent, name: "x".to_string(), size: 9 });
    assert!(matches!(r, Err(Error::Disconnected)), "{r:?}");
    assert_eq!(p.objects.len(), 1);
    let parent = resolve(&mut s, &mut p, "/1/d").unwrap();
    p.broken_upload = Some(None);
    let r = run(&mut s, &mut p, Request::Upload { parent, name: "x".to_string(), size: 9 });
    assert!(matches!(r, Err(Error::Disconnected)), "{r:?}");
}

#[test]
fn operations_by_handle_reach_the_device() {
    let (mut s, mut p) = (session(), Phone::new());
    let d = p.put(0, "d", true, b"");
    let f = p.put(d, "f", false, b"0123456789");
    let r = run(
        &mut s,
        &mut p,
        Request::HRead { storage_index: 0, handle: f, offset: 3, count: 4 },
    );
    match r {
        Ok(Reply::Bytes(b)) => assert_eq!(b, b"3456"),
        other => panic!("{other:?}"),
    }
    let r = run(&mut s, &mut p, Request::HInfo { storage_index: 0, handle: f });
    assert!(matches!(r, Ok(Reply::Entry(_))));
    let r = run(&mut s, &mut p, Request::HList { storage_index: 0, dir: d });
    assert_eq!(names(r), ["f"]);
    let r = run(
        &mut s,
        &mut p,
        Request::HRename {
            storage_index: 0,
            from: d,
            from_name: "f".to_string(),
            to: 0,
            to_name: "g".to_string(),
        },
    );
    assert!(r.is_ok(), "{r:?}");
    assert_eq!((p.objects[&f].parent, p.objects[&f].name.as_str()), (0, "g"));
    let r = run(&mut s, &mut p, Request::HDelete { storage_index: 0, handle: f });
    assert!(r.is_ok(), "{r:?}");
    assert_eq!(names(run(&mut s, &mut p, list("/1"))), ["d"]);
    let r = run(&mut s, &mut p, Request::HList { storage_index: 7, dir: d });
    assert!(r.is_err(), "no such storage");
}

#[test]
fn a_ping_asks_the_device() {
    let (mut s, mut p) = (session(), Phone::new());
    assert!(matches!(run(&mut s, &mut p, Request::Ping), Ok(Reply::Nothing)));
    assert_eq!(p.calls, ["probe"]);
}

#[test]
fn the_summary_leaves_out_what_the_device_does_not_say() {
    let (mut s, mut p) = (session(), Phone::new());
    let r = run(
        &mut s,
        &mut p,
        Request::Info {
            manufacturer: "Nothing".to_string(),
            model: "A065".to_string(),
            serial: String::new(),
            version: "1.0".to_string(),
        },
    );
    match r {
        Ok(Reply::Summary(x)) => {
            assert_eq!(x.manufacturer.as_deref(), Some("Nothing"));
            assert_eq!(x.product.as_deref(), Some("A065"));
            assert_eq!(x.serial, None);
            assert_eq!(x.firmware.as_deref(), Some("1.0"));
            assert_eq!(x.storages.len(), 2);
        }
        other => panic!("{other:?}"),
    }
}

#[test]
fn closing_hands_on_what_the_device_answered() {
    assert!(closed(Closing::Before).is_ok(), "closing twice is no error");
    assert!(closed(Closing::Answered(Ok(()))).is_ok());
    assert!(matches!(closed(Closing::Answered(Err(Error::Disconnected))), Err(Error::Disconnected)));
    assert!(matches!(closed(Closing::TimedOut), Err(Error::Timeout)));
    assert!(matches!(closed(Closing::Gone), Err(Error::ActorClosed)));
}
