//! The NFS volume against a phone and staging files in memory.

use std::collections::BTreeMap;

use pereprava::error::{Error, Result};
use pereprava::ids::{encode_real, DEVICE_ROOT_ID, STORAGE_BASE_ID, VIRT_FLAG};
use pereprava::model::{Entry, StorageSummary};
use pereprava::nfs::NfsStat;
use pereprava::volume::{stage_file_name, Volume};
use pereprava::volume_step::{Stability, VolReply, VolStep};

struct World {
    objects: BTreeMap<u64, (u64, String, bool, Vec<u8>)>,
    next: u64,
    stages: BTreeMap<u64, Vec<u8>>,
    calls: Vec<String>,
    no_delete: bool,
    no_upload: bool,
}

impl World {
    fn new() -> World {
        World {
            objects: BTreeMap::new(),
            next: 10,
            stages: BTreeMap::new(),
            calls: Vec::new(),
            no_delete: false,
            no_upload: false,
        }
    }

    fn put(&mut self, parent: u64, name: &str, is_dir: bool, data: &[u8]) -> u64 {
        let h = self.next;
        self.next += 1;
        self.objects.insert(h, (parent, name.to_string(), is_dir, data.to_vec()));
        h
    }

    fn entry(&self, h: u64) -> Result<Entry> {
        match self.objects.get(&h) {
            Some((parent, name, is_dir, data)) => Ok(Entry {
                handle: h,
                parent: *parent,
                name: name.clone(),
                is_dir: *is_dir,
                size: data.len() as u64,
            }),
            None => Err(Error::NotFound(String::new())),
        }
    }

    fn list(&self, dir: u64) -> Vec<Entry> {
        let mut v = Vec::new();
        for (h, o) in &self.objects {
            if o.0 == dir {
                v.push(self.entry(*h).unwrap());
            }
        }
        v
    }

    fn named(&self, name: &str) -> Vec<Vec<u8>> {
        self.objects.values().filter(|o| o.1 == name).map(|o| o.3.clone()).collect()
    }
}

fn drive(v: &mut Volume, w: &mut World, first: VolStep) -> std::result::Result<VolReply, NfsStat> {
    let mut step = first;
    loop {
        step = match step {
            VolStep::Done(r) => return r,
            VolStep::List { dir, after, .. } => {
                w.calls.push("list".to_string());
                let l = w.list(dir);
                v.listed(after, Ok(l))
            }
            VolStep::Info { handle, after, .. } => {
                w.calls.push("info".to_string());
                let e = w.entry(handle);
                v.informed(after, e, 5)
            }
            VolStep::Read { handle, offset, count, after, .. } => {
                w.calls.push("read".to_string());
                let r = match w.objects.get(&handle) {
                    Some(o) => {
                        let from = (offset as usize).min(o.3.len());
                        let to = (from + count as usize).min(o.3.len());
                        Ok(o.3[from..to].to_vec())
                    }
                    None => Err(Error::NotFound(String::new())),
                };
                v.read_back(after, r)
            }
            VolStep::Delete { handle, after, .. } => {
                w.calls.push("delete".to_string());
                let r = if w.no_delete {
                    Err(Error::AccessDenied(String::new()))
                } else if w.objects.remove(&handle).is_some() {
                    Ok(())
                } else {
                    Err(Error::NotFound(String::new()))
                };
                v.deleted(after, r)
            }
            VolStep::Upload { id, storage, parent, name, size } => {
                w.calls.push("upload".to_string());
                if w.no_upload {
                    v.uploaded(id, storage, size, Err(Error::StorageFull(String::new())), 5)
                } else {
                    let data = w.stages[&id].clone();
                    assert_eq!(data.len() as u64, size);
                    let h = w.put(parent, &name, false, &data);
                    v.uploaded(id, storage, size, Ok(h), 5)
                }
            }
            VolStep::Mkdir { storage, parent, name } => {
                let h = w.put(parent, &name, true, b"");
                v.made_dir(storage, Ok(h))
            }
            VolStep::Rename { from, from_name, to, to_name, id, to_dirid, .. } => {
                w.calls.push("rename".to_string());
                let h = w
                    .objects
                    .iter()
                    .find(|(_, o)| o.0 == from && o.1 == from_name)
                    .map(|(h, _)| *h);
                let r = match h {
                    Some(h) => {
                        let o = w.objects.get_mut(&h).unwrap();
                        o.0 = to;
                        o.1 = to_name.clone();
                        Ok(())
                    }
                    None => Err(Error::NotFound(String::new())),
                };
                v.renamed(id, to_dirid, to_name, r)
            }
            VolStep::NewFile { id, after } => {
                w.stages.insert(id, Vec::new());
                v.new_file(id, after, true)
            }
            VolStep::Store { pull, data } => {
                let f = w.stages.get_mut(&pull.id).unwrap();
                let end = pull.off as usize + data.len();
                if f.len() < end {
                    f.resize(end, 0);
                }
                f[pull.off as usize..end].copy_from_slice(&data);
                let n = data.len();
                v.stored(pull, n, true)
            }
            VolStep::Length { pull } => {
                let n = w.stages.get(&pull.id).map(|f| f.len() as u64);
                v.length(pull, n)
            }
            VolStep::SetLen { id, size, create } => {
                w.stages.get_mut(&id).unwrap().resize(size as usize, 0);
                v.len_set(id, size, create, true)
            }
            VolStep::WriteAt { id, offset, data } => {
                let f = w.stages.get_mut(&id).unwrap();
                let end = offset as usize + data.len();
                if f.len() < end {
                    f.resize(end, 0);
                }
                f[offset as usize..end].copy_from_slice(&data);
                v.written(id, offset, data.len(), true)
            }
            VolStep::ReadAt { id, offset, count } => {
                let f = &w.stages[&id];
                let from = (offset as usize).min(f.len());
                let to = (from + count as usize).min(f.len());
                v.local_read(offset, Some((f[from..to].to_vec(), f.len() as u64)))
            }
            VolStep::Discard { id, ok } => {
                w.stages.remove(&id);
                v.discarded(ok)
            }
        };
    }
}

fn volume() -> Volume {
    let mut v = Volume::new_detached(true, 1_700_000_000);
    v.attach(vec![StorageSummary {
        id: 0x10001,
        description: "Internal shared storage".to_string(),
        capacity: 1000,
        free: 400,
        writable: true,
    }]);
    v
}

const ROOT_DIR: u64 = STORAGE_BASE_ID;

fn id_of(r: std::result::Result<VolReply, NfsStat>) -> u64 {
    match r {
        Ok(VolReply::Id(id)) => id,
        Ok(VolReply::Created { id, .. }) => id,
        other => panic!("expected an id, got {other:?}"),
    }
}

fn bytes_of(r: std::result::Result<VolReply, NfsStat>) -> (Vec<u8>, bool) {
    match r {
        Ok(VolReply::Data { bytes, eof }) => (bytes, eof),
        other => panic!("expected data, got {other:?}"),
    }
}

fn size_of(v: &mut Volume, w: &mut World, id: u64) -> u64 {
    let step = v.getattr(id, 5);
    match drive(v, w, step) {
        Ok(VolReply::Attr(a)) => a.size,
        other => panic!("expected attributes, got {other:?}"),
    }
}

fn list_names(v: &mut Volume, w: &mut World, dirid: u64) -> Vec<String> {
    let step = v.readdir(dirid, 0, 100);
    match drive(v, w, step) {
        Ok(VolReply::Dir { entries, end }) => {
            assert!(end);
            entries.iter().map(|e| e.name.clone()).collect()
        }
        other => panic!("expected a directory, got {other:?}"),
    }
}

fn stat(r: std::result::Result<VolReply, NfsStat>) -> NfsStat {
    match r {
        Err(s) => s,
        Ok(x) => panic!("expected a refusal, got {x:?}"),
    }
}

#[test]
fn the_top_of_the_volume_holds_the_storages() {
    let (mut v, mut w) = (volume(), World::new());
    assert_eq!(list_names(&mut v, &mut w, DEVICE_ROOT_ID), ["Internal shared storage"]);
    let step = v.lookup(DEVICE_ROOT_ID, b"internal SHARED storage");
    assert_eq!(id_of(drive(&mut v, &mut w, step)), ROOT_DIR);
    assert!(w.calls.is_empty());
}

#[test]
fn files_are_found_read_and_described() {
    let (mut v, mut w) = (volume(), World::new());
    let h = w.put(0, "a.txt", false, b"hello world");
    let step = v.lookup(ROOT_DIR, b"A.txt");
    let id = id_of(drive(&mut v, &mut w, step));
    assert_eq!(id, encode_real(0, h));
    assert_eq!(size_of(&mut v, &mut w, id), 11);
    let step = v.read(id, 0, 5);
    assert_eq!(bytes_of(drive(&mut v, &mut w, step)).0, b"hello");
    let step = v.read(id, 6, 100);
    assert_eq!(bytes_of(drive(&mut v, &mut w, step)), (b"world".to_vec(), true));
    assert_eq!(v.stats().rx, 10);
    let step = v.lookup(ROOT_DIR, b"none");
    assert_eq!(stat(drive(&mut v, &mut w, step)), NfsStat::Noent);
}

#[test]
fn names_that_are_not_unicode_are_looked_up_in_replacement() {
    let (mut v, mut w) = (volume(), World::new());
    let h = w.put(0, "caf\u{fffd}", false, b"x");
    let step = v.lookup(ROOT_DIR, b"caf\xe9");
    assert_eq!(id_of(drive(&mut v, &mut w, step)), encode_real(0, h));
}

#[test]
fn attributes_are_kept_for_a_while() {
    let (mut v, mut w) = (volume(), World::new());
    let h = w.put(0, "a.txt", false, b"12");
    let id = encode_real(0, h);
    assert_eq!(size_of(&mut v, &mut w, id), 2);
    w.calls.clear();
    assert_eq!(size_of(&mut v, &mut w, id), 2);
    assert!(w.calls.is_empty());
    let step = v.getattr(id, 5 + 3_000_000_000);
    assert!(drive(&mut v, &mut w, step).is_ok());
    assert_eq!(w.calls, ["info"]);
}

#[test]
fn a_new_file_is_staged_written_and_committed() {
    let (mut v, mut w) = (volume(), World::new());
    let step = v.create(ROOT_DIR, b"new.txt", None);
    let id = id_of(drive(&mut v, &mut w, step));
    assert_eq!(id & VIRT_FLAG, VIRT_FLAG);
    let step = v.write(id, 0, b"hello".to_vec(), Stability::FileSync);
    match drive(&mut v, &mut w, step) {
        Ok(VolReply::Written { attr, stability, count }) => {
            assert_eq!((attr.size, count), (5, 5));
            assert_eq!(stability, Stability::Unstable, "the phone has nothing yet");
        }
        other => panic!("{other:?}"),
    }
    let step = v.read(id, 1, 3);
    assert_eq!(bytes_of(drive(&mut v, &mut w, step)), (b"ell".to_vec(), false));
    assert_eq!(size_of(&mut v, &mut w, id), 5);
    assert_eq!(list_names(&mut v, &mut w, ROOT_DIR), ["new.txt"]);
    assert!(w.objects.is_empty());
    let step = v.commit(id, 5);
    assert!(drive(&mut v, &mut w, step).is_ok());
    assert_eq!(w.named("new.txt"), [b"hello".to_vec()]);
    assert_eq!(v.stats().tx, 5);
    assert_eq!(list_names(&mut v, &mut w, ROOT_DIR), ["new.txt"]);
    w.calls.clear();
    let step = v.commit(id, 5);
    assert!(drive(&mut v, &mut w, step).is_ok());
    assert!(!w.calls.contains(&"upload".to_string()), "a clean file is not sent again");
}

#[test]
fn a_second_commit_replaces_the_first_copy() {
    let (mut v, mut w) = (volume(), World::new());
    let step = v.create(ROOT_DIR, b"n", None);
    let id = id_of(drive(&mut v, &mut w, step));
    for text in [b"one".to_vec(), b"two".to_vec()] {
        let step = v.write(id, 0, text, Stability::Unstable);
        assert!(drive(&mut v, &mut w, step).is_ok());
        let step = v.commit(id, 5);
        assert!(drive(&mut v, &mut w, step).is_ok());
    }
    assert_eq!(w.named("n"), [b"two".to_vec()]);
}

#[test]
fn writing_into_an_existing_file_keeps_the_rest_of_it() {
    let (mut v, mut w) = (volume(), World::new());
    let h = w.put(0, "a.txt", false, b"abcdef");
    let id = encode_real(0, h);
    let step = v.write(id, 2, b"XY".to_vec(), Stability::Unstable);
    assert!(drive(&mut v, &mut w, step).is_ok());
    assert_eq!(w.objects[&h].3, b"abcdef");
    let step = v.read(id, 0, 100);
    assert_eq!(bytes_of(drive(&mut v, &mut w, step)), (b"abXYef".to_vec(), true));
    let step = v.commit(id, 5);
    assert!(drive(&mut v, &mut w, step).is_ok());
    assert_eq!(w.named("a.txt"), [b"abXYef".to_vec()]);
}

#[test]
fn create_over_an_existing_name_keeps_its_contents() {
    let (mut v, mut w) = (volume(), World::new());
    w.put(0, "a.txt", false, b"abcdef");
    let step = v.create(ROOT_DIR, b"a.txt", None);
    let id = id_of(drive(&mut v, &mut w, step));
    assert_eq!(size_of(&mut v, &mut w, id), 6);
    let step = v.create(ROOT_DIR, b"a.txt", Some(0));
    let id = id_of(drive(&mut v, &mut w, step));
    assert_eq!(size_of(&mut v, &mut w, id), 0);
    let step = v.create_exclusive(ROOT_DIR, b"a.txt");
    assert_eq!(stat(drive(&mut v, &mut w, step)), NfsStat::Exist);
    let step = v.create_exclusive(ROOT_DIR, b"b.txt");
    assert_eq!(id_of(drive(&mut v, &mut w, step)) & VIRT_FLAG, VIRT_FLAG);
}

#[test]
fn the_size_can_be_set() {
    let (mut v, mut w) = (volume(), World::new());
    let h = w.put(0, "a.txt", false, b"abcdef");
    let id = encode_real(0, h);
    let step = v.setattr(id, Some(3), 5);
    assert!(drive(&mut v, &mut w, step).is_ok());
    assert_eq!(size_of(&mut v, &mut w, id), 3);
    let step = v.commit(id, 5);
    assert!(drive(&mut v, &mut w, step).is_ok());
    assert_eq!(w.named("a.txt"), [b"abc".to_vec()]);
}

#[test]
fn directories_are_not_written_to() {
    let (mut v, mut w) = (volume(), World::new());
    let h = w.put(0, "d", true, b"");
    let step = v.write(encode_real(0, h), 0, b"x".to_vec(), Stability::Unstable);
    assert_eq!(stat(drive(&mut v, &mut w, step)), NfsStat::Isdir);
}

#[test]
fn a_read_only_volume_refuses_every_change() {
    let mut v = Volume::new_detached(false, 1);
    let mut w = World::new();
    v.attach(Vec::new());
    let id = encode_real(0, 10);
    let steps = vec![
        v.setattr(id, Some(1), 5),
        v.write(id, 0, vec![1], Stability::Unstable),
        v.create(ROOT_DIR, b"x", None),
        v.create_exclusive(ROOT_DIR, b"x"),
        v.mkdir(ROOT_DIR, b"x"),
        v.remove(ROOT_DIR, b"x"),
        v.rename(ROOT_DIR, b"x", ROOT_DIR, b"y"),
        v.commit(id, 5),
    ];
    for step in steps {
        assert_eq!(stat(drive(&mut v, &mut w, step)), NfsStat::Rofs);
    }
}

#[test]
fn a_detached_volume_answers_with_an_io_error() {
    let (mut v, mut w) = (volume(), World::new());
    v.detach();
    assert!(!v.is_attached());
    let step = v.lookup(ROOT_DIR, b"x");
    assert_eq!(stat(drive(&mut v, &mut w, step)), NfsStat::Io);
    let step = v.read(encode_real(0, 10), 0, 10);
    assert_eq!(stat(drive(&mut v, &mut w, step)), NfsStat::Io);
}

#[test]
fn a_failed_upload_keeps_the_staged_data() {
    let (mut v, mut w) = (volume(), World::new());
    let step = v.create(ROOT_DIR, b"n", None);
    let id = id_of(drive(&mut v, &mut w, step));
    let step = v.write(id, 0, b"data".to_vec(), Stability::Unstable);
    assert!(drive(&mut v, &mut w, step).is_ok());
    w.no_upload = true;
    let step = v.commit(id, 5);
    assert_eq!(stat(drive(&mut v, &mut w, step)), NfsStat::Nospc);
    let step = v.read(id, 0, 10);
    assert_eq!(bytes_of(drive(&mut v, &mut w, step)), (b"data".to_vec(), true));
    w.no_upload = false;
    let step = v.commit(id, 5);
    assert!(drive(&mut v, &mut w, step).is_ok());
    assert_eq!(w.named("n"), [b"data".to_vec()]);
}

#[test]
fn a_flushed_file_is_removed_from_the_phone() {
    let (mut v, mut w) = (volume(), World::new());
    let step = v.create(ROOT_DIR, b"n", None);
    let id = id_of(drive(&mut v, &mut w, step));
    let step = v.write(id, 0, b"data".to_vec(), Stability::Unstable);
    assert!(drive(&mut v, &mut w, step).is_ok());
    let step = v.commit(id, 5);
    assert!(drive(&mut v, &mut w, step).is_ok());
    w.no_delete = true;
    let step = v.remove(ROOT_DIR, b"n");
    assert_eq!(stat(drive(&mut v, &mut w, step)), NfsStat::Acces);
    assert_eq!(w.named("n").len(), 1);
    w.no_delete = false;
    let step = v.remove(ROOT_DIR, b"n");
    assert!(drive(&mut v, &mut w, step).is_ok());
    assert!(w.objects.is_empty() && w.stages.is_empty());
    assert_eq!(list_names(&mut v, &mut w, ROOT_DIR), Vec::<String>::new());
}

#[test]
fn directories_are_made_and_entries_renamed() {
    let (mut v, mut w) = (volume(), World::new());
    let step = v.mkdir(ROOT_DIR, b"d");
    let d = id_of(drive(&mut v, &mut w, step));
    w.put(0, "a", false, b"1");
    let step = v.rename(ROOT_DIR, b"a", d, b"b");
    assert!(drive(&mut v, &mut w, step).is_ok());
    assert_eq!(list_names(&mut v, &mut w, d), ["b"]);
    assert_eq!(list_names(&mut v, &mut w, ROOT_DIR), ["d"]);
    let step = v.create(ROOT_DIR, b"s", None);
    drive(&mut v, &mut w, step).unwrap();
    let step = v.rename(ROOT_DIR, b"s", ROOT_DIR, b"t");
    assert!(drive(&mut v, &mut w, step).is_ok());
    assert_eq!(list_names(&mut v, &mut w, ROOT_DIR), ["d", "t"]);
}

#[test]
fn a_renamed_file_keeps_its_contents() {
    let (mut v, mut w) = (volume(), World::new());
    w.put(0, "other", false, b"untouched");
    for flushed in [false, true] {
        let step = v.create(ROOT_DIR, b"old", None);
        let id = id_of(drive(&mut v, &mut w, step));
        let step = v.write(id, 0, b"data".to_vec(), Stability::Unstable);
        assert!(drive(&mut v, &mut w, step).is_ok());
        if flushed {
            let step = v.commit(id, 5);
            assert!(drive(&mut v, &mut w, step).is_ok());
        }
        let step = v.rename(ROOT_DIR, b"old", ROOT_DIR, b"new");
        assert!(drive(&mut v, &mut w, step).is_ok());
        let step = v.read(id, 0, 10);
        assert_eq!(bytes_of(drive(&mut v, &mut w, step)).0, b"data");
        let step = v.remove(ROOT_DIR, b"new");
        assert!(drive(&mut v, &mut w, step).is_ok());
        assert_eq!(list_names(&mut v, &mut w, ROOT_DIR), ["other"]);
        let step = v.lookup(ROOT_DIR, b"other");
        let other = id_of(drive(&mut v, &mut w, step));
        let step = v.read(other, 0, 10);
        assert_eq!(bytes_of(drive(&mut v, &mut w, step)).0, b"untouched");
        assert!(w.stages.is_empty());
    }
}

#[test]
fn a_staged_device_file_is_renamed_on_the_device() {
    let (mut v, mut w) = (volume(), World::new());
    let step = v.mkdir(ROOT_DIR, b"d");
    let d = id_of(drive(&mut v, &mut w, step));
    let h = w.put(0, "a", false, b"12345");
    let id = encode_real(0, h);
    let step = v.write(id, 1, b"x".to_vec(), Stability::Unstable);
    assert!(drive(&mut v, &mut w, step).is_ok());
    let step = v.rename(ROOT_DIR, b"a", d, b"b");
    assert!(matches!(drive(&mut v, &mut w, step), Ok(VolReply::Nothing)));
    assert_eq!(w.named("b"), [b"12345".to_vec()]);
    assert!(w.named("a").is_empty());
    let step = v.lookup(d, b"b");
    assert_eq!(id_of(drive(&mut v, &mut w, step)), id);
    let step = v.read(id, 0, 10);
    assert_eq!(bytes_of(drive(&mut v, &mut w, step)).0, b"1x345");
    let step = v.commit(id, 5);
    assert!(drive(&mut v, &mut w, step).is_ok());
    assert_eq!(w.named("b"), [b"1x345".to_vec()]);
}

#[test]
fn listings_come_sorted_and_in_pages() {
    let (mut v, mut w) = (volume(), World::new());
    for n in ["b", "A", "c", "a2"] {
        w.put(0, n, false, b"");
    }
    assert_eq!(list_names(&mut v, &mut w, ROOT_DIR), ["A", "a2", "b", "c"]);
    let step = v.readdir(ROOT_DIR, 0, 3);
    match drive(&mut v, &mut w, step) {
        Ok(VolReply::Dir { entries, end }) => {
            assert_eq!(entries.len(), 3);
            assert!(!end);
        }
        other => panic!("{other:?}"),
    }
}

#[test]
fn a_large_file_is_staged_in_pieces() {
    let (mut v, mut w) = (volume(), World::new());
    let data: Vec<u8> = (0..3_000_000u32).map(|i| i as u8).collect();
    let h = w.put(0, "big", false, &data);
    let id = encode_real(0, h);
    let step = v.write(id, 1, b"Z".to_vec(), Stability::Unstable);
    assert!(drive(&mut v, &mut w, step).is_ok());
    let staged = &w.stages[&id];
    assert_eq!(staged.len(), data.len());
    assert_eq!(staged[0], data[0]);
    assert_eq!(staged[1], b'Z');
    assert!(staged[2..] == data[2..]);
    assert!(w.calls.iter().filter(|c| *c == "read").count() > 1);
}

#[test]
fn staging_files_have_names_of_their_own() {
    assert_eq!(stage_file_name(0x4000_0000_0000_0001), "stage-4000000000000001.bin");
    assert_ne!(stage_file_name(1), stage_file_name(16));
}

#[test]
fn generation_does_not_fit_in_32_bits() {
    let v = Volume::new_detached(false, 1_700_000_000);
    assert!(
        v.generation(pereprava::nfs::process_epoch_tag(4321, 99)) > u64::from(u32::MAX),
        "generation lost per-process entropy"
    );
}

fn storage(writable: bool) -> StorageSummary {
    StorageSummary {
        id: 1,
        description: "s".to_string(),
        capacity: 0,
        free: 0,
        writable,
    }
}

#[test]
fn a_volume_takes_changes_when_the_device_does() {
    for (asked, storages, expected) in [
        (true, vec![storage(true)], true),
        (true, vec![storage(false)], false),
        (true, vec![storage(false), storage(true)], true),
        (true, Vec::new(), true),
        (false, vec![storage(true)], false),
    ] {
        let mut v = Volume::new_detached(asked, 1);
        assert_eq!(v.is_writable(), asked);
        v.attach(storages);
        assert_eq!(v.is_writable(), expected);
    }
    let mut v = Volume::new_detached(true, 1);
    v.attach(vec![storage(false)]);
    let mut w = World::new();
    let step = v.mkdir(ROOT_DIR, b"x");
    assert_eq!(stat(drive(&mut v, &mut w, step)), NfsStat::Rofs);
    v.attach(vec![storage(true)]);
    let step = v.mkdir(ROOT_DIR, b"x");
    assert!(drive(&mut v, &mut w, step).is_ok());
}

#[test]
fn a_write_beyond_the_end_leaves_zeros() {
    let (mut v, mut w) = (volume(), World::new());
    let h = w.put(0, "a", false, b"12");
    let id = encode_real(0, h);
    let step = v.write(id, 4, b"5".to_vec(), Stability::Unstable);
    assert!(drive(&mut v, &mut w, step).is_ok());
    let step = v.read(id, 0, 10);
    assert_eq!(bytes_of(drive(&mut v, &mut w, step)), (b"12\0\x005".to_vec(), true));
    assert_eq!(size_of(&mut v, &mut w, id), 5);
    let step = v.commit(id, 5);
    assert!(drive(&mut v, &mut w, step).is_ok());
    assert_eq!(w.named("a"), [b"12\0\x005".to_vec()]);
}
