use std::collections::BTreeMap;

use pereprava::error::Error;
use pereprava::model::{Entry, Progress, Resolved};
use pereprava::ops::{
    check_depth, is_safe_component, join_device, Fetched, LocalItem, LocalKind, Pull, PullStep,
    Push, PushStep, TreeStats, MAX_TREE_DEPTH,
};
use pereprava::posix::{file_name, parent, sibling_scratch, temp_sibling};
use pereprava::transfer::{check_download, check_upload};

#[test]
fn safe_components_reject_traversal_and_separators() {
    assert!(is_safe_component("photo.jpg"));
    assert!(is_safe_component("Внутренний накопитель"));
    assert!(!is_safe_component(""));
    assert!(!is_safe_component("."));
    assert!(!is_safe_component(".."));
    assert!(!is_safe_component("a/b"));
    assert!(!is_safe_component("a\\b"));
    assert!(!is_safe_component("a\0b"));
}

#[test]
fn temp_sibling_is_unique_and_stays_beside_the_target() {
    let target = "/tmp/out/photo.jpg";
    let a = temp_sibling(target, 77, 0);
    let b = temp_sibling(target, 77, 1);
    assert_ne!(a, b, "each staging file needs a unique name");
    assert_eq!(parent(&a), parent(target), "must be on the same filesystem");
    assert!(a.ends_with(".tmp"));
    assert!(file_name(&a).unwrap().starts_with(".photo.jpg."));
}

#[test]
fn stats_start_clean_and_count_skips() {
    let mut s = TreeStats::default();
    assert_eq!(s.skipped, 0);
    s.skipped += 1;
    assert_eq!(s.skipped, 1);
}

#[test]
fn depth_guard_allows_up_to_the_limit_and_refuses_beyond() {
    assert!(check_depth(0, "/1").is_ok());
    assert!(check_depth(MAX_TREE_DEPTH, "/1").is_ok());
    let err = check_depth(MAX_TREE_DEPTH + 1, "/1/deep").expect_err("must refuse");
    assert!(err.to_string().contains(&MAX_TREE_DEPTH.to_string()));
}

#[test]
fn device_paths_are_joined_by_one_slash() {
    assert_eq!(join_device("/1/a", "b"), "/1/a/b");
    assert_eq!(join_device("/1/a//", "//b"), "/1/a/b");
    assert_eq!(join_device("/", "b"), "/b");
    assert_eq!(join_device("", ""), "/");
}

#[test]
fn scratch_directories_stand_beside_their_target() {
    assert_eq!(sibling_scratch("/tmp/out", "unpack", 5, 6), "/tmp/.out.pereprava-unpack-5-6");
    assert_eq!(temp_sibling("/", 5, 6), temp_sibling("/", 5, 6));
    assert_eq!(temp_sibling("a", 5, 6), ".a.pereprava-5-6.tmp");
}

fn entry(name: &str, is_dir: bool, size: u64) -> Entry {
    Entry { handle: 1, parent: 0, name: name.to_string(), is_dir, size }
}

fn pull(
    tree: &BTreeMap<String, Vec<Entry>>,
    root: &str,
    fetch: fn(&str) -> Fetched,
) -> (Vec<String>, Result<TreeStats, Error>) {
    let (mut p, mut step) = Pull::start(root);
    let mut trace = Vec::new();
    loop {
        step = match step {
            PullStep::Open(d) => {
                trace.push(format!("dir {}", d.local.join("/")));
                let r = match tree.get(&d.remote) {
                    Some(v) => Ok(v.clone()),
                    None => Err(Error::NotFound(d.remote.clone())),
                };
                p.listed(d, r)
            }
            PullStep::Fetch { remote, local, .. } => {
                trace.push(format!("{} <- {remote}", local.join("/")));
                p.fetched(fetch(&remote))
            }
            PullStep::Done(s) => return (trace, Ok(s)),
            PullStep::Failed(e) => return (trace, Err(e)),
        }
    }
}

fn phone_tree() -> BTreeMap<String, Vec<Entry>> {
    let mut t = BTreeMap::new();
    t.insert(
        "/1/d".to_string(),
        vec![
            entry("a", false, 3),
            entry("..", false, 9),
            entry("sub", true, 0),
            entry("x/y", true, 0),
            entry("z", false, 4),
        ],
    );
    t.insert("/1/d/sub".to_string(), vec![entry("b", false, 5)]);
    t
}

#[test]
fn a_tree_is_pulled_without_unsafe_names() {
    let (trace, r) = pull(&phone_tree(), "/1/d", |_| Fetched::Stored(10));
    assert_eq!(
        trace,
        ["dir ", "a <- /1/d/a", "dir sub", "sub/b <- /1/d/sub/b", "z <- /1/d/z"]
    );
    assert_eq!(r.unwrap(), TreeStats { files: 3, dirs: 2, bytes: 30, skipped: 2 });
}

#[test]
fn a_pull_counts_every_entry() {
    let tree = phone_tree();
    let walked: u64 = ["/1/d", "/1/d/sub"].iter().map(|d| tree[*d].len() as u64).sum();
    let (_, r) = pull(&tree, "/1/d", |p| Fetched::Stored(p.len() as u64));
    let s = r.unwrap();
    assert_eq!(s.files as u64 + (s.dirs as u64 - 1) + s.skipped as u64, walked);
    let fetched: usize = ["/1/d/a", "/1/d/sub/b", "/1/d/z"].iter().map(|p| p.len()).sum();
    assert_eq!(s.bytes, fetched as u64);
}

#[test]
fn a_pull_ends_with_the_first_failure() {
    let (trace, r) = pull(&phone_tree(), "/1/d", |p| {
        if p.ends_with("/b") {
            Fetched::Failed(Error::Disconnected)
        } else {
            Fetched::Unstaged
        }
    });
    assert_eq!(trace.last().unwrap(), "sub/b <- /1/d/sub/b");
    assert!(matches!(r, Err(Error::Disconnected)));
    let (_, r) = pull(&phone_tree(), "/1/none", |_| Fetched::Unstaged);
    assert!(matches!(r, Err(Error::NotFound(_))));
    let (_, r) = pull(&phone_tree(), "/1/d", |_| Fetched::Unstaged);
    assert_eq!(r.unwrap(), TreeStats { files: 0, dirs: 2, bytes: 0, skipped: 5 });
}

#[test]
fn a_device_tree_without_end_is_refused() {
    let mut t = BTreeMap::new();
    let mut path = "/1".to_string();
    for _ in 0..100 {
        t.insert(path.clone(), vec![entry("d", true, 0)]);
        path.push_str("/d");
    }
    let (trace, r) = pull(&t, "/1", |_| Fetched::Stored(0));
    assert_eq!(trace.len(), MAX_TREE_DEPTH + 1);
    match r {
        Err(Error::InvalidArgument(e)) => {
            assert!(e.starts_with("directory nesting exceeds 64 levels at /1/d/d"), "{e}")
        }
        other => panic!("{other:?}"),
    }
}

fn item(name: &str, kind: LocalKind) -> LocalItem {
    LocalItem { kind, name: Some(name.to_string()), shown: format!("/local/{name}") }
}

#[test]
fn a_tree_is_pushed_without_links_and_special_files() {
    let (mut p, mut step) = Push::start("/1/", Some("top".to_string()), "/local/top");
    let mut stacks: Vec<Vec<LocalItem>> = Vec::new();
    let mut trace = Vec::new();
    let stats = loop {
        step = match step {
            PushStep::Mkdir { dir, shown } => {
                trace.push(format!("mkdir {}", dir.remote));
                p.made(dir, shown, Ok(()))
            }
            PushStep::Enter(local) => {
                stacks.push(if local.is_empty() {
                    vec![
                        item("z", LocalKind::File),
                        item("sub", LocalKind::Dir),
                        LocalItem { kind: LocalKind::File, name: None, shown: "?".to_string() },
                        item("pipe", LocalKind::Other),
                        item("link", LocalKind::Symlink),
                        item("a", LocalKind::File),
                    ]
                } else {
                    vec![item("b", LocalKind::File)]
                });
                p.entered(Ok(()))
            }
            PushStep::Next => {
                let it = stacks.last_mut().unwrap().pop();
                if it.is_none() {
                    stacks.pop();
                }
                p.item(Ok(it))
            }
            PushStep::Upload { remote, name, local } => {
                trace.push(format!("{} -> {remote} {name}", local.join("/")));
                p.uploaded(Ok(7))
            }
            PushStep::Done(s) => break s,
            PushStep::Failed(e) => panic!("{e:?}"),
        }
    };
    assert_eq!(
        trace,
        [
            "mkdir /1/top",
            "a -> /1/top a",
            "mkdir /1/top/sub",
            "sub/b -> /1/top/sub b",
            "z -> /1/top z",
        ]
    );
    assert_eq!(stats, TreeStats { files: 3, dirs: 2, bytes: 21, skipped: 3 });
}

#[test]
fn failures_end_a_push() {
    let (_, step) = Push::start("/1", None, "/");
    assert!(matches!(
        step,
        PushStep::Failed(Error::InvalidArgument(t)) if t == "cannot derive a directory name from /"
    ));
    let (mut p, step) = Push::start("/1", Some("d".to_string()), "d");
    if let PushStep::Mkdir { dir, shown } = step {
        assert!(matches!(p.made(dir, shown, Err(Error::Timeout)), PushStep::Failed(Error::Timeout)));
    }
    assert!(matches!(p.entered(Err(Error::Timeout)), PushStep::Failed(Error::Timeout)));
    assert!(matches!(p.item(Err(Error::Timeout)), PushStep::Failed(Error::Timeout)));
    assert!(matches!(p.uploaded(Err(Error::Timeout)), PushStep::Failed(Error::Timeout)));
}

#[test]
fn a_local_tree_without_end_is_refused() {
    let (mut p, mut step) = Push::start("/1", Some("d".to_string()), "d");
    let mut made = 0;
    loop {
        step = match step {
            PushStep::Mkdir { dir, shown } => {
                made += 1;
                p.made(dir, shown, Ok(()))
            }
            PushStep::Enter(_) => p.entered(Ok(())),
            PushStep::Next => p.item(Ok(Some(item("d", LocalKind::Dir)))),
            PushStep::Failed(Error::InvalidArgument(t)) => {
                assert_eq!(t, "directory nesting exceeds 64 levels at /local/d");
                break;
            }
            other => panic!("{other:?}"),
        }
    }
    assert_eq!(made, MAX_TREE_DEPTH + 2);
}

#[test]
fn short_downloads_are_errors() {
    let p = Progress::start(10).advanced(4).advanced(6);
    assert_eq!(p.delivered().unwrap(), 10);
    let e = Progress::start(10).advanced(4).delivered().unwrap_err();
    assert!(e.to_string().contains("download delivered 4 of 10 bytes"), "{}", e.to_string());
    assert!(Progress::start(3).advanced(4).delivered().is_err());
}

#[test]
fn transfers_of_the_wrong_kind_are_refused() {
    let dir = Resolved { storage_index: 0, handle: 5, entry: entry("d", true, 0) };
    let file = Resolved { storage_index: 0, handle: 6, entry: entry("f", false, 0) };
    let root = Resolved { storage_index: 0, handle: 0, entry: entry("/", false, 0) };
    assert!(check_download("/1/f", &file).is_ok());
    let e = check_download("/1/d", &dir).unwrap_err();
    assert!(matches!(e, Error::WrongKind(t) if t == "/1/d is a directory (pull trees via ops::pull_tree)"));
    assert!(check_upload("/1/d", &dir, "x").is_ok());
    assert!(check_upload("/1", &root, "x").is_ok());
    assert!(matches!(
        check_upload("/1/f", &file, "a/b"),
        Err(Error::WrongKind(t)) if t == "/1/f is not a directory"
    ));
    assert!(matches!(
        check_upload("/1/d", &dir, "a/b"),
        Err(Error::InvalidArgument(t)) if t == "name must not contain '/': a/b"
    ));
}
