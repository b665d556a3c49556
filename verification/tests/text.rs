use pereprava::dirlist::{dedup_children, sort_children, Child};
use pereprava::posix::{file_name, is_absolute, is_root, join_path, parent};
use pereprava::text::{
    chars_of, dec_string, eq_ignore_ascii_case, is_white_space, same_text, split_chars, string_of,
    trim_chars, trim_end_chars,
};

#[test]
fn white_space_is_that_of_the_standard_library() {
    for u in 0..0x3100u32 {
        if let Some(c) = char::from_u32(u) {
            assert_eq!(is_white_space(c), c.is_whitespace(), "{u:x}");
        }
    }
}

#[test]
fn trimming_agrees_with_the_standard_library() {
    for s in ["", " ", " a ", "\u{2003}том\u{85}", "a b\n", "\u{200b}x"] {
        assert_eq!(string_of(&trim_chars(&chars_of(s))), s.trim());
        assert_eq!(string_of(&trim_end_chars(&chars_of(s))), s.trim_end());
    }
}

#[test]
fn splitting_agrees_with_the_standard_library() {
    for s in ["", "/", "a", "a/b", "//a//", "том/x"] {
        let got: Vec<String> = split_chars(&chars_of(s), '/').iter().map(|p| string_of(p)).collect();
        let want: Vec<String> = s.split('/').map(|p| p.to_string()).collect();
        assert_eq!(got, want, "{s}");
    }
}

#[test]
fn numbers_and_letters() {
    for n in [0, 9, 10, 12345, u64::MAX] {
        assert_eq!(dec_string(n), n.to_string());
    }
    assert!(eq_ignore_ascii_case("AbC", "aBc"));
    assert!(!eq_ignore_ascii_case("Ё", "ё"));
    assert!(same_text("x", "x") && !same_text("x", "xy"));
}

#[test]
fn paths_are_those_of_the_standard_library() {
    for s in [
        "", "/", "//", "a", "a/", "a/b", "/a", "/a/", "/a/b", "a/.", "./a", ".", "..", "a/..", "/..",
        "//a", "a//b", "/./a", "a/./b/", "a/b/.",
    ] {
        let p = std::path::Path::new(s);
        let name = p.file_name().map(|n| n.to_string_lossy().to_string());
        assert_eq!(file_name(s), name, "name of {s:?}");
        let up = parent(s);
        assert_eq!(up.is_some(), p.parent().is_some(), "parent of {s:?}");
        if let (Some(a), Some(b)) = (up, p.parent()) {
            assert_eq!(std::path::Path::new(&a), b, "parent of {s:?}");
        }
        assert_eq!(is_absolute(s), p.is_absolute(), "{s:?}");
        assert_eq!(is_root(s), p == std::path::Path::new("/"), "{s:?}");
        assert_eq!(
            std::path::PathBuf::from(join_path(s, "leaf")),
            p.join("leaf"),
            "{s:?} joined"
        );
    }
}

fn child(name: &str, id: u64) -> Child {
    Child { id, name: name.to_string(), is_dir: false, size: 0 }
}

#[test]
fn children_are_sorted_and_named_once() {
    let v = vec![child("b", 1), child("A", 2), child("a", 3), child("B", 4), child("Ё", 5)];
    let s = sort_children(&v);
    assert_eq!(s.iter().map(|c| c.id).collect::<Vec<_>>(), [2, 3, 1, 4, 5]);
    let d = dedup_children(&s);
    assert_eq!(d.iter().map(|c| c.id).collect::<Vec<_>>(), [2, 1, 5]);
}
