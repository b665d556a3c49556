use pereprava::error::Error;
use pereprava::path::DevPath;

#[test]
fn parses_storage_and_segments() {
    let p = DevPath::parse("/Internal shared storage/DCIM/Camera").expect("parse failed");
    assert_eq!(p.storage_ref, "Internal shared storage");
    assert_eq!(p.segments, vec!["DCIM".to_string(), "Camera".to_string()]);
    assert!(!p.is_root());
    assert_eq!(p.display(), "/Internal shared storage/DCIM/Camera");
}

#[test]
fn root_variants_are_recognized() {
    for raw in ["", "/", "  /  "] {
        let p = DevPath::parse(raw).expect("parse failed");
        assert!(p.is_root());
        assert_eq!(p.display(), "/");
    }
}

#[test]
fn rejects_dotdot() {
    assert!(matches!(
        DevPath::parse("/a/../b"),
        Err(Error::InvalidArgument(_))
    ));
}

#[test]
fn rejects_double_slash_segment() {
    assert!(matches!(
        DevPath::parse("//x"),
        Err(Error::InvalidArgument(_))
    ));
}

#[test]
fn faults_are_named() {
    let text = |s: &str| match DevPath::parse(s) {
        Err(e) => e.to_string(),
        Ok(p) => panic!("{p:?} was accepted"),
    };
    assert_eq!(
        text("/a/../b"),
        "invalid argument: `..` is not allowed in device paths: /a/../b"
    );
    assert_eq!(
        text("/a/./b"),
        "invalid argument: `.` is not allowed in device paths: /a/./b"
    );
    assert_eq!(
        text("/a/ /b"),
        "invalid argument: empty path segment in /a/ /b"
    );
    assert_eq!(
        text("/a/\0b"),
        "invalid argument: NUL character in /a/\0b"
    );
}

#[test]
fn display_parses_back() {
    for raw in ["/", "/1/DCIM/a b.jpg", "x/y/", "  /Карта SD/Фото "] {
        let p = DevPath::parse(raw).expect("parse failed");
        let q = DevPath::parse(&p.display()).expect("display must parse");
        assert_eq!(p, q);
    }
}
