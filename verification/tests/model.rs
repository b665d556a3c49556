use pereprava::model::Entry;

#[test]
fn entry_is_dir_defaults_size_zero_semantics() {
    let e = Entry {
        handle: 1,
        parent: 0,
        name: "DCIM".into(),
        is_dir: true,
        size: 0,
    };
    assert!(e.is_dir && e.size == 0);
}
