use pereprava::status::{
    jnum, json_escape, jstr, menu_unmount_script, status_body, status_temp, unmount_error,
    Snapshot, Status, STATUS_FILE,
};

#[test]
fn json_escape_handles_control_and_quote_chars() {
    assert_eq!(json_escape("a\"b"), "a\\\"b");
    assert_eq!(json_escape("a\\b"), "a\\\\b");
    assert_eq!(json_escape("a\nb"), "a\\nb");
    assert_eq!(json_escape("\u{1}"), "\\u0001");
}

#[test]
fn status_json_is_parsable_after_escaping() {
    let model = "A\\065\"x";
    let body = format!(
        "{{\"state\":\"attached\",\"model\":\"{}\"}}",
        json_escape(model)
    );
    assert_eq!(body, r#"{"state":"attached","model":"A\\065\"x"}"#);
}

#[test]
fn a_strict_reader_gets_every_text_back() {
    let mut odd = String::new();
    for c in 0u32..0x100 {
        odd.push(char::from_u32(c).unwrap());
    }
    for s in [odd.as_str(), "", "том", "🌉", "\\u0041", "\"\\\""] {
        let body = status_body(s, "m", "/V", 1, 2, 3, 4, 5);
        let v: serde_json::Value = serde_json::from_str(&body).unwrap();
        assert_eq!(v["state"].as_str().unwrap(), s);
        assert_eq!(v["ts"].as_u64().unwrap(), 5);
    }
}

#[test]
fn the_menu_bar_reads_what_was_written() {
    let body = status_body("attached", "model", "/Volumes/том", 10, 20, 30, u64::MAX, 99);
    assert_eq!(
        body,
        "{\"state\":\"attached\",\"model\":\"model\",\"mounted\":\"/Volumes/том\",\"rx\":10,\"tx\":20,\"speed_rx\":30,\"speed_tx\":18446744073709551615,\"ts\":99}"
    );
    let s = Status::parse(&body);
    assert_eq!((s.state.as_str(), s.model.as_str()), ("attached", "model"));
    assert_eq!(s.mounted, "/Volumes/том");
    assert_eq!((s.rx, s.tx, s.speed_rx, s.speed_tx), (10, 20, 30, u64::MAX));
}

#[test]
fn fields_are_taken_where_they_stand_first() {
    assert_eq!(jstr("{\"a\":\"x\",\"a\":\"y\"}", "a").unwrap(), "x");
    assert_eq!(jstr("{\"a\":\"x", "a"), None);
    assert_eq!(jstr("", "a"), None);
    assert_eq!(jnum("\"n\":12x", "n"), Some(12));
    assert_eq!(jnum("\"n\":", "n"), None);
    assert_eq!(jnum("\"n\":18446744073709551616", "n"), None);
    assert_eq!(jnum("\"nn\":1", "n"), None);
}

#[test]
fn what_is_absent_is_empty() {
    let s = Status::parse("garbage");
    assert_eq!((s.state.as_str(), s.rx), ("", 0));
    let d = Status::default();
    assert_eq!((d.state.as_str(), d.mounted.as_str(), d.speed_tx), ("", "", 0));
    assert_eq!(s.icon(), "🚧");
    assert_eq!(s.info_line(), "жду телефон (кабель + режим «Передача файлов»)");
    assert_eq!(s.volume_line(), "том: —");
}

#[test]
fn the_menu_shows_the_state() {
    let mut s = Status::default();
    s.state = "attached".to_string();
    assert_eq!(s.icon(), "🌉");
    assert_eq!(s.info_line(), "телефон · ▲ — ▼ —");
    s.model = "A065".to_string();
    s.mounted = "/V".to_string();
    s.speed_rx = 2 * 1024 * 1024;
    s.speed_tx = 2048;
    assert_eq!(s.icon(), "🌉⇅");
    assert_eq!(s.info_line(), "A065 · том готов · ▲ 2 KiB/s ▼ 2.0 MiB/s");
    assert_eq!(s.volume_line(), "том: /V");
    s.state = "gone".to_string();
    assert_eq!(s.icon(), "💤");
    assert_eq!(s.info_line(), "телефон отключён — настройки сохранены");
    assert_eq!(menu_unmount_script(""), None);
    assert_eq!(
        menu_unmount_script("/V").unwrap(),
        "do shell script \"umount '/V'\" with administrator privileges"
    );
}

fn snapshot(ts: u64) -> Snapshot {
    let mut status = Status::default();
    status.state = "attached".to_string();
    status.mounted = "/V".to_string();
    Snapshot { status, ts }
}

#[test]
fn old_snapshots_are_history() {
    assert_eq!(snapshot(100).fresh(115).status.state, "attached");
    let old = snapshot(100).fresh(116);
    assert_eq!((old.status.state.as_str(), old.status.mounted.as_str(), old.ts), ("stale", "", 100));
    assert_eq!(old.volume(), Err("том не смонтирован".to_string()));
    assert_eq!(snapshot(0).fresh(1_000_000).status.state, "attached");
    assert_eq!(snapshot(200).fresh(100).status.state, "attached");
    assert_eq!(snapshot(100).volume(), Ok("/V".to_string()));
    assert_eq!(Snapshot::empty().ts, 0);
}

#[test]
fn texts_of_the_widget() {
    assert_eq!(unmount_error("  \n"), "не удалось размонтировать");
    assert_eq!(unmount_error(" busy \n"), "busy");
    assert_eq!(status_temp(12, 3), "12-3");
    assert_eq!(STATUS_FILE, "/tmp/pereprava-status.json");
}
