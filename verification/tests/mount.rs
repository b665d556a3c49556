use pereprava::mount::{
    active_mounts, admin_script, bind_failed, exit_error, is_alive_mount, mount_candidates,
    mount_next, mount_script, mounted_at, mounted_lines, mounted_path, osascript_escape, serving,
    sh_quote, unmount_next, unmount_script, unmount_warning, widget_unmount_script, Bind, Detach,
    DetachStep, Forcing, Running, Serving, REQUIRE_PRIVILEGED_SOURCE_PORT,
};

#[test]
fn quote_handles_single_quotes() {
    assert_eq!(sh_quote("/Volumes/a'b"), "'/Volumes/a'\\''b'");
}

#[test]
fn fallback_candidates_are_numbered() {
    let c = mount_candidates("/Volumes/pereprava");
    assert_eq!(c[0], "/Volumes/pereprava");
    assert_eq!(c[1], "/Volumes/pereprava-2");
    assert_eq!(c.last().unwrap(), "/Volumes/pereprava-9");
    assert_eq!(c.len(), 9);
}

#[test]
fn parses_mounted_marker_among_noise() {
    let out = "noise\nPEREPRAVA_MOUNTED=/Volumes/pereprava-3\n";
    assert_eq!(mounted_path(out).unwrap(), "/Volumes/pereprava-3");
    assert!(mounted_path("nothing here").is_none());
}

#[test]
fn is_alive_mount_is_false_for_stale_paths() {
    assert!(!is_alive_mount(None, Some(1)));
    assert!(!is_alive_mount(Some(1), None));
    assert!(!is_alive_mount(Some(1), Some(1)));
    assert!(is_alive_mount(Some(2), Some(1)));
}

#[test]
fn nfs_listener_allows_ephemeral_source_ports() {
    assert!(!REQUIRE_PRIVILEGED_SOURCE_PORT);
}

#[test]
fn marked_paths_are_trimmed_and_must_not_be_empty() {
    assert_eq!(mounted_path("  PEREPRAVA_MOUNTED= /a b \r\nx").unwrap(), "/a b");
    assert!(mounted_path("PEREPRAVA_MOUNTED=  \nPEREPRAVA_MOUNTED=/x").is_none());
    assert_eq!(mounted_at("PEREPRAVA_MOUNTED=/x"), Ok("/x".to_string()));
    assert_eq!(
        mounted_at(""),
        Err("mounted but PEREPRAVA_MOUNTED= was not reported".to_string())
    );
}

#[test]
fn candidates_of_odd_mount_points() {
    assert_eq!(mount_candidates("/")[1], "/pereprava-2");
    assert_eq!(mount_candidates("rel")[8], "rel-9");
    assert_eq!(mount_candidates("/a/b/")[0], "/a/b/");
    assert_eq!(mount_candidates("/a/b/")[1], "/a/b-2");
}

#[test]
fn the_mount_script_tries_every_place() {
    let s = mount_script(34567, "/Volumes/p", "/1/").unwrap();
    let first = "mkdir -p '/Volumes/p' && /sbin/mount_nfs -o soft,nolocks,vers=3,tcp,rsize=1048576,wsize=1048576,retry=1,retrans=2,timeo=50,port=34567,mountport=34567 '127.0.0.1:/1' '/Volumes/p' && { printf 'PEREPRAVA_MOUNTED=%s\\n' '/Volumes/p'; exit 0; }\n";
    assert!(s.starts_with(first), "{s}");
    assert_eq!(s.lines().count(), 10);
    assert!(s.ends_with("exit 1\n"));
    assert!(s.contains("'/Volumes/p-9'"));
    assert!(mount_script(1, "/v", "").unwrap().contains(" '127.0.0.1:/' "));
    assert!(mount_script(1, "/v", "/").unwrap().contains(" '127.0.0.1:/' "));
    assert!(mount_script(1, "/v", "//").unwrap().contains(" '127.0.0.1:/' "));
    assert!(mount_script(1, "/v", "///").unwrap().contains(" '127.0.0.1:/' "));
    assert!(mount_script(1, "/v", "x/").unwrap().contains(" '127.0.0.1:/x' "));
}

#[test]
fn dangerous_mount_points_are_refused() {
    let text = |p: &str| mount_script(1, p, "/").unwrap_err().to_string();
    assert!(text("/").contains("refusing to use `/` as a mount point"));
    assert!(text("//").contains("refusing to use `/` as a mount point"));
    assert!(text("rel/x").contains("mount point must be an absolute path: rel/x"));
}

#[test]
fn scripts_for_administrators() {
    assert_eq!(osascript_escape("a\\b\"c"), "a\\\\b\\\"c");
    assert_eq!(
        admin_script("echo \"x\""),
        "do shell script \"echo \\\"x\\\"\" with administrator privileges"
    );
    assert_eq!(
        unmount_script("/V/a b"),
        "/sbin/umount '/V/a b' 2>/dev/null || /sbin/umount -f '/V/a b'"
    );
    assert_eq!(widget_unmount_script(""), None);
    assert_eq!(
        widget_unmount_script("/V").unwrap(),
        "/sbin/umount '/V' 2>/dev/null || /sbin/umount -f '/V' 2>/dev/null || /usr/sbin/diskutil unmount force '/V'"
    );
}

#[test]
fn a_shell_reads_quoted_words_back() {
    for s in ["", "plain", "a'b", "''", "$(x) `y` \\ \" \n", "том"] {
        let q: Vec<char> = sh_quote(s).chars().collect();
        let (mut quoted, mut escaped, mut out) = (false, false, String::new());
        for c in q {
            if escaped {
                out.push(c);
                escaped = false;
            } else if quoted {
                if c == '\'' {
                    quoted = false;
                } else {
                    out.push(c);
                }
            } else if c == '\'' {
                quoted = true;
            } else {
                assert_eq!(c, '\\');
                escaped = true;
            }
        }
        assert!(!quoted && !escaped);
        assert_eq!(out, s);
    }
}

#[test]
fn mounts_are_found_in_the_output_of_mount() {
    let out = "/dev/disk1 on / (apfs)\n127.0.0.1:/ on /V/p-2 (nfs)\n127.0.0.1:/ on /V/p (nfs)\n";
    assert_eq!(active_mounts(out, "/V/p"), ["/V/p", "/V/p-2"]);
    assert!(active_mounts("x on /V/p-22 (nfs)", "/V/p").is_empty());
}

#[test]
fn detaching_goes_through_the_places() {
    let mut d = Detach::new("/V/p");
    assert_eq!(d.place().unwrap(), "/V/p");
    assert!(matches!(d.answered(Ok(())), DetachStep::Done { place: None }));
    let mut d = Detach::new("/V/p");
    assert!(matches!(d.answered(Err("a".to_string())), DetachStep::Try(p) if p == "/V/p-2"));
    assert!(matches!(
        d.answered(Ok(())),
        DetachStep::Done { place: Some(p) } if p == "/V/p-2"
    ));
    let mut d = Detach::new("/V/p");
    for i in 0..8 {
        assert!(matches!(d.answered(Err(format!("{i}"))), DetachStep::Try(_)));
    }
    assert!(matches!(d.answered(Err("last".to_string())), DetachStep::Failed(e) if e == "last"));
    assert!(d.place().is_none());
}

#[test]
fn force_has_two_tools() {
    assert_eq!(Forcing::Umount.program(), "/sbin/umount");
    assert_eq!(Forcing::Umount.arguments(), ["-f"]);
    assert_eq!(Forcing::Umount.failed(true, " x "), Ok(Forcing::Diskutil));
    assert_eq!(Forcing::Diskutil.arguments(), ["unmount", "force"]);
    assert_eq!(
        Forcing::Diskutil.failed(true, " busy\n"),
        Err("/usr/sbin/diskutil: busy".to_string())
    );
    assert_eq!(
        Forcing::Diskutil.failed(false, "not found"),
        Err("/usr/sbin/diskutil: not found".to_string())
    );
}

#[test]
fn what_is_said_while_serving() {
    assert!(matches!(
        serving(true, 7),
        Serving::Wait(t) if t == "serving NFS on 127.0.0.1:7 (no mount); Ctrl-C to stop"
    ));
    assert!(matches!(serving(false, 7), Serving::Mount));
    assert_eq!(
        mounted_lines("/V", true)[0],
        "mounted /V (read-only) — press Ctrl-C to unmount"
    );
    assert_eq!(
        mounted_lines("/V", false)[0],
        "mounted /V (writable) — press Ctrl-C to unmount"
    );
    assert_eq!(
        unmount_warning("busy", "/V"),
        "warning: unmount failed (busy); run `sudo umount -f /V` manually"
    );
    assert_eq!(exit_error("sh", "exit status: 1", " no \n"), "sh exited exit status: 1: no");
}

#[test]
fn an_occupied_port_is_waited_for() {
    assert!(matches!(
        bind_failed(9, true, false),
        Bind::WarnAndWait(t) if t == "watch: port 9 is already served by another pereprava instance; waiting for it to exit"
    ));
    assert!(matches!(bind_failed(9, true, true), Bind::Wait));
    assert!(matches!(
        bind_failed(9, false, true),
        Bind::Fail(t) if t == "binding NFS server on 127.0.0.1:9"
    ));
}

#[test]
fn the_administrator_is_asked_second() {
    let said = |t: &str| Ok::<String, String>(t.to_string());
    let failed = |t: &str| Err::<String, String>(t.to_string());
    match mount_next("/Volumes/p", Running::Plain, said("PEREPRAVA_MOUNTED=/Volumes/p-2\n")) {
        Running::Done(p) => assert_eq!(p, "/Volumes/p-2"),
        other => panic!("{other:?}"),
    }
    assert!(matches!(mount_next("/Volumes/p", Running::Plain, said("")), Running::Admin));
    assert!(matches!(mount_next("/Volumes/p", Running::Plain, failed("no")), Running::Admin));
    match mount_next("/Volumes/p", Running::Admin, said("PEREPRAVA_MOUNTED=/Volumes/p")) {
        Running::Done(p) => assert_eq!(p, "/Volumes/p"),
        other => panic!("{other:?}"),
    }
    match mount_next("/Volumes/p", Running::Admin, said("")) {
        Running::Silent(t) => assert_eq!(t, "mounted but PEREPRAVA_MOUNTED= was not reported"),
        other => panic!("{other:?}"),
    }
    match mount_next("/Volumes/p", Running::Admin, failed("cancelled")) {
        Running::Failed { context, error } => {
            assert_eq!(context, "mounting near /Volumes/p");
            assert_eq!(error, "cancelled");
        }
        other => panic!("{other:?}"),
    }
    assert!(matches!(unmount_next("/v", Running::Plain, failed("busy")), Running::Admin));
    assert!(matches!(unmount_next("/v", Running::Plain, said("")), Running::Done(p) if p == "/v"));
    assert!(matches!(unmount_next("/v", Running::Admin, said("")), Running::Done(p) if p == "/v"));
    match unmount_next("/v", Running::Admin, failed("cancelled")) {
        Running::Failed { context, error } => {
            assert_eq!(context, "unmounting /v");
            assert_eq!(error, "cancelled");
        }
        other => panic!("{other:?}"),
    }
}
