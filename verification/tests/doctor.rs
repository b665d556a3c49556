use pereprava::bench::{
    big_length, big_line, big_row, check_roundtrip, cleanup_line, fnv_update, list_line, list_row,
    next_chunk, remote_base, run_name, small_line, small_name, small_row, title, xorshift_fill,
    Bench, BenchEvent, BenchStep, Params, BIG_SEED, FNV_START,
};
use pereprava::doctor::{adb_lines, bus_lines, failure_lines, opening_lines, session_lines};
use pereprava::error::Error;
use pereprava::model::{DeviceSummary, StorageSummary};
use pereprava::probe::{
    connect_again, count_authorized, probed, speed_label, Choice, LinkSpeed, ProbeDevice,
};
use pereprava::watch::{Phase, Watch, WatchStep};

fn device(speed: Option<&str>) -> ProbeDevice {
    ProbeDevice {
        vendor_id: 0x19d2,
        product_id: 0x2a,
        manufacturer: Some("Nothing".to_string()),
        product: None,
        serial: Some("S1".to_string()),
        speed: speed.map(|s| s.to_string()),
    }
}

#[test]
fn devices_are_shown_with_their_ids() {
    assert_eq!(
        device(Some("High")).display(),
        "Nothing ? [vid=19d2 pid=002a] speed=High"
    );
    assert_eq!(device(None).clone().display(), "Nothing ? [vid=19d2 pid=002a] speed=?");
}

#[test]
fn link_speeds_have_labels() {
    assert_eq!(speed_label(LinkSpeed::Low), "Low (1.5 Mbit/s)");
    assert_eq!(speed_label(LinkSpeed::Full), "Full (12 Mbit/s)");
    assert_eq!(speed_label(LinkSpeed::High), "High (480 Mbit/s, USB 2.0)");
    assert_eq!(speed_label(LinkSpeed::Super), "Super (USB 3.x)");
    assert_eq!(speed_label(LinkSpeed::Other("SuperPlus".to_string())), "SuperPlus");
}

#[test]
fn the_first_device_with_storages_is_taken() {
    assert!(matches!(probed(Ok(1), 0), Choice::Keep));
    assert!(matches!(probed(Ok(0), 1), Choice::TryNext));
    assert!(matches!(probed(Err(Error::Timeout), 1), Choice::TryNext));
    assert!(matches!(probed(Err(Error::Timeout), 0), Choice::GiveUp(Error::Timeout)));
    assert!(matches!(probed(Ok(0), 0), Choice::GiveUp(Error::Mtp(_))));
}

#[test]
fn passing_failures_are_tried_again() {
    assert!(connect_again("Device BUSY", 1));
    assert!(connect_again("held Exclusively: exclusive access", 2));
    assert!(connect_again("timed out", 1));
    assert!(!connect_again("timed out", 3));
    assert!(!connect_again("no device", 1));
}

#[test]
fn authorised_devices_are_counted() {
    let out = "List of devices attached\r\nabc\tdevice\r\nxyz\tunauthorized\r\n\r\nq\tdevice\n";
    assert_eq!(count_authorized(out), 2);
    assert_eq!(count_authorized("a\tdevice\r"), 0);
    assert_eq!(count_authorized("a\tdevice"), 1);
    assert_eq!(count_authorized(""), 0);
    assert_eq!(count_authorized("List of devices"), 0);
}

#[test]
fn the_report_of_the_doctor() {
    assert_eq!(bus_lines(&Vec::new())[1], "[1] USB: no MTP devices visible.");
    let v = bus_lines(&vec![device(Some("High (480 Mbit/s, USB 2.0)")), device(None)]);
    assert_eq!(v[1], "[1] USB: found 2 MTP candidate(s):");
    assert_eq!(
        v[2],
        "    - Nothing ? [vid=19d2 pid=002a] speed=High (480 Mbit/s, USB 2.0) serial=S1"
    );
    assert_eq!(v[3], "      note: link is USB 2.0 High speed (~40 MiB/s ceiling)");
    assert_eq!(v.len(), 5);
    assert_eq!(pereprava::doctor::title()[0], "pereprava doctor");
    assert_eq!(opening_lines()[1], "[2] Opening an MTP session...");
    let s = DeviceSummary {
        vendor_id: 0,
        product_id: 0,
        manufacturer: None,
        product: None,
        serial: None,
        speed: None,
        firmware: None,
        storages: vec![StorageSummary {
            id: 1,
            description: "SD".to_string(),
            capacity: 1,
            free: 512,
            writable: true,
        }],
    };
    assert_eq!(
        session_lines(&s),
        ["    OK: session established with unknown model", "    storage: SD (512 B free)"]
    );
    assert_eq!(failure_lines("no device"), ["    FAILED: no device"]);
    assert_eq!(failure_lines("Access denied").len(), 6);
    assert_eq!(adb_lines(None)[2], "    adb binary not found (fine; MTP works without it).");
    assert_eq!(adb_lines(Some("a\tdevice\n"))[2], "    adb present, 1 authorized device(s).");
    assert_eq!(
        adb_lines(Some("List of\n"))[2],
        "    adb present but no authorized device (that's fine)."
    );
}

#[test]
fn checksums_go_over_pieces() {
    assert_eq!(fnv_update(FNV_START, b""), 0xcbf2_9ce4_8422_2325);
    assert_eq!(fnv_update(FNV_START, b"a"), 0xaf63_dc4c_8601_ec8c);
    assert_eq!(fnv_update(FNV_START, b"foobar"), 0x8594_4171_f739_67e8);
    assert_eq!(
        fnv_update(fnv_update(FNV_START, b"foo"), b"bar"),
        fnv_update(FNV_START, b"foobar")
    );
}

#[test]
fn test_data_are_reproducible() {
    let mut a = vec![0u8; 64];
    let mut seed = BIG_SEED;
    xorshift_fill(&mut a, &mut seed);
    let mut x: u64 = BIG_SEED | 1;
    for b in &a {
        x ^= x << 13;
        x ^= x >> 7;
        x ^= x << 17;
        assert_eq!(*b, x as u8);
    }
    assert_eq!(seed, x);
    let mut zero: u64 = 0;
    xorshift_fill(&mut a, &mut zero);
    assert_ne!(zero, 0);
}

#[test]
fn texts_of_a_run() {
    let p = Params { size_mib: 64, small_files: 200, bundle: false };
    assert_eq!(title(&p), "pereprava bench — 64 MiB file, 200 small files");
    assert_eq!(run_name(7), "pereprava-bench-7");
    assert_eq!(remote_base(7), "/1/pereprava-bench-7");
    assert_eq!(small_name(3), "f00003.dat");
    assert_eq!(small_name(1_234_567), "f1234567.dat");
    assert_eq!(big_length(64), 67_108_864);
    assert_eq!((next_chunk(5), next_chunk(u64::MAX)), (5, 1_048_576));
    assert_eq!(big_line("push", 1_048_576, 1000), "push   1.0 MiB : 1.00 MiB/s");
    assert_eq!(big_row("pull", 1_048_576, 1000), "| big pull | 1.0 MiB | 1.00 MiB/s |\n");
    assert_eq!(small_line(200, 500), "push      8KiB x 200 : 0.50 s total, 2.50 ms/file");
    assert_eq!(small_row(0, 500), "| small push | 0 x 8KiB | 500.00 ms/file |\n");
    assert_eq!(list_line(200, 12), "list   readdir : 200 entries in 12 ms");
    assert_eq!(list_row(200, 12), "| list 200 entries | 12 ms |\n");
    assert_eq!(cleanup_line(3), "cleanup: removed 3 remote object(s)");
    assert_eq!(
        check_roundtrip(0xab, 0xab),
        Ok("roundtrip checksum ok (0x00000000000000ab)".to_string())
    );
    assert_eq!(
        check_roundtrip(0xab, 0),
        Err("checksum mismatch after roundtrip (0xab != 0x0)".to_string())
    );
}

fn bench(p: Params, back: u64, fail_at: Option<BenchStep>) -> (Vec<BenchStep>, Bench) {
    let mut b = Bench::new(p);
    let mut trace = Vec::new();
    while b.step() != BenchStep::Done {
        let at = b.step();
        trace.push(at);
        let e = if fail_at == Some(at) {
            BenchEvent::Failed("broken".to_string())
        } else {
            match at {
                BenchStep::WriteBig => BenchEvent::Sum(5),
                BenchStep::SumBack => BenchEvent::Sum(back),
                BenchStep::PushBig | BenchStep::PullBig => BenchEvent::Took { ms: 1000, count: 1 },
                BenchStep::PushSmall | BenchStep::ListSmall => {
                    BenchEvent::Took { ms: 100, count: 2 }
                }
                _ => BenchEvent::Ready,
            }
        };
        b.after(e);
    }
    (trace, b)
}

#[test]
fn a_run_measures_and_cleans_up() {
    let all = Params { size_mib: 1, small_files: 2, bundle: true };
    let (t, b) = bench(all, 5, None);
    assert_eq!(t.len(), 10);
    assert_eq!(b.failure(), None);
    assert_eq!(
        b.rows(),
        "| big push | 1.0 MiB | 1.00 MiB/s |\n| big pull | 1.0 MiB | 1.00 MiB/s |\n| small push | 2 x 8KiB | 50.00 ms/file |\n| list 2 entries | 100 ms |"
    );
    let none = Params { size_mib: 0, small_files: 0, bundle: true };
    let (t, b) = bench(none, 5, None);
    assert_eq!(t, [BenchStep::Prepare, BenchStep::WriteBig, BenchStep::Clean]);
    assert_eq!(b.rows(), "");
}

#[test]
fn a_broken_run_cleans_up_too() {
    let all = Params { size_mib: 1, small_files: 2, bundle: false };
    let (t, b) = bench(all, 6, None);
    assert_eq!(*t.last().unwrap(), BenchStep::Clean);
    assert_eq!(
        b.failure().unwrap(),
        "checksum mismatch after roundtrip (0x5 != 0x6)"
    );
    let (t, b) = bench(all, 5, Some(BenchStep::PushBig));
    assert_eq!(
        t,
        [BenchStep::Prepare, BenchStep::WriteBig, BenchStep::PushBig, BenchStep::Clean]
    );
    assert_eq!(b.failure().unwrap(), "broken");
}

#[test]
fn the_watcher_mounts_once_and_keeps_the_mount() {
    let mut w = Watch::new(0, 0);
    assert!(matches!(w.tick(false), WatchStep::Connect));
    assert!(matches!(w.connected(None), WatchStep::Publish(Phase::Waiting)));
    assert!(matches!(w.connected(Some(None)), WatchStep::Attach(m) if m == "unknown"));
    let m = "A065".to_string();
    assert!(matches!(w.attached(m.clone(), false), WatchStep::Publish(Phase::Waiting)));
    assert_eq!(w.model(), "");
    assert!(matches!(w.attached(m.clone(), true), WatchStep::Mount));
    assert_eq!(w.model(), "A065");
    assert!(matches!(w.mounted(None), WatchStep::BackOff(Phase::Attached)));
    assert_eq!(w.release(), None);
    assert!(matches!(w.mounted(Some("/V".to_string())), WatchStep::Publish(Phase::Attached)));
    assert!(matches!(w.tick(true), WatchStep::Probe));
    assert!(matches!(w.probed(true), WatchStep::Publish(Phase::Attached)));
    assert!(matches!(w.probed(false), WatchStep::Detach(Phase::Gone)));
    assert!(matches!(w.attached(m, true), WatchStep::CheckMount(p) if p == "/V"));
    assert!(matches!(w.mount_checked(true), WatchStep::Publish(Phase::Attached)));
    assert!(matches!(w.mount_checked(false), WatchStep::Mount));
    assert_eq!((w.used(), w.release()), ("/V".to_string(), Some("/V".to_string())));
}

#[test]
fn traffic_is_counted_per_round() {
    let mut w = Watch::new(100, 10);
    assert_eq!(w.traffic(150, 10), (50, 0));
    assert_eq!(w.traffic(160, 5), (10, 0));
    assert_eq!(w.traffic(160, 9), (0, 4));
    assert_eq!(Phase::Gone.name(), "gone");
    assert_eq!(Phase::Stopped.name(), "stopped");
}
