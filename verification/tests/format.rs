use pereprava::format::{
    fmt_rate, human_bytes, human_rate, progress_line, ratio_text, secs_text,
};
use pereprava::model::Progress;

#[test]
fn formats_units() {
    assert_eq!(human_bytes(512), "512 B");
    assert_eq!(human_bytes(2048), "2.0 KiB");
    assert_eq!(human_bytes(5 * 1024 * 1024), "5.0 MiB");
}

#[test]
fn rate_handles_zero_time() {
    assert_eq!(human_rate(1000, 0), "n/a");
}

fn bytes(n: u64) -> String {
    const KIB: f64 = 1024.0;
    let f = n as f64;
    if n < 1024 {
        format!("{n} B")
    } else if f < KIB * KIB {
        format!("{:.1} KiB", f / KIB)
    } else if f < KIB * KIB * KIB {
        format!("{:.1} MiB", f / (KIB * KIB))
    } else {
        format!("{:.2} GiB", f / (KIB * KIB * KIB))
    }
}

fn samples() -> Vec<u64> {
    let mut v = vec![0, 1, 10, 1023, 1024, 1025, 1075, 1126, 1177, 1_048_575, 1_048_576];
    for n in (1 << 30) - 1001..(1 << 30) + 3 {
        v.push(n);
    }
    let mut x: u64 = 0x9E37_79B9_7F4A_7C15;
    for i in 0..2000u32 {
        x ^= x << 13;
        x ^= x >> 7;
        x ^= x << 17;
        v.push(x >> (i % 64));
    }
    v.push(u64::MAX);
    v.push((1 << 53) + 1);
    v
}

#[test]
fn byte_counts_agree_with_floating_point() {
    for n in samples() {
        assert_eq!(human_bytes(n), bytes(n), "{n}");
    }
}

#[test]
fn rates_agree_with_floating_point() {
    let v = samples();
    for i in 1..v.len() {
        let (b, ms) = (v[i], u128::from(v[i - 1]));
        if ms > 0 {
            let mib = b as f64 / (1024.0 * 1024.0);
            let secs = ms as f64 / 1000.0;
            assert_eq!(human_rate(b, ms), format!("{:.2} MiB/s", mib / secs), "{b} {ms}");
        }
    }
}

#[test]
fn speeds_agree_with_floating_point() {
    assert_eq!(fmt_rate(0), "—");
    for n in samples() {
        if n > 0 {
            let mib = n as f64 / (1024.0 * 1024.0);
            let want = if mib >= 1.0 {
                format!("{mib:.1} MiB/s")
            } else {
                format!("{:.0} KiB/s", n as f64 / 1024.0)
            };
            assert_eq!(fmt_rate(n), want, "{n}");
        }
    }
}

#[test]
fn ratios_and_seconds_agree_with_floating_point() {
    let v = samples();
    for i in 1..v.len() {
        let (a, b) = (v[i], v[i - 1]);
        if b > 0 {
            assert_eq!(ratio_text(a, b), format!("{:.2}", a as f64 / b as f64), "{a}/{b}");
        }
        let ms = u128::from(a);
        assert_eq!(secs_text(ms), format!("{:.2}", ms as f64 / 1000.0), "{ms}");
    }
}

fn pct(p: &Progress) -> f64 {
    if p.total == 0 {
        100.0
    } else {
        (p.done as f64 / p.total as f64 * 100.0).min(100.0)
    }
}

#[test]
fn progress_lines_agree_with_floating_point() {
    let v = samples();
    for i in 2..v.len() {
        let p = Progress { total: v[i], done: v[i - 1] };
        let ms = u128::from(v[i - 2] % 1_000_000);
        let rate = if ms > 0 {
            p.done as f64 / (ms as f64 / 1000.0) / (1024.0 * 1024.0)
        } else {
            0.0
        };
        let want = format!(
            "\r{:<28} {:>6.1}% {:>9} / {:<9} {:>7.1} MiB/s ",
            "pull x",
            pct(&p),
            human_bytes(p.done),
            human_bytes(p.total),
            rate,
        );
        assert_eq!(progress_line("pull x", &p, ms), want, "{p:?} {ms}");
    }
}

#[test]
fn progress_of_nothing_is_complete() {
    assert!(progress_line("x", &Progress { total: 0, done: 0 }, 0).contains(" 100.0%"));
    assert!(progress_line("x", &Progress { total: 10, done: 99 }, 0).contains(" 100.0%"));
}
