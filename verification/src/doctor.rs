//! The report of the diagnosis: why a phone may not be talking to us.

use vstd::prelude::*;

use crate::format::{bytes_text, human_bytes};
use crate::model::{DeviceSummary, StorageSummary};
use crate::probe::{
    authorized_devices, count_authorized, held_elsewhere, mentions, or_unknown, ProbeDevice,
};
use crate::text::{dec, hex, occurs_at, owned, push_dec, texts};

verus! {

/// The lines that the report starts with.
pub fn title() -> (r: Vec<String>)
    ensures
        texts(r@) == seq!["pereprava doctor"@, "================"@],
{
    let mut v: Vec<String> = Vec::new();
    v.push(owned("pereprava doctor"));
    v.push(owned("================"));
    assert(texts(v@) =~= seq!["pereprava doctor"@, "================"@]);
    v
}

// ---------------------------------------------------------------------------
// The bus
// ---------------------------------------------------------------------------

/// What is said when the bus shows no device.
pub open spec fn nothing_visible() -> Seq<Seq<char>> {
    seq![
        ""@,
        "[1] USB: no MTP devices visible."@,
        "    - unlock the phone and set USB mode to \"File transfer / MTP\""@,
        "    - try another cable (must be a data cable, not charge-only)"@,
        "    - try another port; avoid hubs"@,
    ]
}

/// The short line of a device.
pub open spec fn device_text(d: ProbeDevice) -> Seq<char> {
    or_unknown(d.manufacturer) + " "@ + or_unknown(d.product) + " [vid="@ + hex(
        d.vendor_id as nat,
        4,
    ) + " pid="@ + hex(d.product_id as nat, 4) + "] speed="@ + or_unknown(d.speed)
}

/// The lines of a device.
pub open spec fn device_lines(d: ProbeDevice) -> Seq<Seq<char>> {
    let head = "    - "@ + device_text(d) + " serial="@ + match d.serial {
        Some(s) => s@,
        None => "-"@,
    };
    if d.speed is Some && occurs_at(d.speed->0@, "High"@, 0) {
        seq![head, "      note: link is USB 2.0 High speed (~40 MiB/s ceiling)"@]
    } else {
        seq![head]
    }
}

/// The lines of the first `n` devices.
pub open spec fn all_devices(devices: Seq<ProbeDevice>, n: nat) -> Seq<Seq<char>>
    decreases n,
{
    if n == 0 {
        Seq::empty()
    } else {
        all_devices(devices, (n - 1) as nat) + device_lines(devices[n - 1])
    }
}

/// What is said of the devices on the bus.
pub open spec fn bus_text(devices: Seq<ProbeDevice>) -> Seq<Seq<char>> {
    if devices.len() == 0 {
        nothing_visible()
    } else {
        seq![""@, "[1] USB: found "@ + dec(devices.len()) + " MTP candidate(s):"@] + all_devices(
            devices,
            devices.len(),
        )
    }
}

fn put(out: &mut Vec<String>, line: &str)
    ensures
        texts(final(out)@) == texts(old(out)@).push(line@),
{
    let s = owned(line);
    let ghost before = texts(out@);
    assert(texts(out@.push(s)) =~= before.push(s@));
    out.push(s);
}

/// What is said of the devices on the bus.
pub fn bus_lines(devices: &Vec<ProbeDevice>) -> (r: Vec<String>)
    ensures
        texts(r@) == bus_text(devices@),
{
    let mut out: Vec<String> = Vec::new();
    assert(texts(out@) =~= Seq::empty());
    if devices.len() == 0 {
        put(&mut out, "");
        put(&mut out, "[1] USB: no MTP devices visible.");
        put(
            &mut out,
            "    - unlock the phone and set USB mode to \"File transfer / MTP\"",
        );
        put(
            &mut out,
            "    - try another cable (must be a data cable, not charge-only)",
        );
        put(&mut out, "    - try another port; avoid hubs");
        assert(texts(out@) =~= nothing_visible());
        return out;
    }
    let mut head = owned("[1] USB: found ");
    push_dec(&mut head, devices.len() as u64);
    head.push_str(" MTP candidate(s):");
    put(&mut out, "");
    put(&mut out, head.as_str());
    let ghost title = texts(out@);
    assert(title =~= seq![""@, "[1] USB: found "@ + dec(devices@.len()) + " MTP candidate(s):"@]);
    assert(title + all_devices(devices@, 0) =~= title);
    let mut i: usize = 0;
    while i < devices.len()
        invariant
            i <= devices.len(),
            texts(out@) == title + all_devices(devices@, i as nat),
        decreases devices.len() - i,
    {
        let d = &devices[i];
        let ghost before = texts(out@);
        let mut s = owned("    - ");
        s.push_str(d.display().as_str());
        s.push_str(" serial=");
        match &d.serial {
            Some(x) => s.push_str(x.as_str()),
            None => s.push_str("-"),
        }
        put(&mut out, s.as_str());
        if d.is_high_speed() {
            put(&mut out, "      note: link is USB 2.0 High speed (~40 MiB/s ceiling)");
        }
        assert(texts(out@) =~= before + device_lines(devices@[i as int]));
        assert(title + all_devices(devices@, (i + 1) as nat) =~= title + all_devices(
            devices@,
            i as nat,
        ) + device_lines(devices@[i as int]));
        i = i + 1;
    }
    out
}

// ---------------------------------------------------------------------------
// The session
// ---------------------------------------------------------------------------

/// What is said before a session is opened.
pub fn opening_lines() -> (r: Vec<String>)
    ensures
        texts(r@) == seq![""@, "[2] Opening an MTP session..."@],
{
    let mut v: Vec<String> = Vec::new();
    v.push(owned(""));
    v.push(owned("[2] Opening an MTP session..."));
    assert(texts(v@) =~= seq![""@, "[2] Opening an MTP session..."@]);
    v
}

/// The line of a storage.
pub open spec fn storage_text(s: StorageSummary) -> Seq<char> {
    "    storage: "@ + s.description@ + " ("@ + bytes_text(s.free as nat) + " free)"@
}

/// What is said of a session.
pub open spec fn session_text(s: DeviceSummary) -> Seq<Seq<char>> {
    seq![
        "    OK: session established with "@ + match s.product {
            Some(p) => p@,
            None => "unknown model"@,
        },
    ] + s.storages@.map_values(|x: StorageSummary| storage_text(x))
}

/// What is said of a session.
pub fn session_lines(s: &DeviceSummary) -> (r: Vec<String>)
    ensures
        texts(r@) == session_text(*s),
{
    let mut out: Vec<String> = Vec::new();
    assert(texts(out@) =~= Seq::empty());
    let mut head = owned("    OK: session established with ");
    match &s.product {
        Some(p) => head.push_str(p.as_str()),
        None => head.push_str("unknown model"),
    }
    put(&mut out, head.as_str());
    let ghost title = texts(out@);
    let ghost all = s.storages@.map_values(|x: StorageSummary| storage_text(x));
    assert(title =~= seq![head@]);
    assert(title + all.take(0) =~= title);
    let mut i: usize = 0;
    while i < s.storages.len()
        invariant
            i <= s.storages.len(),
            all == s.storages@.map_values(|x: StorageSummary| storage_text(x)),
            texts(out@) == title + all.take(i as int),
        decreases s.storages.len() - i,
    {
        let st = &s.storages[i];
        let mut t = owned("    storage: ");
        t.push_str(st.description.as_str());
        t.push_str(" (");
        t.push_str(human_bytes(st.free).as_str());
        t.push_str(" free)");
        put(&mut out, t.as_str());
        assert(t@ == all[i as int]);
        assert(title + all.take(i + 1) =~= (title + all.take(i as int)).push(all[i as int]));
        i = i + 1;
    }
    assert(all.take(i as int) =~= all);
    out
}

/// The advice for a device that another process holds.
pub open spec fn advice() -> Seq<Seq<char>> {
    seq![
        ""@,
        "    This usually means another process grabbed the device:"@,
        "      * macOS `ptpcamerad` daemon — run while transferring:"@,
        "          while true; do pkill -9 ptpcamerad 2>/dev/null; sleep 1; done"@,
        "      * Android File Transfer app — quit it (it is abandoned anyway)"@,
    ]
}

/// What is said of a session that could not be opened.
pub open spec fn failure_text(error: Seq<char>) -> Seq<Seq<char>> {
    let head = seq!["    FAILED: "@ + error];
    if mentions(error, "exclusive"@) || mentions(error, "busy"@) || mentions(error, "access"@)
        || mentions(error, "claim"@) {
        head + advice()
    } else {
        head
    }
}

/// What is said of a session that could not be opened.
pub fn failure_lines(error: &str) -> (r: Vec<String>)
    ensures
        texts(r@) == failure_text(error@),
{
    let mut out: Vec<String> = Vec::new();
    assert(texts(out@) =~= Seq::empty());
    let mut head = owned("    FAILED: ");
    head.push_str(error);
    put(&mut out, head.as_str());
    if held_elsewhere(error) {
        put(&mut out, "");
        put(&mut out, "    This usually means another process grabbed the device:");
        put(&mut out, "      * macOS `ptpcamerad` daemon — run while transferring:");
        put(
            &mut out,
            "          while true; do pkill -9 ptpcamerad 2>/dev/null; sleep 1; done",
        );
        put(
            &mut out,
            "      * Android File Transfer app — quit it (it is abandoned anyway)",
        );
    }
    assert(texts(out@) =~= failure_text(error@));
    out
}

// ---------------------------------------------------------------------------
// ADB
// ---------------------------------------------------------------------------

/// What is said of the output of `adb devices`; none when it did not run.
pub open spec fn adb_text(output: Option<Seq<char>>) -> Seq<Seq<char>> {
    seq![""@, "[3] ADB transport probe (optional):"@] + match output {
        None => seq!["    adb binary not found (fine; MTP works without it)."@],
        Some(text) => if authorized_devices(text) > 0 {
            seq![
                "    adb present, "@ + dec(authorized_devices(text)) + " authorized device(s)."@,
                "    Future versions can use ADB as an accelerated zstd lane."@,
            ]
        } else {
            seq!["    adb present but no authorized device (that's fine)."@]
        },
    }
}

/// What is said of the output of `adb devices`; none when it did not run.
pub fn adb_lines(output: Option<&str>) -> (r: Vec<String>)
    ensures
        texts(r@) == adb_text(
            match output {
                Some(t) => Some(t@),
                None => None,
            },
        ),
{
    let mut out: Vec<String> = Vec::new();
    assert(texts(out@) =~= Seq::empty());
    put(&mut out, "");
    put(&mut out, "[3] ADB transport probe (optional):");
    match output {
        None => {
            put(&mut out, "    adb binary not found (fine; MTP works without it).");
            assert(texts(out@) =~= adb_text(None));
        },
        Some(text) => {
            let n = count_authorized(text);
            if n > 0 {
                let mut s = owned("    adb present, ");
                push_dec(&mut s, n as u64);
                s.push_str(" authorized device(s).");
                put(&mut out, s.as_str());
                put(
                    &mut out,
                    "    Future versions can use ADB as an accelerated zstd lane.",
                );
            } else {
                put(&mut out, "    adb present but no authorized device (that's fine).");
            }
            assert(texts(out@) =~= adb_text(Some(text@)));
        },
    }
    out
}

/// Every device on the bus is told of, in a line with its ids, and the number of
/// devices before them. One on a slow link has a note behind it, and no other.
pub proof fn law_every_device_is_told_of(devices: Seq<ProbeDevice>, i: int) -> (at: int)
    requires
        0 <= i < devices.len(),
    ensures
        2 <= at < bus_text(devices).len(),
        bus_text(devices)[1] == "[1] USB: found "@ + dec(devices.len()) + " MTP candidate(s):"@,
        bus_text(devices)[at] == "    - "@ + (or_unknown(devices[i].manufacturer) + " "@
            + or_unknown(devices[i].product) + " [vid="@ + hex(devices[i].vendor_id as nat, 4)
            + " pid="@ + hex(devices[i].product_id as nat, 4) + "] speed="@ + or_unknown(
            devices[i].speed,
        )) + " serial="@ + match devices[i].serial {
            Some(s) => s@,
            None => "-"@,
        },
        devices[i].speed is Some && occurs_at(devices[i].speed->0@, "High"@, 0) ==> at + 1
            < bus_text(devices).len() && bus_text(devices)[at + 1]
            == "      note: link is USB 2.0 High speed (~40 MiB/s ceiling)"@,
{
    let k = lemma_device_at(devices, devices.len(), i);
    k + 2
}

proof fn lemma_device_at(devices: Seq<ProbeDevice>, n: nat, i: int) -> (k: int)
    requires
        0 <= i < n <= devices.len(),
    ensures
        0 <= k,
        k + device_lines(devices[i]).len() <= all_devices(devices, n).len(),
        all_devices(devices, n)[k] == device_lines(devices[i])[0],
        device_lines(devices[i]).len() == 2 ==> all_devices(devices, n)[k + 1] == device_lines(
            devices[i],
        )[1],
    decreases n,
{
    if i == n - 1 {
        all_devices(devices, (n - 1) as nat).len() as int
    } else {
        lemma_device_at(devices, (n - 1) as nat, i)
    }
}

/// The lines of the devices are one each, and one more for each slow link.
pub open spec fn lines_for(devices: Seq<ProbeDevice>, n: nat) -> nat
    decreases n,
{
    if n == 0 {
        0
    } else {
        lines_for(devices, (n - 1) as nat) + 1 + if devices[n - 1].speed is Some && occurs_at(
            devices[n - 1].speed->0@,
            "High"@,
            0,
        ) {
            1nat
        } else {
            0
        }
    }
}

/// Nothing else is said of the devices on the bus.
pub proof fn law_only_devices_are_told_of(devices: Seq<ProbeDevice>, n: nat)
    requires
        n <= devices.len(),
    ensures
        all_devices(devices, n).len() == lines_for(devices, n),
        devices.len() == 0 ==> bus_text(devices)[1] == "[1] USB: no MTP devices visible."@,
    decreases n,
{
    if n > 0 {
        law_only_devices_are_told_of(devices, (n - 1) as nat);
    }
}

/// A session is told of with its model and with a line for each storage, which
/// names it and its free space.
pub proof fn law_session_is_told_of(s: DeviceSummary, i: int)
    requires
        0 <= i < s.storages@.len(),
    ensures
        session_text(s).len() == s.storages@.len() + 1,
        session_text(s)[0] == "    OK: session established with "@ + match s.product {
            Some(p) => p@,
            None => "unknown model"@,
        },
        session_text(s)[i + 1] == "    storage: "@ + s.storages@[i].description@ + " ("@
            + bytes_text(s.storages@[i].free as nat) + " free)"@,
{
}

/// A failure is told with its text, and with advice exactly when the text speaks
/// of the device being taken.
pub proof fn law_failure_is_told_of(error: Seq<char>)
    ensures
        failure_text(error)[0] == "    FAILED: "@ + error,
        failure_text(error).len() > 1 <==> (mentions(error, "exclusive"@) || mentions(
            error,
            "busy"@,
        ) || mentions(error, "access"@) || mentions(error, "claim"@)),
{
    assert(advice().len() == 5);
}

/// The output of `adb devices` is told of: its absence, its authorised devices
/// by their number, or that there is none.
pub proof fn law_adb_is_told_of(output: Seq<char>)
    ensures
        adb_text(None)[2] == "    adb binary not found (fine; MTP works without it)."@,
        authorized_devices(output) > 0 ==> adb_text(Some(output))[2] == "    adb present, "@ + dec(
            authorized_devices(output),
        ) + " authorized device(s)."@,
        authorized_devices(output) == 0 ==> adb_text(Some(output))[2]
            == "    adb present but no authorized device (that's fine)."@,
{
}

} // verus!
