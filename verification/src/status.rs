//! The status file: how the watcher writes it, and what the menu bar and the
//! widget read and show.

use vstd::prelude::*;

use crate::format::{fmt_rate, speed_text};
use crate::text::{
    all_digits, chars_of, dec, dec_value, digit_char, digits_value, find, find_chars, find_from,
    hex, is_dec_digit, lemma_dec_reads_back, occurs_at, owned, push_dec, push_hex, same_text,
    string_of, sub_chars, trim, trim_chars,
};

verus! {

/// Where the watcher publishes its state.
pub const STATUS_FILE: &'static str = "/tmp/pereprava-status.json";

/// A snapshot older than this many seconds is history.
pub const STALE_AFTER_SECS: u64 = 15;

// ---------------------------------------------------------------------------
// Writing
// ---------------------------------------------------------------------------

/// How `c` is written in a JSON string.
pub open spec fn json_char(c: char) -> Seq<char> {
    if c == '"' {
        seq!['\\', '"']
    } else if c == '\\' {
        seq!['\\', '\\']
    } else if c == '\n' {
        seq!['\\', 'n']
    } else if c == '\r' {
        seq!['\\', 'r']
    } else if c == '\t' {
        seq!['\\', 't']
    } else if (c as u32) < 0x20 {
        seq!['\\', 'u'] + hex((c as u32) as nat, 4)
    } else {
        seq![c]
    }
}

/// How `s` is written in a JSON string.
pub open spec fn json_text(s: Seq<char>) -> Seq<char>
    decreases s.len(),
{
    if s.len() == 0 {
        Seq::empty()
    } else {
        json_text(s.drop_last()) + json_char(s.last())
    }
}

/// Escapes a string for a JSON string literal.
pub fn json_escape(s: &str) -> (r: String)
    ensures
        r@ == json_text(s@),
{
    let v = chars_of(s);
    let mut out = String::new();
    let mut i: usize = 0;
    assert(v@.take(0) =~= Seq::empty());
    while i < v.len()
        invariant
            i <= v.len(),
            out@ == json_text(v@.take(i as int)),
        decreases v.len() - i,
    {
        let ghost before = out@;
        assert(v@.take(i + 1).drop_last() =~= v@.take(i as int));
        let c = v[i];
        let u: u32 = c as u32;
        if c == '"' || c == '\\' {
            out.push('\\');
            out.push(c);
        } else if c == '\n' {
            out.push('\\');
            out.push('n');
        } else if c == '\r' {
            out.push('\\');
            out.push('r');
        } else if c == '\t' {
            out.push('\\');
            out.push('t');
        } else if u < 0x20 {
            out.push('\\');
            out.push('u');
            push_hex(&mut out, u as u64, 4);
        } else {
            out.push(c);
        }
        assert(out@ =~= before + json_char(c));
        i = i + 1;
    }
    assert(v@.take(v@.len() as int) =~= v@);
    out
}

/// The contents of the status file.
pub open spec fn status_text(
    state: Seq<char>,
    model: Seq<char>,
    mounted: Seq<char>,
    rx: nat,
    tx: nat,
    speed_rx: nat,
    speed_tx: nat,
    ts: nat,
) -> Seq<char> {
    "{\"state\":\""@ + json_text(state) + "\",\"model\":\""@ + json_text(model)
        + "\",\"mounted\":\""@ + json_text(mounted) + "\",\"rx\":"@ + dec(rx) + ",\"tx\":"@ + dec(tx)
        + ",\"speed_rx\":"@ + dec(speed_rx) + ",\"speed_tx\":"@ + dec(speed_tx) + ",\"ts\":"@ + dec(
        ts,
    ) + "}"@
}

/// The contents of the status file.
pub fn status_body(
    state: &str,
    model: &str,
    mounted: &str,
    rx: u64,
    tx: u64,
    speed_rx: u64,
    speed_tx: u64,
    ts: u64,
) -> (r: String)
    ensures
        r@ == status_text(
            state@,
            model@,
            mounted@,
            rx as nat,
            tx as nat,
            speed_rx as nat,
            speed_tx as nat,
            ts as nat,
        ),
{
    let mut s = owned("{\"state\":\"");
    s.push_str(json_escape(state).as_str());
    s.push_str("\",\"model\":\"");
    s.push_str(json_escape(model).as_str());
    s.push_str("\",\"mounted\":\"");
    s.push_str(json_escape(mounted).as_str());
    s.push_str("\",\"rx\":");
    push_dec(&mut s, rx);
    s.push_str(",\"tx\":");
    push_dec(&mut s, tx);
    s.push_str(",\"speed_rx\":");
    push_dec(&mut s, speed_rx);
    s.push_str(",\"speed_tx\":");
    push_dec(&mut s, speed_tx);
    s.push_str(",\"ts\":");
    push_dec(&mut s, ts);
    s.push_str("}");
    s
}

/// The name of the private file through which the status passes.
pub fn status_temp(pid: u32, n: u64) -> (r: String)
    ensures
        r@ == dec(pid as nat) + "-"@ + dec(n as nat),
{
    let mut s = String::new();
    push_dec(&mut s, pid as u64);
    s.push_str("-");
    push_dec(&mut s, n);
    assert(s@ =~= dec(pid as nat) + "-"@ + dec(n as nat));
    s
}

// ---------------------------------------------------------------------------
// Reading
// ---------------------------------------------------------------------------

/// What stands before the text of a field.
pub open spec fn text_mark(key: Seq<char>) -> Seq<char> {
    seq!['"'] + key + seq!['"', ':', '"']
}

/// The text of a field: from the first mark to the next quote.
pub open spec fn text_field(src: Seq<char>, key: Seq<char>) -> Option<Seq<char>> {
    match find(src, text_mark(key)) {
        None => None,
        Some(i) => {
            let rest = src.skip(i + text_mark(key).len());
            match find(rest, seq!['"']) {
                None => None,
                Some(end) => Some(rest.take(end)),
            }
        },
    }
}

/// Extracts `"key":"value"`.
#[must_use]
pub fn jstr(src: &str, key: &str) -> (r: Option<String>)
    ensures
        match r {
            Some(t) => text_field(src@, key@) == Some(t@),
            None => text_field(src@, key@) is None,
        },
{
    let v = chars_of(src);
    let mut mark = String::new();
    mark.push('"');
    mark.push_str(key);
    mark.push('"');
    mark.push(':');
    mark.push('"');
    assert(mark@ =~= text_mark(key@));
    let pat = chars_of(mark.as_str());
    match find_chars(&v, &pat, 0) {
        None => None,
        Some(i) => {
            let len = v.len();
            let rest = sub_chars(&v, i + pat.len(), len);
            assert(rest@ =~= v@.skip(i + pat@.len()));
            let quote = vec!['"'];
            assert(quote@ =~= seq!['"']);
            match find_chars(&rest, &quote, 0) {
                None => None,
                Some(end) => {
                    let t = sub_chars(&rest, 0, end);
                    assert(t@ =~= rest@.take(end as int));
                    Some(string_of(&t))
                },
            }
        },
    }
}

/// What stands before the number of a field.
pub open spec fn number_mark(key: Seq<char>) -> Seq<char> {
    seq!['"'] + key + seq!['"', ':']
}

/// How many digits `s` starts with.
pub open spec fn lead_digits(s: Seq<char>) -> nat
    decreases s.len(),
{
    if s.len() > 0 && is_dec_digit(s[0]) {
        1 + lead_digits(s.skip(1))
    } else {
        0
    }
}

/// The number that `s` starts with, if there is one that fits.
pub open spec fn lead_number(s: Seq<char>) -> Option<nat> {
    let digits = s.take(lead_digits(s) as int);
    if digits.len() > 0 && dec_value(digits) <= u64::MAX {
        Some(dec_value(digits))
    } else {
        None
    }
}

/// The number of a field: the digits behind the first mark.
pub open spec fn number_field(src: Seq<char>, key: Seq<char>) -> Option<nat> {
    match find(src, number_mark(key)) {
        None => None,
        Some(i) => lead_number(src.skip(i + number_mark(key).len())),
    }
}

/// Extracts `"key":123`.
#[must_use]
pub fn jnum(src: &str, key: &str) -> (r: Option<u64>)
    ensures
        match r {
            Some(n) => number_field(src@, key@) == Some(n as nat),
            None => number_field(src@, key@) is None,
        },
{
    let v = chars_of(src);
    let mut mark = String::new();
    mark.push('"');
    mark.push_str(key);
    mark.push('"');
    mark.push(':');
    assert(mark@ =~= number_mark(key@));
    let pat = chars_of(mark.as_str());
    match find_chars(&v, &pat, 0) {
        None => None,
        Some(i) => {
            let len = v.len();
            let start = i + pat.len();
            let ghost rest = v@.skip(start as int);
            let mut end: usize = start;
            assert(rest.skip(0) =~= rest);
            while end < len && '0' <= v[end] && v[end] <= '9'
                invariant
                    start <= end <= len,
                    len == v.len(),
                    rest == v@.skip(start as int),
                    lead_digits(rest) == (end - start) + lead_digits(rest.skip(end - start)),
                    all_digits(rest.take(end - start)),
                decreases v.len() - end,
            {
                let ghost n = end - start;
                assert(rest.skip(n)[0] == v@[end as int]);
                assert(rest.skip(n).skip(1) =~= rest.skip(n + 1));
                assert(rest.take(n + 1) =~= rest.take(n).push(v@[end as int]));
                end = end + 1;
            }
            let digits = sub_chars(&v, start, end);
            assert(digits@ =~= rest.take(end - start));
            assert(lead_digits(rest.skip(end - start)) == 0);
            digits_value(&digits)
        },
    }
}

/// What the menu bar reads of the status file.
#[derive(Debug)]
pub struct Status {
    /// `waiting`, `attached` or `gone`.
    pub state: String,
    /// The name of the device model.
    pub model: String,
    /// The mount point in use, empty when there is none.
    pub mounted: String,
    /// Bytes pulled from the phone.
    pub rx: u64,
    /// Bytes pushed to the phone.
    pub tx: u64,
    /// The pull rate in bytes per second.
    pub speed_rx: u64,
    /// The push rate in bytes per second.
    pub speed_tx: u64,
}

/// The view of a [`Status`].
#[verifier::ext_equal]
pub struct StatusView {
    /// The state.
    pub state: Seq<char>,
    /// The name of the device model.
    pub model: Seq<char>,
    /// The mount point in use.
    pub mounted: Seq<char>,
    /// Bytes pulled from the phone.
    pub rx: nat,
    /// Bytes pushed to the phone.
    pub tx: nat,
    /// The pull rate.
    pub speed_rx: nat,
    /// The push rate.
    pub speed_tx: nat,
}

impl View for Status {
    type V = StatusView;

    open spec fn view(&self) -> StatusView {
        StatusView {
            state: self.state@,
            model: self.model@,
            mounted: self.mounted@,
            rx: self.rx as nat,
            tx: self.tx as nat,
            speed_rx: self.speed_rx as nat,
            speed_tx: self.speed_tx as nat,
        }
    }
}

impl Default for Status {
    fn default() -> (r: Self)
        ensures
            r@ == (StatusView {
                state: Seq::empty(),
                model: Seq::empty(),
                mounted: Seq::empty(),
                rx: 0,
                tx: 0,
                speed_rx: 0,
                speed_tx: 0,
            }),
    {
        let r = Status {
            state: String::new(),
            model: String::new(),
            mounted: String::new(),
            rx: 0,
            tx: 0,
            speed_rx: 0,
            speed_tx: 0,
        };
        assert(r.state@ =~= Seq::empty());
        assert(r.model@ =~= Seq::empty());
        assert(r.mounted@ =~= Seq::empty());
        r
    }
}

impl Clone for Status {
    fn clone(&self) -> (r: Self)
        ensures
            r == *self,
    {
        Status {
            state: self.state.clone(),
            model: self.model.clone(),
            mounted: self.mounted.clone(),
            rx: self.rx,
            tx: self.tx,
            speed_rx: self.speed_rx,
            speed_tx: self.speed_tx,
        }
    }
}

/// A text or, in its absence, the empty one.
pub open spec fn or_empty(t: Option<Seq<char>>) -> Seq<char> {
    match t {
        Some(x) => x,
        None => Seq::empty(),
    }
}

/// A number or, in its absence, zero.
pub open spec fn or_zero(n: Option<nat>) -> nat {
    match n {
        Some(x) => x,
        None => 0,
    }
}

/// What the menu bar reads in the text `raw`.
pub open spec fn read_status(raw: Seq<char>) -> StatusView {
    StatusView {
        state: or_empty(text_field(raw, "state"@)),
        model: or_empty(text_field(raw, "model"@)),
        mounted: or_empty(text_field(raw, "mounted"@)),
        rx: or_zero(number_field(raw, "rx"@)),
        tx: or_zero(number_field(raw, "tx"@)),
        speed_rx: or_zero(number_field(raw, "speed_rx"@)),
        speed_tx: or_zero(number_field(raw, "speed_tx"@)),
    }
}

fn text_of(raw: &str, key: &str) -> (r: String)
    ensures
        r@ == or_empty(text_field(raw@, key@)),
{
    match jstr(raw, key) {
        Some(t) => t,
        None => {
            let t = String::new();
            assert(t@ =~= Seq::empty());
            t
        },
    }
}

fn count_of(raw: &str, key: &str) -> (r: u64)
    ensures
        r as nat == or_zero(number_field(raw@, key@)),
{
    match jnum(raw, key) {
        Some(n) => n,
        None => 0,
    }
}

impl Status {
    /// Reads the known fields; what is absent is empty or zero.
    #[must_use]
    pub fn parse(raw: &str) -> (r: Self)
        ensures
            r@ == read_status(raw@),
    {
        Status {
            state: text_of(raw, "state"),
            model: text_of(raw, "model"),
            mounted: text_of(raw, "mounted"),
            rx: count_of(raw, "rx"),
            tx: count_of(raw, "tx"),
            speed_rx: count_of(raw, "speed_rx"),
            speed_tx: count_of(raw, "speed_tx"),
        }
    }

    /// The icon of the menu bar.
    pub fn icon(&self) -> (r: String)
        ensures
            r@ == icon_text(self@),
    {
        if same_text(self.state.as_str(), "attached") {
            if self.speed_tx > 0 || self.speed_rx > 0 {
                owned("🌉⇅")
            } else {
                owned("🌉")
            }
        } else if same_text(self.state.as_str(), "gone") {
            owned("💤")
        } else {
            owned("🚧")
        }
    }

    /// The first line of the menu.
    pub fn info_line(&self) -> (r: String)
        ensures
            r@ == info_text(self@),
    {
        if same_text(self.state.as_str(), "attached") {
            let mut s = if same_text(self.model.as_str(), "") {
                owned("телефон")
            } else {
                owned(self.model.as_str())
            };
            if !same_text(self.mounted.as_str(), "") {
                s.push_str(" · том готов");
            }
            s.push_str(" · ▲ ");
            s.push_str(fmt_rate(self.speed_tx).as_str());
            s.push_str(" ▼ ");
            s.push_str(fmt_rate(self.speed_rx).as_str());
            s
        } else if same_text(self.state.as_str(), "gone") {
            owned("телефон отключён — настройки сохранены")
        } else {
            owned("жду телефон (кабель + режим «Передача файлов»)")
        }
    }

    /// The line of the menu with the volume.
    pub fn volume_line(&self) -> (r: String)
        ensures
            r@ == "том: "@ + if self.mounted@ == ""@ {
                "—"@
            } else {
                self.mounted@
            },
    {
        let mut s = owned("том: ");
        if same_text(self.mounted.as_str(), "") {
            s.push_str("—");
        } else {
            s.push_str(self.mounted.as_str());
        }
        s
    }
}

/// The icon for a status.
pub open spec fn icon_text(s: StatusView) -> Seq<char> {
    if s.state == "attached"@ {
        if s.speed_tx + s.speed_rx > 0 {
            "🌉⇅"@
        } else {
            "🌉"@
        }
    } else if s.state == "gone"@ {
        "💤"@
    } else {
        "🚧"@
    }
}

/// The first line of the menu for a status.
pub open spec fn info_text(s: StatusView) -> Seq<char> {
    if s.state == "attached"@ {
        let model = if s.model == ""@ {
            "телефон"@
        } else {
            s.model
        };
        let head = if s.mounted == ""@ {
            model
        } else {
            model + " · том готов"@
        };
        head + " · ▲ "@ + speed_text(s.speed_tx) + " ▼ "@ + speed_text(s.speed_rx)
    } else if s.state == "gone"@ {
        "телефон отключён — настройки сохранены"@
    } else {
        "жду телефон (кабель + режим «Передача файлов»)"@
    }
}

/// The AppleScript with which the menu bar detaches the volume; none when no
/// volume is mounted.
pub fn menu_unmount_script(path: &str) -> (r: Option<String>)
    ensures
        match r {
            Some(s) => path@ != ""@ && s@ == "do shell script \"umount '"@ + path@
                + "'\" with administrator privileges"@,
            None => path@ == ""@,
        },
{
    if same_text(path, "") {
        return None;
    }
    let mut s = owned("do shell script \"umount '");
    s.push_str(path);
    s.push_str("'\" with administrator privileges");
    Some(s)
}

// ---------------------------------------------------------------------------
// The widget
// ---------------------------------------------------------------------------

/// What the widget shows: the fields of the status file with the time at which
/// it was written.
#[derive(Debug)]
pub struct Snapshot {
    /// The status.
    pub status: Status,
    /// Unix seconds at which the watcher wrote it; zero when unknown.
    pub ts: u64,
}

impl Snapshot {
    /// The snapshot without any value.
    pub fn empty() -> (r: Self)
        ensures
            r.status@ == (StatusView {
                state: Seq::empty(),
                model: Seq::empty(),
                mounted: Seq::empty(),
                rx: 0,
                tx: 0,
                speed_rx: 0,
                speed_tx: 0,
            }),
            r.ts == 0,
    {
        Snapshot { status: Status::default(), ts: 0 }
    }

    /// What is shown of the snapshot at the time `now`: nothing but its age
    /// when it is too old.
    pub fn fresh(self, now: u64) -> (r: Self)
        ensures
            r.ts == self.ts,
            r.status@ == if self.ts != 0 && now - self.ts > STALE_AFTER_SECS {
                StatusView {
                    state: "stale"@,
                    model: Seq::empty(),
                    mounted: Seq::empty(),
                    rx: 0,
                    tx: 0,
                    speed_rx: 0,
                    speed_tx: 0,
                }
            } else {
                self.status@
            },
    {
        if self.ts != 0 && now.saturating_sub(self.ts) > STALE_AFTER_SECS {
            let mut status = Status::default();
            status.state = owned("stale");
            Snapshot { status, ts: self.ts }
        } else {
            self
        }
    }

    /// The mounted volume.
    pub fn volume(&self) -> (r: std::result::Result<String, String>)
        ensures
            match r {
                Ok(p) => p@ == self.status.mounted@ && p@ != ""@,
                Err(e) => self.status.mounted@ == ""@ && e@ == "том не смонтирован"@,
            },
    {
        if same_text(self.status.mounted.as_str(), "") {
            Err(owned("том не смонтирован"))
        } else {
            Ok(self.status.mounted.clone())
        }
    }
}

/// The error of an unmount that failed with `stderr`.
pub fn unmount_error(stderr: &str) -> (r: String)
    ensures
        r@ == if trim(stderr@).len() == 0 {
            "не удалось размонтировать"@
        } else {
            trim(stderr@)
        },
{
    let t = trim_chars(&chars_of(stderr));
    if t.len() == 0 {
        owned("не удалось размонтировать")
    } else {
        string_of(&t)
    }
}

// ---------------------------------------------------------------------------
// What the escape promises
// ---------------------------------------------------------------------------

/// How a JSON reader stands within a string.
pub enum JsonState {
    /// Outside of an escape.
    Plain,
    /// Behind a backslash.
    Escape,
    /// Behind `\u` and so many digits of the given value.
    Hex {
        /// How many digits were read.
        digits: nat,
        /// Their value.
        value: nat,
    },
    /// At the end of the string, or at something that no string may hold.
    Ended,
}

/// The value of a hexadecimal digit.
pub open spec fn hex_value(c: char) -> Option<nat> {
    if '0' <= c && c <= '9' {
        Some((c as nat - '0' as nat) as nat)
    } else if 'a' <= c && c <= 'f' {
        Some((c as nat - 'a' as nat + 10) as nat)
    } else if 'A' <= c && c <= 'F' {
        Some((c as nat - 'A' as nat + 10) as nat)
    } else {
        None
    }
}

/// Where a JSON reader goes from a state, and what it adds to the string.
pub open spec fn json_next(state: JsonState, c: char) -> (JsonState, Seq<char>) {
    match state {
        JsonState::Plain => if c == '\\' {
            (JsonState::Escape, Seq::empty())
        } else if c == '"' || (c as u32) < 0x20 {
            (JsonState::Ended, Seq::empty())
        } else {
            (JsonState::Plain, seq![c])
        },
        JsonState::Escape => if c == '"' || c == '\\' || c == '/' {
            (JsonState::Plain, seq![c])
        } else if c == 'n' {
            (JsonState::Plain, seq!['\n'])
        } else if c == 'r' {
            (JsonState::Plain, seq!['\r'])
        } else if c == 't' {
            (JsonState::Plain, seq!['\t'])
        } else if c == 'b' {
            (JsonState::Plain, seq!['\u{8}'])
        } else if c == 'f' {
            (JsonState::Plain, seq!['\u{c}'])
        } else if c == 'u' {
            (JsonState::Hex { digits: 0, value: 0 }, Seq::empty())
        } else {
            (JsonState::Ended, Seq::empty())
        },
        JsonState::Hex { digits, value } => match hex_value(c) {
            None => (JsonState::Ended, Seq::empty()),
            Some(d) => if digits == 3 {
                (JsonState::Plain, seq![(value * 16 + d) as char])
            } else {
                (JsonState::Hex { digits: digits + 1, value: value * 16 + d }, Seq::empty())
            },
        },
        JsonState::Ended => (JsonState::Ended, Seq::empty()),
    }
}

/// What a JSON reader makes of a text within quotes.
pub open spec fn json_read(text: Seq<char>) -> (JsonState, Seq<char>)
    decreases text.len(),
{
    if text.len() == 0 {
        (JsonState::Plain, Seq::empty())
    } else {
        let (state, out) = json_read(text.drop_last());
        let (next, more) = json_next(state, text.last());
        (next, out + more)
    }
}

proof fn lemma_json_step(text: Seq<char>, c: char)
    ensures
        json_read(text.push(c)) == ({
            let (state, out) = json_read(text);
            let (next, more) = json_next(state, c);
            (next, out + more)
        }),
{
    assert(text.push(c).drop_last() =~= text);
}

proof fn lemma_json_char(a: Seq<char>, c: char, s: Seq<char>)
    requires
        json_read(a) == (JsonState::Plain, s),
    ensures
        json_read(a + json_char(c)) == (JsonState::Plain, s.push(c)),
{
    let e = json_char(c);
    if c == '"' || c == '\\' || c == '\n' || c == '\r' || c == '\t' {
        lemma_json_step(a, e[0]);
        lemma_json_step(a.push(e[0]), e[1]);
        assert(a + e =~= a.push(e[0]).push(e[1]));
        assert(s + Seq::<char>::empty() + seq![c] =~= s.push(c));
    } else if (c as u32) < 0x20 {
        let n = (c as u32) as nat;
        reveal_with_fuel(hex, 5);
        let d0 = digit_char(n / 16 / 16 / 16 % 16);
        let d1 = digit_char(n / 16 / 16 % 16);
        let d2 = digit_char(n / 16 % 16);
        let d3 = digit_char(n % 16);
        assert(hex(n, 4) =~= seq![d0, d1, d2, d3]);
        assert(n / 16 / 16 == 0);
        assert(hex_value(d0) == Some(0nat));
        assert(hex_value(d1) == Some(0nat));
        assert(hex_value(d2) == Some(n / 16));
        assert(hex_value(d3) == Some(n % 16));
        let a1 = a.push('\\');
        let a2 = a1.push('u');
        lemma_json_step(a, '\\');
        lemma_json_step(a1, 'u');
        lemma_json_step(a2, d0);
        lemma_json_step(a2.push(d0), d1);
        lemma_json_step(a2.push(d0).push(d1), d2);
        lemma_json_step(a2.push(d0).push(d1).push(d2), d3);
        assert(a + e =~= a2.push(d0).push(d1).push(d2).push(d3));
        assert(n / 16 * 16 + n % 16 == n);
        assert(json_read(a + e).1 =~= s.push(c));
    } else {
        lemma_json_step(a, c);
        assert(a + e =~= a.push(c));
        assert(s + seq![c] =~= s.push(c));
    }
}

/// A JSON reader gets every escaped text back as it was, and nothing in it
/// ends the string.
pub proof fn law_json_reads_escaped_text_back(s: Seq<char>)
    ensures
        json_read(json_text(s)) == (JsonState::Plain, s),
    decreases s.len(),
{
    if s.len() == 0 {
        assert(s =~= Seq::empty());
    } else {
        law_json_reads_escaped_text_back(s.drop_last());
        lemma_json_char(json_text(s.drop_last()), s.last(), s.drop_last());
        assert(s =~= s.drop_last().push(s.last()));
    }
}

/// Texts with quotes between them.
pub open spec fn quoted(parts: Seq<Seq<char>>) -> Seq<char>
    decreases parts.len(),
{
    if parts.len() == 0 {
        Seq::empty()
    } else if parts.len() == 1 {
        parts[0]
    } else {
        parts[0] + seq!['"'] + quoted(parts.skip(1))
    }
}

/// True when no text holds a quote.
pub open spec fn quoteless(parts: Seq<Seq<char>>) -> bool {
    forall|i: int| 0 <= i < parts.len() ==> !(#[trigger] parts[i]).contains('"')
}

/// True when `s` starts with `head`.
pub open spec fn starts_with(s: Seq<char>, head: Seq<char>) -> bool {
    s.len() >= head.len() && s.take(head.len() as int) == head
}

/// A position counted from further on.
pub open spec fn shifted(at: Option<int>, by: int) -> Option<int> {
    match at {
        Some(i) => Some(i + by),
        None => None,
    }
}

proof fn lemma_find_shift(s: Seq<char>, pat: Seq<char>, n: int, from: int)
    requires
        0 <= n <= s.len(),
        0 <= from,
    ensures
        find_from(s, pat, n + from) == shifted(find_from(s.skip(n), pat, from), n),
    decreases s.len() - n - from,
{
    let t = s.skip(n);
    if n + from + pat.len() <= s.len() {
        assert(t.subrange(from, from + pat.len()) =~= s.subrange(
            n + from,
            n + from + pat.len(),
        ));
        if !occurs_at(t, pat, from) && from != t.len() {
            lemma_find_shift(s, pat, n, from + 1);
        }
    }
}

proof fn lemma_find_skip(s: Seq<char>, pat: Seq<char>, n: int)
    requires
        0 <= n <= s.len(),
        pat.len() > 0,
        forall|i: int| 0 <= i < n ==> #[trigger] s[i] != pat[0],
    ensures
        find(s, pat) == shifted(find(s.skip(n), pat), n),
    decreases n,
{
    if n == 0 {
        assert(s.skip(0) =~= s);
    } else {
        assert(!occurs_at(s, pat, 0)) by {
            if occurs_at(s, pat, 0) {
                assert(s.subrange(0, pat.len() as int)[0] == s[0]);
            }
        }
        let t = s.skip(1);
        lemma_find_shift(s, pat, 1, 0);
        lemma_find_skip(t, pat, n - 1);
        assert(t.skip(n - 1) =~= s.skip(n));
        if s.len() < pat.len() {
            assert(find(s, pat) is None);
            assert(find(s.skip(n), pat) is None);
        }
    }
}

/// A key between two quotes, and what follows it, stand at the start of quoted
/// texts only where the first of them is the key.
proof fn lemma_key_here(parts: Seq<Seq<char>>, key: Seq<char>, tail: Seq<char>)
    requires
        quoteless(parts),
        parts.len() > 0,
        !key.contains('"'),
    ensures
        starts_with(quoted(parts), key + seq!['"'] + tail) <==> parts[0] == key && parts.len() > 1
            && starts_with(quoted(parts.skip(1)), tail),
{
    let q = quoted(parts);
    let head = key + seq!['"'] + tail;
    let n = parts[0].len();
    assert(!parts[0].contains('"'));
    if starts_with(q, head) {
        let h = q.take(head.len() as int);
        assert(h[key.len() as int] == '"');
        assert(q[key.len() as int] == '"');
        if n > key.len() {
            assert(parts[0][key.len() as int] == '"');
            assert(false);
        }
        if parts.len() == 1 {
            assert(false);
        }
        assert(q[n as int] == '"');
        if n < key.len() {
            assert(h[n as int] == key[n as int]);
            assert(key.contains(key[n as int]));
            assert(false);
        }
        assert forall|i: int| 0 <= i < n implies parts[0][i] == key[i] by {
            assert(h[i] == q[i]);
        }
        assert(parts[0] =~= key);
        let r = quoted(parts.skip(1));
        assert(r.take(tail.len() as int) =~= tail) by {
            assert forall|i: int| 0 <= i < tail.len() implies r[i] == tail[i] by {
                assert(h[key.len() + 1 + i] == tail[i]);
                assert(q[key.len() + 1 + i] == r[i]);
            }
        }
    }
    if parts[0] == key && parts.len() > 1 && starts_with(quoted(parts.skip(1)), tail) {
        let r = quoted(parts.skip(1));
        assert forall|i: int| 0 <= i < head.len() implies q[i] == head[i] by {
            if i > key.len() {
                assert(r.take(tail.len() as int)[i - key.len() - 1] == tail[i - key.len() - 1]);
            }
        }
        assert(q.take(head.len() as int) =~= head);
    }
}

/// The first key between quotes with `tail` behind it is found.
proof fn lemma_find_key(parts: Seq<Seq<char>>, k: int, key: Seq<char>, tail: Seq<char>)
    requires
        quoteless(parts),
        !key.contains('"'),
        1 <= k < parts.len() - 1,
        parts[k] == key,
        starts_with(quoted(parts.skip(k + 1)), tail),
        forall|j: int|
            1 <= j < k ==> #[trigger] parts[j] != key || !starts_with(
                quoted(parts.skip(j + 1)),
                tail,
            ),
    ensures
        ({
            let pat = seq!['"'] + (key + seq!['"'] + tail);
            let at = find(quoted(parts), pat);
            &&& at is Some
            &&& 0 <= at->0
            &&& at->0 + pat.len() <= quoted(parts).len()
            &&& quoted(parts).skip(at->0 + pat.len()) == quoted(parts.skip(k + 1)).skip(
                tail.len() as int,
            )
        }),
    decreases parts.len(),
{
    let head = key + seq!['"'] + tail;
    let pat = seq!['"'] + head;
    let s = quoted(parts);
    let more = parts.skip(1);
    let q = quoted(more);
    let n = parts[0].len() as int;
    assert(!parts[0].contains('"'));
    assert(s == parts[0] + seq!['"'] + q);
    assert forall|i: int| 0 <= i < n implies #[trigger] s[i] != pat[0] by {
        assert(s[i] == parts[0][i]);
    }
    lemma_find_skip(s, pat, n);
    let t = s.skip(n);
    assert(t =~= seq!['"'] + q);
    assert(quoteless(more)) by {
        assert forall|i: int| 0 <= i < more.len() implies !(#[trigger] more[i]).contains('"') by {
            assert(more[i] == parts[i + 1]);
        }
    }
    lemma_key_here(more, key, tail);
    assert(occurs_at(t, pat, 0) <==> starts_with(q, head)) by {
        if starts_with(q, head) {
            assert(t.subrange(0, pat.len() as int) =~= seq!['"'] + q.take(head.len() as int));
        }
        if occurs_at(t, pat, 0) {
            assert(q.take(head.len() as int) =~= t.subrange(0, pat.len() as int).skip(1));
            assert(pat.skip(1) =~= head);
        }
    }
    assert(more.skip(1) =~= parts.skip(2));
    if k == 1 {
        assert(find(t, pat) == Some(0int));
        let rest = quoted(parts.skip(2));
        assert(q == key + seq!['"'] + rest);
        assert(s.skip(n + pat.len()) =~= rest.skip(tail.len() as int));
    } else {
        assert(parts[1] == more[0]);
        assert(!occurs_at(t, pat, 0));
        lemma_find_shift(t, pat, 1, 0);
        assert(t.skip(1) =~= q);
        assert forall|j: int| 1 <= j < k - 1 implies #[trigger] more[j] != key || !starts_with(
            quoted(more.skip(j + 1)),
            tail,
        ) by {
            assert(more[j] == parts[j + 1]);
            assert(more.skip(j + 1) =~= parts.skip(j + 2));
        }
        assert(more[k - 1] == parts[k]);
        assert(more.skip(k) =~= parts.skip(k + 1));
        lemma_find_key(more, k - 1, key, tail);
        let at = find(q, pat)->0;
        assert(find(t, pat) == find_from(t, pat, 1)) by {
            if t.len() < pat.len() {
                assert(q.len() < pat.len());
            }
        }
        assert(find(s, pat) == Some(at + 1 + n));
        assert(s.skip(at + 1 + n + pat.len()) =~= q.skip(at + pat.len()));
    }
}

/// The text of a field is read where the key is followed by a colon alone.
proof fn lemma_read_text(parts: Seq<Seq<char>>, k: int, key: Seq<char>)
    requires
        quoteless(parts),
        !key.contains('"'),
        1 <= k < parts.len() - 3,
        parts[k] == key,
        parts[k + 1] == seq![':'],
        forall|j: int| 1 <= j < k ==> #[trigger] parts[j] != key || parts[j + 1] != seq![':'],
    ensures
        text_field(quoted(parts), key) == Some(parts[k + 2]),
{
    let tail = seq![':', '"'];
    let pat = seq!['"'] + (key + seq!['"'] + tail);
    assert(text_mark(key) =~= pat);
    assert forall|j: int| 1 <= j <= k implies #[trigger] starts_with(
        quoted(parts.skip(j + 1)),
        tail,
    ) == (parts[j + 1] == seq![':']) by {
        let p = parts.skip(j + 1);
        assert(p[0] == parts[j + 1]);
        assert(!parts[j + 1].contains('"'));
        let q = quoted(p);
        if parts[j + 1] == seq![':'] {
            assert(q.take(2) =~= tail);
        }
        if starts_with(q, tail) {
            assert(q.take(2)[0] == ':' && q.take(2)[1] == '"');
            assert(q[0] == ':' && q[1] == '"');
            if p[0].len() > 1 {
                assert(p[0][1] == '"');
                assert(false);
            }
            if p[0].len() == 0 {
                assert(q[0] == '"');
                assert(false);
            }
            assert(p[0] =~= seq![':']);
        }
    }
    lemma_find_key(parts, k, key, tail);
    let p = parts.skip(k + 1);
    assert(p.skip(1) =~= parts.skip(k + 2));
    let r = quoted(parts.skip(k + 2));
    assert(quoted(p).skip(2) =~= r);
    let v = parts[k + 2];
    assert(!v.contains('"'));
    assert(parts.skip(k + 2)[0] == v);
    let one = seq!['"'];
    assert forall|i: int| 0 <= i < v.len() implies #[trigger] r[i] != one[0] by {
        assert(r[i] == v[i]);
    }
    lemma_find_skip(r, one, v.len() as int);
    let t = r.skip(v.len() as int);
    assert(t.subrange(0, 1) =~= one);
    assert(find(t, one) == Some(0int));
    assert(r.take(v.len() as int) =~= v);
}

proof fn lemma_lead(n: nat, rest: Seq<char>)
    requires
        n <= u64::MAX,
        rest.len() > 0,
        !is_dec_digit(rest[0]),
    ensures
        lead_number(dec(n) + rest) == Some(n),
{
    lemma_dec_reads_back(n);
    lemma_lead_digits(dec(n), rest);
    let s = dec(n) + rest;
    assert(s.take(dec(n).len() as int) =~= dec(n));
}

proof fn lemma_lead_digits(d: Seq<char>, rest: Seq<char>)
    requires
        all_digits(d),
        rest.len() > 0,
        !is_dec_digit(rest[0]),
    ensures
        lead_digits(d + rest) == d.len(),
    decreases d.len(),
{
    let s = d + rest;
    if d.len() > 0 {
        assert(is_dec_digit(d[0]));
        let e = d.skip(1);
        assert(all_digits(e)) by {
            assert forall|i: int| 0 <= i < e.len() implies is_dec_digit(#[trigger] e[i]) by {
                assert(e[i] == d[i + 1]);
            }
        }
        lemma_lead_digits(e, rest);
        assert(s.skip(1) =~= e + rest);
    } else {
        assert(s =~= rest);
    }
}

/// The number of a field is read where a colon follows the key.
proof fn lemma_read_number(
    parts: Seq<Seq<char>>,
    k: int,
    key: Seq<char>,
    n: nat,
    rest: Seq<char>,
)
    requires
        quoteless(parts),
        !key.contains('"'),
        1 <= k < parts.len() - 1,
        parts[k] == key,
        n <= u64::MAX,
        rest.len() > 0,
        !is_dec_digit(rest[0]),
        parts[k + 1] == seq![':'] + dec(n) + rest,
        forall|j: int|
            1 <= j < k ==> #[trigger] parts[j] != key || !starts_with(parts[j + 1], seq![':']),
    ensures
        number_field(quoted(parts), key) == Some(n),
{
    let tail = seq![':'];
    let pat = seq!['"'] + (key + seq!['"'] + tail);
    assert(number_mark(key) =~= pat);
    assert forall|j: int| 1 <= j <= k implies #[trigger] starts_with(
        quoted(parts.skip(j + 1)),
        tail,
    ) == starts_with(parts[j + 1], tail) by {
        let p = parts.skip(j + 1);
        assert(p[0] == parts[j + 1]);
        let q = quoted(p);
        if p[0].len() > 0 {
            assert(q.take(1) =~= p[0].take(1));
        } else if p.len() > 1 {
            assert(q[0] == '"');
            assert(q.take(1)[0] != tail[0]);
        }
    }
    assert(parts[k + 1].take(1) =~= tail);
    lemma_find_key(parts, k, key, tail);
    let p = parts.skip(k + 1);
    assert(p[0] == parts[k + 1]);
    let behind = if p.len() > 1 {
        seq!['"'] + quoted(p.skip(1))
    } else {
        Seq::empty()
    };
    assert(quoted(p).skip(1) =~= dec(n) + (rest + behind));
    assert((rest + behind)[0] == rest[0]);
    lemma_lead(n, rest + behind);
}

/// True when `s` is written in a JSON string as it is.
pub open spec fn plain(s: Seq<char>) -> bool {
    forall|i: int|
        0 <= i < s.len() ==> #[trigger] s[i] != '"' && s[i] != '\\' && (s[i] as u32) >= 0x20
}

proof fn lemma_plain(s: Seq<char>)
    requires
        plain(s),
    ensures
        json_text(s) == s,
        !s.contains('"'),
    decreases s.len(),
{
    if s.len() > 0 {
        let t = s.drop_last();
        assert(plain(t)) by {
            assert forall|i: int| 0 <= i < t.len() implies #[trigger] t[i] != '"' && t[i] != '\\' && (
            t[i] as u32) >= 0x20 by {
                assert(t[i] == s[i]);
            }
        }
        lemma_plain(t);
        assert(json_char(s.last()) =~= seq![s.last()]);
        assert(t + seq![s.last()] =~= s);
    } else {
        assert(s =~= Seq::empty());
    }
}

/// The status file between its quotes.
spec fn status_parts(
    state: Seq<char>,
    model: Seq<char>,
    mounted: Seq<char>,
    rx: nat,
    tx: nat,
    speed_rx: nat,
    speed_tx: nat,
    ts: nat,
) -> Seq<Seq<char>> {
    seq![
        seq!['{'],
        "state"@,
        seq![':'],
        state,
        seq![','],
        "model"@,
        seq![':'],
        model,
        seq![','],
        "mounted"@,
        seq![':'],
        mounted,
        seq![','],
        "rx"@,
        seq![':'] + dec(rx) + seq![','],
        "tx"@,
        seq![':'] + dec(tx) + seq![','],
        "speed_rx"@,
        seq![':'] + dec(speed_rx) + seq![','],
        "speed_tx"@,
        seq![':'] + dec(speed_tx) + seq![','],
        "ts"@,
        seq![':'] + dec(ts) + seq!['}'],
    ]
}

proof fn lemma_keys()
    ensures
        "state"@ =~= seq!['s', 't', 'a', 't', 'e'],
        "model"@ =~= seq!['m', 'o', 'd', 'e', 'l'],
        "mounted"@ =~= seq!['m', 'o', 'u', 'n', 't', 'e', 'd'],
        "rx"@ =~= seq!['r', 'x'],
        "tx"@ =~= seq!['t', 'x'],
        "speed_rx"@ =~= seq!['s', 'p', 'e', 'e', 'd', '_', 'r', 'x'],
        "speed_tx"@ =~= seq!['s', 'p', 'e', 'e', 'd', '_', 't', 'x'],
        "ts"@ =~= seq!['t', 's'],
{
    reveal_strlit("state");
    reveal_strlit("model");
    reveal_strlit("mounted");
    reveal_strlit("rx");
    reveal_strlit("tx");
    reveal_strlit("speed_rx");
    reveal_strlit("speed_tx");
    reveal_strlit("ts");
}

proof fn lemma_quoted_push(parts: Seq<Seq<char>>, last: Seq<char>)
    requires
        parts.len() > 0,
    ensures
        quoted(parts.push(last)) == quoted(parts) + seq!['"'] + last,
    decreases parts.len(),
{
    let p = parts.push(last);
    let q = seq!['"'];
    let more = parts.skip(1).push(last);
    assert(p.skip(1) =~= more);
    assert(p[0] == parts[0]);
    if parts.len() == 1 {
        assert(more =~= seq![last]);
        assert(quoted(more) == last);
    } else {
        lemma_quoted_push(parts.skip(1), last);
        let r = quoted(parts.skip(1));
        assert(quoted(parts) == parts[0] + q + r);
        assert(quoted(p) == parts[0] + q + quoted(more));
        assert(parts[0] + q + (r + q + last) =~= parts[0] + q + r + q + last);
    }
}

/// A text field behind the text `a`.
proof fn lemma_text_part(
    parts: Seq<Seq<char>>,
    a: Seq<char>,
    before: Seq<char>,
    key: Seq<char>,
    text: Seq<char>,
    lit: Seq<char>,
)
    requires
        parts.len() > 0,
        quoted(parts) == a + before,
        lit == before + seq!['"'] + key + seq!['"', ':', '"'],
    ensures
        quoted(parts.push(key).push(seq![':']).push(text).push(seq![','])) == a + lit + text + seq![
            '"',
            ',',
        ],
{
    let q = seq!['"'];
    let colon = seq![':'];
    lemma_quoted_push(parts, key);
    lemma_quoted_push(parts.push(key), colon);
    lemma_quoted_push(parts.push(key).push(colon), text);
    lemma_quoted_push(parts.push(key).push(colon).push(text), seq![',']);
    assert(a + before + q + key + q + colon + q + text + q + seq![','] =~= a + lit + text + seq![
        '"',
        ',',
    ]);
}

/// A number field behind the text `a`.
proof fn lemma_number_part(
    parts: Seq<Seq<char>>,
    a: Seq<char>,
    before: Seq<char>,
    key: Seq<char>,
    digits: Seq<char>,
    end: char,
    lit: Seq<char>,
)
    requires
        parts.len() > 0,
        quoted(parts) == a + before,
        lit == before + seq!['"'] + key + seq!['"', ':'],
    ensures
        quoted(parts.push(key).push(seq![':'] + digits + seq![end])) == a + lit + digits + seq![end],
{
    let q = seq!['"'];
    let number = seq![':'] + digits + seq![end];
    lemma_quoted_push(parts, key);
    lemma_quoted_push(parts.push(key), number);
    assert(a + before + q + key + q + number =~= a + lit + digits + seq![end]);
}

proof fn lemma_parts_quoteless(
    state: Seq<char>,
    model: Seq<char>,
    mounted: Seq<char>,
    rx: nat,
    tx: nat,
    speed_rx: nat,
    speed_tx: nat,
    ts: nat,
)
    requires
        !state.contains('"'),
        !model.contains('"'),
        !mounted.contains('"'),
    ensures
        quoteless(status_parts(state, model, mounted, rx, tx, speed_rx, speed_tx, ts)),
{
    let parts = status_parts(state, model, mounted, rx, tx, speed_rx, speed_tx, ts);
    lemma_keys();
    lemma_number_quoteless(rx, ',');
    lemma_number_quoteless(tx, ',');
    lemma_number_quoteless(speed_rx, ',');
    lemma_number_quoteless(speed_tx, ',');
    lemma_number_quoteless(ts, '}');
    assert(parts.len() == 23);
}

proof fn lemma_number_quoteless(n: nat, end: char)
    requires
        end != '"',
    ensures
        !(seq![':'] + dec(n) + seq![end]).contains('"'),
{
    lemma_dec_reads_back(n);
    let s = seq![':'] + dec(n) + seq![end];
    if s.contains('"') {
        let i = choose|i: int| 0 <= i < s.len() && s[i] == '"';
        assert(0 < i < s.len() - 1);
        assert(s[i] == dec(n)[i - 1]);
        assert(is_dec_digit(dec(n)[i - 1]));
    }
}

proof fn lemma_status_parts(
    state: Seq<char>,
    model: Seq<char>,
    mounted: Seq<char>,
    rx: nat,
    tx: nat,
    speed_rx: nat,
    speed_tx: nat,
    ts: nat,
)
    requires
        json_text(state) == state,
        json_text(model) == model,
        json_text(mounted) == mounted,
    ensures
        quoted(status_parts(state, model, mounted, rx, tx, speed_rx, speed_tx, ts))
            == status_text(state, model, mounted, rx, tx, speed_rx, speed_tx, ts),
{
    let parts = status_parts(state, model, mounted, rx, tx, speed_rx, speed_tx, ts);
    let none = Seq::<char>::empty();
    let open = seq!['{'];
    let colon = seq![':'];
    let comma = seq![','];
    let both = seq!['"', ','];
    let p0 = seq![open];
    let p1 = p0.push("state"@).push(colon).push(state).push(comma);
    let p2 = p1.push("model"@).push(colon).push(model).push(comma);
    let p3 = p2.push("mounted"@).push(colon).push(mounted).push(comma);
    let p4 = p3.push("rx"@).push(colon + dec(rx) + comma);
    let p5 = p4.push("tx"@).push(colon + dec(tx) + comma);
    let p6 = p5.push("speed_rx"@).push(colon + dec(speed_rx) + comma);
    let p7 = p6.push("speed_tx"@).push(colon + dec(speed_tx) + comma);
    let p8 = p7.push("ts"@).push(colon + dec(ts) + seq!['}']);
    assert(parts =~= p8);
    let l1 = "{\"state\":\""@;
    let l2 = "\",\"model\":\""@;
    let l3 = "\",\"mounted\":\""@;
    let l4 = "\",\"rx\":"@;
    let l5 = ",\"tx\":"@;
    let l6 = ",\"speed_rx\":"@;
    let l7 = ",\"speed_tx\":"@;
    let l8 = ",\"ts\":"@;
    lemma_marks();
    let a1 = l1 + state;
    let a2 = a1 + l2 + model;
    let a3 = a2 + l3 + mounted;
    let a4 = a3 + l4 + dec(rx);
    let a5 = a4 + l5 + dec(tx);
    let a6 = a5 + l6 + dec(speed_rx);
    let a7 = a6 + l7 + dec(speed_tx);
    assert(none + open =~= open);
    lemma_text_part(p0, none, open, "state"@, state, l1);
    assert(none + l1 =~= l1);
    lemma_text_part(p1, a1, both, "model"@, model, l2);
    lemma_text_part(p2, a2, both, "mounted"@, mounted, l3);
    lemma_number_part(p3, a3, both, "rx"@, dec(rx), ',', l4);
    lemma_number_part(p4, a4, comma, "tx"@, dec(tx), ',', l5);
    lemma_number_part(p5, a5, comma, "speed_rx"@, dec(speed_rx), ',', l6);
    lemma_number_part(p6, a6, comma, "speed_tx"@, dec(speed_tx), ',', l7);
    lemma_number_part(p7, a7, comma, "ts"@, dec(ts), '}', l8);
}

/// What the marks between the values are made of.
proof fn lemma_marks()
    ensures
        "{\"state\":\""@ == seq!['{'] + seq!['"'] + "state"@ + seq!['"', ':', '"'],
        "\",\"model\":\""@ == seq!['"', ','] + seq!['"'] + "model"@ + seq!['"', ':', '"'],
        "\",\"mounted\":\""@ == seq!['"', ','] + seq!['"'] + "mounted"@ + seq!['"', ':', '"'],
        "\",\"rx\":"@ == seq!['"', ','] + seq!['"'] + "rx"@ + seq!['"', ':'],
        ",\"tx\":"@ == seq![','] + seq!['"'] + "tx"@ + seq!['"', ':'],
        ",\"speed_rx\":"@ == seq![','] + seq!['"'] + "speed_rx"@ + seq!['"', ':'],
        ",\"speed_tx\":"@ == seq![','] + seq!['"'] + "speed_tx"@ + seq!['"', ':'],
        ",\"ts\":"@ == seq![','] + seq!['"'] + "ts"@ + seq!['"', ':'],
        "}"@ == seq!['}'],
{
    lemma_keys();
    reveal_strlit("{\"state\":\"");
    reveal_strlit("\",\"model\":\"");
    reveal_strlit("\",\"mounted\":\"");
    reveal_strlit("\",\"rx\":");
    reveal_strlit(",\"tx\":");
    reveal_strlit(",\"speed_rx\":");
    reveal_strlit(",\"speed_tx\":");
    reveal_strlit(",\"ts\":");
    reveal_strlit("}");
}

/// No key stands with a colon behind it before its own place.
proof fn lemma_first_key(
    state: Seq<char>,
    model: Seq<char>,
    mounted: Seq<char>,
    rx: nat,
    tx: nat,
    speed_rx: nat,
    speed_tx: nat,
    ts: nat,
    k: int,
    j: int,
)
    requires
        k == 1 || k == 5 || k == 9 || k == 13 || k == 15 || k == 17 || k == 19 || k == 21,
        1 <= j < k,
    ensures
        ({
            let parts = status_parts(state, model, mounted, rx, tx, speed_rx, speed_tx, ts);
            parts[j] != parts[k] || !starts_with(parts[j + 1], seq![':'])
        }),
{
    let parts = status_parts(state, model, mounted, rx, tx, speed_rx, speed_tx, ts);
    lemma_keys();
    let key = parts[k];
    assert(key.len() >= 2 && key[0] != ':');
    if j == 2 || j == 4 || j == 6 || j == 8 || j == 10 || j == 12 {
        assert(parts[j].len() == 1);
    } else if j == 3 || j == 7 || j == 11 {
        assert(parts[j + 1][0] == ',');
        assert(parts[j + 1].take(1)[0] == ',');
    } else if j == 14 || j == 16 || j == 18 || j == 20 {
        assert(parts[j][0] == ':');
    } else {
        assert(parts[j].len() != key.len() || parts[j][0] != key[0] || parts[j][6] != key[6] || (
        key.len() == 2 && parts[j][1] != key[1]));
    }
}

/// What the watcher writes, the menu bar reads back, where the texts hold no
/// quote, no backslash and no control character.
pub proof fn law_menu_bar_reads_what_the_watcher_wrote(
    state: Seq<char>,
    model: Seq<char>,
    mounted: Seq<char>,
    rx: nat,
    tx: nat,
    speed_rx: nat,
    speed_tx: nat,
    ts: nat,
)
    requires
        plain(state),
        plain(model),
        plain(mounted),
        rx <= u64::MAX,
        tx <= u64::MAX,
        speed_rx <= u64::MAX,
        speed_tx <= u64::MAX,
    ensures
        read_status(status_text(state, model, mounted, rx, tx, speed_rx, speed_tx, ts)) == (
        StatusView { state, model, mounted, rx, tx, speed_rx, speed_tx }),
{
    lemma_plain(state);
    lemma_plain(model);
    lemma_plain(mounted);
    let parts = status_parts(state, model, mounted, rx, tx, speed_rx, speed_tx, ts);
    lemma_status_parts(state, model, mounted, rx, tx, speed_rx, speed_tx, ts);
    lemma_parts_quoteless(state, model, mounted, rx, tx, speed_rx, speed_tx, ts);
    let colon = seq![':'];
    let comma = seq![','];
    assert(starts_with(colon, colon)) by {
        assert(colon.take(1) =~= colon);
    }
    assert forall|k: int, j: int|
        (k == 1 || k == 5 || k == 9 || k == 13 || k == 15 || k == 17 || k == 19) && 1 <= j
            < k implies #[trigger] parts[j] != #[trigger] parts[k] || !starts_with(
        parts[j + 1],
        colon,
    ) by {
        lemma_first_key(state, model, mounted, rx, tx, speed_rx, speed_tx, ts, k, j);
    }
    lemma_read_text(parts, 1, parts[1]);
    lemma_read_text(parts, 5, parts[5]);
    lemma_read_text(parts, 9, parts[9]);
    lemma_read_number(parts, 13, parts[13], rx, comma);
    lemma_read_number(parts, 15, parts[15], tx, comma);
    lemma_read_number(parts, 17, parts[17], speed_rx, comma);
    lemma_read_number(parts, 19, parts[19], speed_tx, comma);
}

/// The icon and the line of the menu follow the state, whatever the model and
/// the mount are called: a phone that is attached is named, with the speeds up
/// and down, and the icon shows whether anything is being transferred.
pub proof fn law_menu_follows_the_state(s: StatusView)
    ensures
        s.state == "attached"@ ==> icon_text(s) == if s.speed_tx == 0 && s.speed_rx == 0 {
            "🌉"@
        } else {
            "🌉⇅"@
        },
        s.state == "attached"@ && s.model != ""@ && s.mounted != ""@ ==> info_text(s) == s.model
            + " · том готов"@ + " · ▲ "@ + speed_text(s.speed_tx) + " ▼ "@ + speed_text(s.speed_rx),
        s.state == "attached"@ && s.model != ""@ && s.mounted == ""@ ==> info_text(s) == s.model
            + " · ▲ "@ + speed_text(s.speed_tx) + " ▼ "@ + speed_text(s.speed_rx),
        s.state == "attached"@ && s.model == ""@ && s.mounted == ""@ ==> info_text(s)
            == "телефон"@ + " · ▲ "@ + speed_text(s.speed_tx) + " ▼ "@ + speed_text(s.speed_rx),
        s.state != "attached"@ && s.state == "gone"@ ==> icon_text(s) == "💤"@ && info_text(s)
            == "телефон отключён — настройки сохранены"@,
        s.state != "attached"@ && s.state != "gone"@ ==> icon_text(s) == "🚧"@ && info_text(s)
            == "жду телефон (кабель + режим «Передача файлов»)"@,
{
}

/// The time at which the watcher wrote is read back too.
pub proof fn law_time_of_writing_is_read_back(
    state: Seq<char>,
    model: Seq<char>,
    mounted: Seq<char>,
    rx: nat,
    tx: nat,
    speed_rx: nat,
    speed_tx: nat,
    ts: nat,
)
    requires
        plain(state),
        plain(model),
        plain(mounted),
        ts <= u64::MAX,
    ensures
        number_field(
            status_text(state, model, mounted, rx, tx, speed_rx, speed_tx, ts),
            "ts"@,
        ) == Some(ts),
{
    lemma_plain(state);
    lemma_plain(model);
    lemma_plain(mounted);
    lemma_keys();
    let parts = status_parts(state, model, mounted, rx, tx, speed_rx, speed_tx, ts);
    lemma_status_parts(state, model, mounted, rx, tx, speed_rx, speed_tx, ts);
    lemma_parts_quoteless(state, model, mounted, rx, tx, speed_rx, speed_tx, ts);
    assert forall|j: int| 1 <= j < 21 implies #[trigger] parts[j] != parts[21] || !starts_with(
        parts[j + 1],
        seq![':'],
    ) by {
        lemma_first_key(state, model, mounted, rx, tx, speed_rx, speed_tx, ts, 21, j);
    }
    lemma_read_number(parts, 21, parts[21], ts, seq!['}']);
}

} // verus!
