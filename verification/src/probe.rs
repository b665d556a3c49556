//! Finding a phone: what the USB bus shows, which device is taken, and what the
//! diagnosis says of it.

use vstd::prelude::*;

use crate::error::{Error, ErrorView, Result};
use crate::text::{
    ascii_lower_text, chars_at, chars_of, find, find_chars, hex, lemma_split_append,
    lemma_split_pieces, lemma_trim_id, lower_ascii, occurs_at, owned, push_hex, split, split_chars,
    trim, trim_chars, white_space,
};

verus! {

/// The speed of a USB link.
#[derive(Debug)]
pub enum LinkSpeed {
    /// 1.5 Mbit/s.
    Low,
    /// 12 Mbit/s.
    Full,
    /// 480 Mbit/s.
    High,
    /// USB 3.x.
    Super,
    /// One that is known by its name alone.
    Other(String),
}

/// The label of a speed.
pub open spec fn speed_name(s: LinkSpeed) -> Seq<char> {
    match s {
        LinkSpeed::Low => "Low (1.5 Mbit/s)"@,
        LinkSpeed::Full => "Full (12 Mbit/s)"@,
        LinkSpeed::High => "High (480 Mbit/s, USB 2.0)"@,
        LinkSpeed::Super => "Super (USB 3.x)"@,
        LinkSpeed::Other(n) => n@,
    }
}

/// The label of a speed.
pub fn speed_label(s: LinkSpeed) -> (r: String)
    ensures
        r@ == speed_name(s),
{
    match s {
        LinkSpeed::Low => owned("Low (1.5 Mbit/s)"),
        LinkSpeed::Full => owned("Full (12 Mbit/s)"),
        LinkSpeed::High => owned("High (480 Mbit/s, USB 2.0)"),
        LinkSpeed::Super => owned("Super (USB 3.x)"),
        LinkSpeed::Other(n) => n,
    }
}

/// What the USB bus shows of a device before a session is opened.
#[derive(Debug)]
pub struct ProbeDevice {
    /// USB vendor id.
    pub vendor_id: u16,
    /// USB product id.
    pub product_id: u16,
    /// Manufacturer, when reported.
    pub manufacturer: Option<String>,
    /// Product, when reported.
    pub product: Option<String>,
    /// Serial number, when reported.
    pub serial: Option<String>,
    /// Label of the negotiated speed, when known.
    pub speed: Option<String>,
}

/// A reported text, or a question mark.
pub open spec fn or_unknown(s: Option<String>) -> Seq<char> {
    match s {
        Some(t) => t@,
        None => "?"@,
    }
}

fn push_or_unknown(out: &mut String, s: &Option<String>)
    ensures
        final(out)@ == old(out)@ + or_unknown(*s),
{
    match s {
        Some(t) => out.push_str(t.as_str()),
        None => out.push_str("?"),
    }
}

impl Clone for ProbeDevice {
    fn clone(&self) -> (r: Self)
        ensures
            r == *self,
    {
        ProbeDevice {
            vendor_id: self.vendor_id,
            product_id: self.product_id,
            manufacturer: copied(&self.manufacturer),
            product: copied(&self.product),
            serial: copied(&self.serial),
            speed: copied(&self.speed),
        }
    }
}

fn copied(s: &Option<String>) -> (r: Option<String>)
    ensures
        r == *s,
{
    match s {
        Some(t) => Some(t.clone()),
        None => None,
    }
}

impl ProbeDevice {
    /// Short human line.
    #[must_use]
    pub fn display(&self) -> (r: String)
        ensures
            r@ == or_unknown(self.manufacturer) + " "@ + or_unknown(self.product) + " [vid="@ + hex(
                self.vendor_id as nat,
                4,
            ) + " pid="@ + hex(self.product_id as nat, 4) + "] speed="@ + or_unknown(self.speed),
    {
        let mut s = String::new();
        push_or_unknown(&mut s, &self.manufacturer);
        s.push_str(" ");
        push_or_unknown(&mut s, &self.product);
        s.push_str(" [vid=");
        push_hex(&mut s, self.vendor_id as u64, 4);
        s.push_str(" pid=");
        push_hex(&mut s, self.product_id as u64, 4);
        s.push_str("] speed=");
        push_or_unknown(&mut s, &self.speed);
        assert(s@ =~= or_unknown(self.manufacturer) + " "@ + or_unknown(self.product) + " [vid="@
            + hex(self.vendor_id as nat, 4) + " pid="@ + hex(self.product_id as nat, 4)
            + "] speed="@ + or_unknown(self.speed));
        s
    }

    /// True when the link is known to be slow.
    pub fn is_high_speed(&self) -> (r: bool)
        ensures
            r == (self.speed is Some && occurs_at(self.speed->0@, "High"@, 0)),
    {
        match &self.speed {
            Some(s) => chars_at(&chars_of(s.as_str()), &chars_of("High"), 0),
            None => false,
        }
    }
}

// ---------------------------------------------------------------------------
// Choosing a device
// ---------------------------------------------------------------------------

/// What is done with a candidate.
#[derive(Debug)]
pub enum Choice {
    /// It is taken.
    Keep,
    /// It is released, and the next one is tried.
    TryNext,
    /// There is no other: this is the error.
    GiveUp(Error),
}

/// What is said of a device without storages.
pub open spec fn no_storages() -> ErrorView {
    ErrorView::Mtp("the device exposes no storages"@)
}

/// How a choice falls, its error aside.
pub enum Turnout {
    Keep,
    TryNext,
    GiveUp,
}

/// The view of a choice.
pub open spec fn turnout(c: Choice) -> Turnout {
    match c {
        Choice::Keep => Turnout::Keep,
        Choice::TryNext => Turnout::TryNext,
        Choice::GiveUp(_) => Turnout::GiveUp,
    }
}

/// How the choice falls for a candidate with so many storages, none when it
/// could not be opened, when `left` candidates come after it.
pub open spec fn choice(storages: Option<nat>, left: nat) -> Turnout {
    if storages is Some && storages->0 > 0 {
        Turnout::Keep
    } else if left > 0 {
        Turnout::TryNext
    } else {
        Turnout::GiveUp
    }
}

/// What is done with a candidate that exposes so many storages, or could not
/// be opened, when `left` candidates come after it.
pub fn probed(storages: Result<usize>, left: usize) -> (r: Choice)
    ensures
        turnout(r) == choice(
            match storages {
                Ok(n) => Some(n as nat),
                Err(_) => None,
            },
            left as nat,
        ),
        r matches Choice::GiveUp(e) ==> match storages {
            Ok(_) => e@ == no_storages(),
            Err(f) => e == f,
        },
{
    match storages {
        Ok(n) => {
            if n > 0 {
                Choice::Keep
            } else if left > 0 {
                Choice::TryNext
            } else {
                Choice::GiveUp(Error::Mtp(owned("the device exposes no storages")))
            }
        },
        Err(e) => {
            if left > 0 {
                Choice::TryNext
            } else {
                Choice::GiveUp(e)
            }
        },
    }
}

/// The candidate that is taken when they are tried in order from `at`.
pub open spec fn taken(found: Seq<Option<nat>>, at: int) -> Option<int>
    decreases found.len() - at,
{
    if at < 0 || at >= found.len() {
        None
    } else {
        match choice(found[at], (found.len() - at - 1) as nat) {
            Turnout::Keep => Some(at),
            Turnout::TryNext => taken(found, at + 1),
            Turnout::GiveUp => None,
        }
    }
}

/// Of all candidates the first that exposes a storage is taken, and none only
/// when none of them does.
pub proof fn law_first_device_with_a_storage_is_taken(found: Seq<Option<nat>>, at: int)
    requires
        0 <= at <= found.len(),
    ensures
        match taken(found, at) {
            Some(i) => {
                &&& at <= i < found.len()
                &&& found[i] is Some && found[i]->0 > 0
                &&& forall|j: int|
                    at <= j < i ==> (#[trigger] found[j] is None || found[j]->0 == 0)
            },
            None => forall|j: int|
                at <= j < found.len() ==> (#[trigger] found[j] is None || found[j]->0 == 0),
        },
    decreases found.len() - at,
{
    if at < found.len() {
        law_first_device_with_a_storage_is_taken(found, at + 1);
    }
}

/// How often the connection to a device is tried.
pub const CONNECT_TRIES: u32 = 3;

/// True when `text` holds `word`, capitals aside.
pub open spec fn mentions(text: Seq<char>, word: Seq<char>) -> bool {
    find(ascii_lower_text(text), word) is Some
}

fn has_word(text: &Vec<char>, word: &str) -> (r: bool)
    ensures
        r == (find(text@, word@) is Some),
{
    find_chars(text, &chars_of(word), 0).is_some()
}

/// True when a failed connection is tried once more: another process may be
/// about to let go of the device, and not all tries were used.
pub fn connect_again(error: &str, tried: u32) -> (r: bool)
    ensures
        r == ((mentions(error@, "exclusive"@) || mentions(error@, "timed out"@) || mentions(
            error@,
            "busy"@,
        )) && tried < CONNECT_TRIES),
{
    let low = lower_ascii(error);
    let transient = has_word(&low, "exclusive") || has_word(&low, "timed out") || has_word(
        &low,
        "busy",
    );
    transient && tried < CONNECT_TRIES
}

/// True when an error suggests that another process holds the device.
pub fn held_elsewhere(error: &str) -> (r: bool)
    ensures
        r == (mentions(error@, "exclusive"@) || mentions(error@, "busy"@) || mentions(
            error@,
            "access"@,
        ) || mentions(error@, "claim"@)),
{
    let low = lower_ascii(error);
    has_word(&low, "exclusive") || has_word(&low, "busy") || has_word(&low, "access") || has_word(
        &low,
        "claim",
    )
}

// ---------------------------------------------------------------------------
// The output of adb
// ---------------------------------------------------------------------------

/// True when a line names a device that has authorised this computer.
pub open spec fn names_device(line: Seq<char>) -> bool {
    &&& !occurs_at(line, "List of"@, 0)
    &&& trim(line).len() > 0
    &&& occurs_at(line, "device"@, line.len() - "device"@.len())
}

/// A line without the carriage return before the line feed.
pub open spec fn without_return(line: Seq<char>) -> Seq<char> {
    if line.len() > 0 && line.last() == '\r' {
        line.drop_last()
    } else {
        line
    }
}

/// The lines of a text of which `done` are complete.
pub open spec fn device_lines(parts: Seq<Seq<char>>, done: nat) -> nat
    decreases done,
{
    if done == 0 {
        0
    } else {
        device_lines(parts, (done - 1) as nat) + if names_device(
            if done < parts.len() {
                without_return(parts[done - 1])
            } else {
                parts[done - 1]
            },
        ) {
            1nat
        } else {
            0
        }
    }
}

/// How many devices the output of `adb devices` shows as authorised.
pub open spec fn authorized_devices(text: Seq<char>) -> nat {
    device_lines(split(text, '\n'), split(text, '\n').len())
}

fn is_device_line(line: &Vec<char>) -> (r: bool)
    ensures
        r == names_device(line@),
{
    let tail = chars_of("device");
    let ends = line.len() >= tail.len() && chars_at(line, &tail, line.len() - tail.len());
    !chars_at(line, &chars_of("List of"), 0) && trim_chars(line).len() > 0 && ends
}

/// Counts the devices that `adb devices` shows as authorised.
pub fn count_authorized(text: &str) -> (r: usize)
    ensures
        r as nat == authorized_devices(text@),
{
    let mut lines = split_chars(&chars_of(text), '\n');
    let ghost parts = split(text@, '\n');
    let total = lines.len();
    let mut n: usize = 0;
    let mut i: usize = 0;
    while i < total
        invariant
            i <= total,
            n <= i,
            total == lines.len(),
            total == parts.len(),
            forall|j: int| i <= j < total ==> (#[trigger] lines@[j])@ == parts[j],
            n as nat == device_lines(parts, i as nat),
            parts == split(text@, '\n'),
        decreases total - i,
    {
        let last = i + 1 == total;
        let mut line: Vec<char> = Vec::new();
        std::mem::swap(&mut line, &mut lines[i]);
        assert(line@ == parts[i as int]);
        if !last && line.len() > 0 && line[line.len() - 1] == '\r' {
            let _ = line.pop();
            assert(line@ =~= without_return(parts[i as int]));
        }
        if is_device_line(&line) {
            n = n + 1;
        }
        i = i + 1;
    }
    n
}

/// The lines of `adb devices` are counted one by one: a line that ends in the
/// word for an authorised device counts, with or without a carriage return
/// behind it; the heading and a line with another state do not.
pub proof fn law_authorised_devices_are_counted(serial: Seq<char>, rest: Seq<char>)
    requires
        serial.len() > 0,
        !serial.contains('\n'),
        forall|i: int| 0 <= i < serial.len() ==> !white_space(#[trigger] serial[i]),
    ensures
        authorized_devices(serial + "\tdevice\n"@ + rest) == 1 + authorized_devices(rest),
        authorized_devices(serial + "\tdevice\r\n"@ + rest) == 1 + authorized_devices(rest),
        authorized_devices(serial + "\tunauthorized\n"@ + rest) == authorized_devices(rest),
        authorized_devices(serial + "\toffline\n"@ + rest) == authorized_devices(rest),
        authorized_devices("List of devices attached\n"@ + rest) == authorized_devices(rest),
{
    reveal_strlit("\tdevice\n");
    reveal_strlit("\tdevice\r\n");
    reveal_strlit("\tunauthorized\n");
    reveal_strlit("\toffline\n");
    reveal_strlit("List of devices attached\n");
    reveal_strlit("List of");
    reveal_strlit("device");
    let state = "\tdevice\n"@.drop_last();
    let line = serial + state;
    lemma_plain_line(serial, state);
    assert(serial + "\tdevice\n"@ + rest =~= line.push('\n') + rest);
    lemma_count_line(line, rest);
    assert(line.subrange(line.len() - 6, line.len() as int) =~= "device"@);
    lemma_no_heading(serial, state);
    lemma_not_blank(line);
    let ret = "\tdevice\r\n"@.drop_last();
    let with = serial + ret;
    lemma_plain_line(serial, ret);
    assert(serial + "\tdevice\r\n"@ + rest =~= with.push('\n') + rest);
    lemma_count_line(with, rest);
    assert(with.drop_last() =~= line);
    let other = "\tunauthorized\n"@.drop_last();
    let bad = serial + other;
    lemma_plain_line(serial, other);
    assert(serial + "\tunauthorized\n"@ + rest =~= bad.push('\n') + rest);
    lemma_count_line(bad, rest);
    assert(bad.subrange(bad.len() - 6, bad.len() as int)[5] == 'd');
    assert("device"@[5] == 'e');
    let gone = "\toffline\n"@.drop_last();
    let off = serial + gone;
    lemma_plain_line(serial, gone);
    assert(serial + "\toffline\n"@ + rest =~= off.push('\n') + rest);
    lemma_count_line(off, rest);
    assert(off.subrange(off.len() - 6, off.len() as int)[0] == 'f');
    assert("device"@[0] == 'd');
    let head = "List of devices attached\n"@.drop_last();
    lemma_plain_line(Seq::empty(), head);
    assert(Seq::<char>::empty() + head =~= head);
    assert("List of devices attached\n"@ + rest =~= head.push('\n') + rest);
    lemma_count_line(head, rest);
    assert(head.subrange(0, 7) =~= "List of"@);
}

proof fn lemma_plain_line(serial: Seq<char>, state: Seq<char>)
    requires
        !serial.contains('\n'),
        forall|i: int| 0 <= i < state.len() ==> #[trigger] state[i] != '\n',
    ensures
        !(serial + state).contains('\n'),
{
    let line = serial + state;
    if line.contains('\n') {
        let i = choose|i: int| 0 <= i < line.len() && line[i] == '\n';
        if i < serial.len() {
            assert(serial[i] == '\n');
        } else {
            assert(state[i - serial.len()] == '\n');
        }
    }
}

/// No serial number makes a line look like the heading: that has a space where
/// a serial number has none.
proof fn lemma_no_heading(serial: Seq<char>, state: Seq<char>)
    requires
        state.len() > 0,
        state[0] == '\t',
        forall|i: int| 0 <= i < serial.len() ==> !white_space(#[trigger] serial[i]),
    ensures
        !occurs_at(serial + state, "List of"@, 0),
{
    reveal_strlit("List of");
    let line = serial + state;
    if occurs_at(line, "List of"@, 0) {
        let head = line.subrange(0, 7);
        let n = serial.len() as int;
        assert(head[4] == ' ');
        assert(line[4] == ' ');
        if n > 4 {
            assert(!white_space(serial[4]));
        } else {
            assert(line[n] == '\t');
            assert(head[n] == '\t');
            assert("List of"@[n] != '\t');
        }
    }
}

proof fn lemma_not_blank(line: Seq<char>)
    requires
        line.len() > 0,
        !white_space(line.first()),
        !white_space(line.last()),
    ensures
        trim(line).len() > 0,
{
    lemma_trim_id(line);
}

/// A line in front adds what it counts for.
proof fn lemma_count_line(line: Seq<char>, rest: Seq<char>)
    requires
        !line.contains('\n'),
    ensures
        authorized_devices(line.push('\n') + rest) == authorized_devices(rest) + if names_device(
            without_return(line),
        ) {
            1nat
        } else {
            0
        },
{
    lemma_split_behind(line, rest);
    let parts = split(rest, '\n');
    lemma_split_pieces(rest, '\n');
    lemma_lines_behind(line, parts, parts.len());
}

proof fn lemma_lines_behind(line: Seq<char>, parts: Seq<Seq<char>>, n: nat)
    requires
        n <= parts.len(),
        parts.len() > 0,
    ensures
        device_lines(seq![line] + parts, n + 1) == device_lines(parts, n) + if names_device(
            without_return(line),
        ) {
            1nat
        } else {
            0
        },
    decreases n,
{
    let all = seq![line] + parts;
    if n == 0 {
        assert(device_lines(all, 0) == 0);
        assert(all[0] == line);
    } else {
        lemma_lines_behind(line, parts, (n - 1) as nat);
        assert(all[n as int] == parts[n - 1]);
    }
}

proof fn lemma_split_behind(line: Seq<char>, rest: Seq<char>)
    requires
        !line.contains('\n'),
    ensures
        split(line.push('\n') + rest, '\n') == seq![line] + split(rest, '\n'),
    decreases rest.len(),
{
    let s = line.push('\n') + rest;
    if rest.len() == 0 {
        let e = Seq::<char>::empty();
        assert(s =~= line.push('\n'));
        assert(s.drop_last() =~= line);
        lemma_split_append(e, line, '\n');
        assert(e + line =~= line);
        assert(split(line, '\n') =~= seq![line]);
        assert(split(s, '\n') =~= seq![line] + split(rest, '\n'));
    } else {
        let c = rest.drop_last();
        lemma_split_pieces(c, '\n');
        assert(s.drop_last() =~= line.push('\n') + c);
        lemma_split_behind(line, c);
        let p = split(c, '\n');
        assert((seq![line] + p).drop_last() =~= seq![line] + p.drop_last());
        assert(split(s, '\n') =~= seq![line] + split(rest, '\n'));
    }
}

/// Each speed has a label of its own; one without a name of its own is shown as
/// it was told.
pub proof fn law_speeds_have_their_labels(other: String)
    ensures
        speed_name(LinkSpeed::Low) == "Low (1.5 Mbit/s)"@,
        speed_name(LinkSpeed::Full) == "Full (12 Mbit/s)"@,
        speed_name(LinkSpeed::High) == "High (480 Mbit/s, USB 2.0)"@,
        speed_name(LinkSpeed::Super) == "Super (USB 3.x)"@,
        speed_name(LinkSpeed::Other(other)) == other@,
{
}

} // verus!
