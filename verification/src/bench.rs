//! Throughput measurements: the test data, its checksum, and the report.

use vstd::prelude::*;

use crate::format::{
    bytes_text, human_bytes, human_rate, rate_text, ratio_digits, ratio_text, secs_digits,
    secs_text,
};
use crate::text::{
    chars_of, dec, dec_pad, dec_string, digit, digit_char, hex, owned, pad_start, padded_start, push_dec,
    push_dec_pad, push_hex, string_of, trim_end, trim_end_chars,
};

verus! {

/// What is measured.
#[derive(Debug, Clone, Copy)]
pub struct Params {
    /// Size of the big file in MiB.
    pub size_mib: u64,
    /// Number of small files.
    pub small_files: u32,
    /// Whether the small files also go as one bundle.
    pub bundle: bool,
}

/// What the generator of the big file starts with.
pub const BIG_SEED: u64 = 0x9E37_79B9_7F4A_7C15;

/// What the generator of the small files starts with.
pub const SMALL_SEED: u64 = 0x5EED_B00F;

/// How many bytes a small file has.
pub const SMALL_LEN: usize = 8_192;

/// How many bytes of the big file are written at a time.
pub const BIG_CHUNK: usize = 1_048_576;

/// The checksum of nothing.
pub const FNV_START: u64 = 0xCBF2_9CE4_8422_2325;

/// What the checksum is multiplied with at each byte.
pub const FNV_PRIME: u64 = 0x0000_0100_0000_01B3;

// ---------------------------------------------------------------------------
// Data
// ---------------------------------------------------------------------------

/// One step of the generator.
pub open spec fn xorshift(x: u64) -> u64 {
    let a = x ^ (x << 13);
    let b = a ^ (a >> 7);
    b ^ (b << 17)
}

/// The generator after `n` steps.
pub open spec fn generated(x: u64, n: nat) -> u64
    decreases n,
{
    if n == 0 {
        x
    } else {
        xorshift(generated(x, (n - 1) as nat))
    }
}

/// Fills `buf` with bytes of the generator. The seed is made odd first, so that
/// it is not zero.
pub fn xorshift_fill(buf: &mut Vec<u8>, seed: &mut u64)
    ensures
        final(buf)@.len() == old(buf)@.len(),
        forall|i: int|
            0 <= i < old(buf)@.len() ==> #[trigger] final(buf)@[i] == generated(
                *old(seed) | 1,
                (i + 1) as nat,
            ) as u8,
        *final(seed) == generated(*old(seed) | 1, old(buf)@.len()),
{
    let ghost start = *seed | 1;
    let n = buf.len();
    let mut x: u64 = *seed | 1;
    let mut i: usize = 0;
    while i < n
        invariant
            i <= n,
            n == buf@.len(),
            x == generated(start, i as nat),
            forall|j: int|
                0 <= j < i ==> #[trigger] buf@[j] == generated(start, (j + 1) as nat) as u8,
        decreases n - i,
    {
        x = x ^ (x << 13);
        x = x ^ (x >> 7);
        x = x ^ (x << 17);
        assert(x == generated(start, (i + 1) as nat));
        buf.set(i, #[verifier::truncate] (x as u8));
        i = i + 1;
    }
    *seed = x;
}

/// The generator never sticks at zero: every step of it can be undone, so its
/// bytes do not run dry.
pub proof fn law_generator_never_sticks(x: u64, n: nat)
    requires
        x != 0,
    ensures
        generated(x, n) != 0,
    decreases n,
{
    if n > 0 {
        law_generator_never_sticks(x, (n - 1) as nat);
        let y = generated(x, (n - 1) as nat);
        assert(y != 0 ==> ({
            let a = y ^ (y << 13);
            let b = a ^ (a >> 7);
            b ^ (b << 17)
        }) != 0) by (bit_vector);
    }
}

/// The checksum of `data` behind data with the checksum `hash`.
pub open spec fn fnv(hash: u64, data: Seq<u8>) -> u64
    decreases data.len(),
{
    if data.len() == 0 {
        hash
    } else {
        (fnv(hash, data.drop_last()) ^ (data.last() as u64)).wrapping_mul(FNV_PRIME)
    }
}

/// Goes on with a checksum over more data.
pub fn fnv_update(hash: u64, data: &[u8]) -> (r: u64)
    ensures
        r == fnv(hash, data@),
{
    let mut h: u64 = hash;
    let mut i: usize = 0;
    assert(data@.take(0) =~= Seq::empty());
    while i < data.len()
        invariant
            i <= data.len(),
            h == fnv(hash, data@.take(i as int)),
        decreases data.len() - i,
    {
        assert(data@.take(i + 1).drop_last() =~= data@.take(i as int));
        h = (h ^ (data[i] as u64)).wrapping_mul(FNV_PRIME);
        i = i + 1;
    }
    assert(data@.take(i as int) =~= data@);
    h
}

/// The checksum does not depend on the pieces in which the data come.
pub proof fn law_checksum_goes_over_pieces(hash: u64, a: Seq<u8>, b: Seq<u8>)
    ensures
        fnv(fnv(hash, a), b) == fnv(hash, a + b),
    decreases b.len(),
{
    if b.len() == 0 {
        assert(a + b =~= a);
    } else {
        law_checksum_goes_over_pieces(hash, a, b.drop_last());
        assert((a + b).drop_last() =~= a + b.drop_last());
    }
}

/// The length of the big file.
pub fn big_length(size_mib: u64) -> (r: u64)
    requires
        size_mib * 1_048_576 <= u64::MAX,
    ensures
        r == size_mib * 1_048_576,
{
    size_mib * 1_048_576
}

/// How many bytes of the big file are written next.
pub fn next_chunk(left: u64) -> (r: usize)
    ensures
        r as nat == if left < BIG_CHUNK {
            left as nat
        } else {
            BIG_CHUNK as nat
        },
{
    if left < BIG_CHUNK as u64 {
        left as usize
    } else {
        BIG_CHUNK
    }
}

// ---------------------------------------------------------------------------
// Names and report
// ---------------------------------------------------------------------------

/// The name of the directory of a run that began at `stamp`.
pub fn run_name(stamp: u64) -> (r: String)
    ensures
        r@ == "pereprava-bench-"@ + dec(stamp as nat),
{
    let mut s = owned("pereprava-bench-");
    push_dec(&mut s, stamp);
    s
}

/// The directory of a run on the device.
pub fn remote_base(stamp: u64) -> (r: String)
    ensures
        r@ == "/1/"@ + ("pereprava-bench-"@ + dec(stamp as nat)),
{
    let mut s = owned("/1/");
    s.push_str(run_name(stamp).as_str());
    s
}

/// The name of the `i`th small file: its number has five digits at least.
pub open spec fn small_text(i: nat) -> Seq<char> {
    "f"@ + (if i < 100_000 {
        dec_pad(i, 5)
    } else {
        dec(i)
    }) + ".dat"@
}

/// The name of the `i`th small file.
pub fn small_name(i: u32) -> (r: String)
    ensures
        r@ == small_text(i as nat),
{
    let mut s = owned("f");
    if i < 100_000 {
        push_dec_pad(&mut s, i as u64, 5);
    } else {
        push_dec(&mut s, i as u64);
    }
    s.push_str(".dat");
    s
}

/// The first line of a run.
pub fn title(p: &Params) -> (r: String)
    ensures
        r@ == "pereprava bench — "@ + dec(p.size_mib as nat) + " MiB file, "@ + dec(
            p.small_files as nat,
        ) + " small files"@,
{
    let mut s = owned("pereprava bench — ");
    push_dec(&mut s, p.size_mib);
    s.push_str(" MiB file, ");
    push_dec(&mut s, p.small_files as u64);
    s.push_str(" small files");
    s
}

/// The line about the big file; `verb` says which way it went.
pub fn big_line(verb: &str, len: u64, ms: u128) -> (r: String)
    ensures
        r@ == verb@ + "  "@ + pad_start(bytes_text(len as nat), 8) + " : "@ + rate_text(
            len as nat,
            ms as nat,
        ),
{
    let mut s = owned(verb);
    s.push_str("  ");
    s.push_str(padded_start(human_bytes(len).as_str(), 8).as_str());
    s.push_str(" : ");
    s.push_str(human_rate(len, ms).as_str());
    s
}

/// The row about the big file.
pub fn big_row(verb: &str, len: u64, ms: u128) -> (r: String)
    ensures
        r@ == "| big "@ + verb@ + " | "@ + bytes_text(len as nat) + " | "@ + rate_text(
            len as nat,
            ms as nat,
        ) + " |\n"@,
{
    let mut s = owned("| big ");
    s.push_str(verb);
    s.push_str(" | ");
    s.push_str(human_bytes(len).as_str());
    s.push_str(" | ");
    s.push_str(human_rate(len, ms).as_str());
    s.push_str(" |\n");
    s
}

/// The time per file of so many files, of one at least.
pub open spec fn per_file(ms: nat, files: nat) -> Seq<char> {
    ratio_digits(
        ms,
        if files == 0 {
            1
        } else {
            files
        },
    )
}

fn per_file_text(ms: u64, files: u32) -> (r: String)
    ensures
        r@ == per_file(ms as nat, files as nat),
{
    ratio_text(
        ms,
        if files == 0 {
            1
        } else {
            files as u64
        },
    )
}

/// The line about the small files.
pub fn small_line(files: u32, ms: u64) -> (r: String)
    ensures
        r@ == "push  "@ + pad_start("8KiB"@, 8) + " x "@ + dec(files as nat) + " : "@ + secs_digits(
            ms as nat,
        ) + " s total, "@ + per_file(ms as nat, files as nat) + " ms/file"@,
{
    let mut s = owned("push  ");
    s.push_str(padded_start("8KiB", 8).as_str());
    s.push_str(" x ");
    push_dec(&mut s, files as u64);
    s.push_str(" : ");
    s.push_str(secs_text(ms as u128).as_str());
    s.push_str(" s total, ");
    s.push_str(per_file_text(ms, files).as_str());
    s.push_str(" ms/file");
    s
}

/// The row about the small files.
pub fn small_row(files: u32, ms: u64) -> (r: String)
    ensures
        r@ == "| small push | "@ + dec(files as nat) + " x 8KiB | "@ + per_file(
            ms as nat,
            files as nat,
        ) + " ms/file |\n"@,
{
    let mut s = owned("| small push | ");
    push_dec(&mut s, files as u64);
    s.push_str(" x 8KiB | ");
    s.push_str(per_file_text(ms, files).as_str());
    s.push_str(" ms/file |\n");
    s
}

/// The line about a listing.
pub fn list_line(entries: u64, ms: u64) -> (r: String)
    ensures
        r@ == "list  "@ + pad_start("readdir"@, 8) + " : "@ + dec(entries as nat) + " entries in "@
            + dec(ms as nat) + " ms"@,
{
    let mut s = owned("list  ");
    s.push_str(padded_start("readdir", 8).as_str());
    s.push_str(" : ");
    push_dec(&mut s, entries);
    s.push_str(" entries in ");
    push_dec(&mut s, ms);
    s.push_str(" ms");
    s
}

/// The row about a listing.
pub fn list_row(entries: u64, ms: u64) -> (r: String)
    ensures
        r@ == "| list "@ + dec(entries as nat) + " entries | "@ + dec(ms as nat) + " ms |\n"@,
{
    let mut s = owned("| list ");
    push_dec(&mut s, entries);
    s.push_str(" entries | ");
    push_dec(&mut s, ms);
    s.push_str(" ms |\n");
    s
}

/// The hexadecimal notation of `n` without zeros before it.
pub open spec fn short_hex(n: nat) -> Seq<char>
    decreases n,
{
    if n < 16 {
        seq![digit_char(n)]
    } else {
        short_hex(n / 16).push(digit_char(n % 16))
    }
}

fn push_short_hex(out: &mut String, n: u64)
    ensures
        final(out)@ == old(out)@ + short_hex(n as nat),
    decreases n,
{
    if n >= 16 {
        push_short_hex(out, n / 16);
    }
    let ghost before = out@;
    out.push(digit((n % 16) as u8));
    proof {
        if n < 16 {
            assert(before.push(digit_char(n as nat)) =~= before + short_hex(n as nat));
        } else {
            assert(out@ =~= old(out)@ + short_hex(n as nat));
        }
    }
}

/// What is said of the checksums before and after a round trip.
pub open spec fn roundtrip_text(sent: u64, back: u64) -> std::result::Result<Seq<char>, Seq<char>> {
    if sent == back {
        Ok("roundtrip checksum ok (0x"@ + hex(sent as nat, 16) + ")"@)
    } else {
        Err(
            "checksum mismatch after roundtrip (0x"@ + short_hex(sent as nat) + " != 0x"@
                + short_hex(back as nat) + ")"@,
        )
    }
}

/// Compares the checksums before and after a round trip.
pub fn check_roundtrip(sent: u64, back: u64) -> (r: std::result::Result<String, String>)
    ensures
        match r {
            Ok(t) => roundtrip_text(sent, back) == Ok::<Seq<char>, Seq<char>>(t@),
            Err(t) => roundtrip_text(sent, back) == Err::<Seq<char>, Seq<char>>(t@),
        },
{
    if sent == back {
        let mut s = owned("roundtrip checksum ok (0x");
        push_hex(&mut s, sent, 16);
        s.push_str(")");
        return Ok(s);
    }
    let mut s = owned("checksum mismatch after roundtrip (0x");
    push_short_hex(&mut s, sent);
    s.push_str(" != 0x");
    push_short_hex(&mut s, back);
    s.push_str(")");
    Err(s)
}

/// The line about the objects that were removed in the end.
pub fn cleanup_line(removed: u32) -> (r: String)
    ensures
        r@ == "cleanup: removed "@ + dec(removed as nat) + " remote object(s)"@,
{
    let mut s = owned("cleanup: removed ");
    s.push_str(dec_string(removed as u64).as_str());
    s.push_str(" remote object(s)");
    s
}

// ---------------------------------------------------------------------------
// A run
// ---------------------------------------------------------------------------

/// What comes next in a run.
#[derive(Debug, Clone, Copy, PartialEq, Eq, Structural)]
pub enum BenchStep {
    /// Create the local and the remote directory of the run.
    Prepare,
    /// Write the big file.
    WriteBig,
    /// Upload the big file.
    PushBig,
    /// Download the big file.
    PullBig,
    /// Take the checksum of what came back.
    SumBack,
    /// Write the small files.
    WriteSmall,
    /// Upload the small files as a tree.
    PushSmall,
    /// Upload the small files as one bundle.
    PushBundle,
    /// List the directory of the small files.
    ListSmall,
    /// Remove the local and the remote directory of the run.
    Clean,
    /// The run is over.
    Done,
}

/// What became of a step.
#[derive(Debug)]
pub enum BenchEvent {
    /// It is done.
    Ready,
    /// A file of the run has this checksum.
    Sum(u64),
    /// It took so many milliseconds, for so many files or entries.
    Took {
        /// Milliseconds.
        ms: u64,
        /// Files or entries.
        count: u64,
    },
    /// It failed.
    Failed(String),
}

/// A run of the measurements.
#[derive(Debug)]
pub struct Bench {
    params: Params,
    at: BenchStep,
    sum: u64,
    report: String,
    error: Option<String>,
}

/// The view of a [`Bench`].
pub struct BenchView {
    /// What is measured.
    pub params: Params,
    /// The step at hand.
    pub at: BenchStep,
    /// The checksum of the big file.
    pub sum: u64,
    /// The rows of the report.
    pub report: Seq<char>,
    /// Why the run has failed, if it has.
    pub error: Option<Seq<char>>,
}

impl View for Bench {
    type V = BenchView;

    closed spec fn view(&self) -> BenchView {
        BenchView {
            params: self.params,
            at: self.at,
            sum: self.sum,
            report: self.report@,
            error: match self.error {
                Some(e) => Some(e@),
                None => None,
            },
        }
    }
}

/// The length of the big file, as far as it can be counted.
pub open spec fn big_len(p: Params) -> u64 {
    if p.size_mib * 1_048_576 <= u64::MAX {
        (p.size_mib * 1_048_576) as u64
    } else {
        u64::MAX
    }
}

/// The step behind `at` when all goes well: a measurement of nothing is left
/// out.
pub open spec fn next_step(p: Params, at: BenchStep) -> BenchStep {
    let small = if p.small_files > 0 {
        BenchStep::WriteSmall
    } else {
        BenchStep::Clean
    };
    match at {
        BenchStep::Prepare => BenchStep::WriteBig,
        BenchStep::WriteBig => if p.size_mib > 0 {
            BenchStep::PushBig
        } else {
            small
        },
        BenchStep::PushBig => BenchStep::PullBig,
        BenchStep::PullBig => BenchStep::SumBack,
        BenchStep::SumBack => small,
        BenchStep::WriteSmall => BenchStep::PushSmall,
        BenchStep::PushSmall => BenchStep::ListSmall,
        BenchStep::ListSmall => if p.bundle {
            BenchStep::PushBundle
        } else {
            BenchStep::Clean
        },
        BenchStep::PushBundle => BenchStep::Clean,
        BenchStep::Clean => BenchStep::Done,
        BenchStep::Done => BenchStep::Done,
    }
}

/// The row that a step adds to the report.
pub open spec fn row_of(p: Params, at: BenchStep, ms: u64, count: u64) -> Seq<char> {
    let size = big_len(p) as nat;
    match at {
        BenchStep::PushBig => "| big "@ + "push"@ + " | "@ + bytes_text(size) + " | "@ + rate_text(
            size,
            ms as nat,
        ) + " |\n"@,
        BenchStep::PullBig => "| big "@ + "pull"@ + " | "@ + bytes_text(size) + " | "@ + rate_text(
            size,
            ms as nat,
        ) + " |\n"@,
        BenchStep::PushSmall => "| small push | "@ + dec(clipped(count)) + " x 8KiB | "@ + per_file(
            ms as nat,
            clipped(count),
        ) + " ms/file |\n"@,
        BenchStep::ListSmall => "| list "@ + dec(count as nat) + " entries | "@ + dec(ms as nat)
            + " ms |\n"@,
        _ => Seq::empty(),
    }
}

/// A count of files, which stops at the largest 32-bit number.
pub open spec fn clipped(count: u64) -> nat {
    if count <= u32::MAX {
        count as nat
    } else {
        u32::MAX as nat
    }
}

/// How a run goes on. A failure, or a checksum that has changed, ends the
/// measurements; what was created is removed all the same.
pub open spec fn bench_next(v: BenchView, e: BenchEvent) -> BenchView {
    let on = BenchView { at: next_step(v.params, v.at), ..v };
    match (v.at, e) {
        (BenchStep::Done, _) => v,
        (BenchStep::Clean, _) => on,
        (_, BenchEvent::Failed(t)) => BenchView { at: BenchStep::Clean, error: Some(t@), ..v },
        (BenchStep::WriteBig, BenchEvent::Sum(s)) => BenchView { sum: s, ..on },
        (BenchStep::SumBack, BenchEvent::Sum(s)) => match roundtrip_text(v.sum, s) {
            Ok(_) => on,
            Err(t) => BenchView { at: BenchStep::Clean, error: Some(t), ..v },
        },
        (_, BenchEvent::Took { ms, count }) => BenchView {
            report: v.report + row_of(v.params, v.at, ms, count),
            ..on
        },
        (_, _) => on,
    }
}

impl Bench {
    /// Starts a run.
    pub fn new(params: Params) -> (r: Self)
        ensures
            r@ == (BenchView {
                params,
                at: BenchStep::Prepare,
                sum: 0,
                report: Seq::empty(),
                error: None,
            }),
    {
        let r = Bench {
            params,
            at: BenchStep::Prepare,
            sum: 0,
            report: String::new(),
            error: None,
        };
        assert(r.report@ =~= Seq::empty());
        r
    }

    /// The step at hand.
    pub fn step(&self) -> (r: BenchStep)
        ensures
            r == self@.at,
    {
        self.at
    }

    fn next(&self) -> (r: BenchStep)
        ensures
            r == next_step(self@.params, self@.at),
    {
        let small = if self.params.small_files > 0 {
            BenchStep::WriteSmall
        } else {
            BenchStep::Clean
        };
        match self.at {
            BenchStep::Prepare => BenchStep::WriteBig,
            BenchStep::WriteBig => {
                if self.params.size_mib > 0 {
                    BenchStep::PushBig
                } else {
                    small
                }
            },
            BenchStep::PushBig => BenchStep::PullBig,
            BenchStep::PullBig => BenchStep::SumBack,
            BenchStep::SumBack => small,
            BenchStep::WriteSmall => BenchStep::PushSmall,
            BenchStep::PushSmall => BenchStep::ListSmall,
            BenchStep::ListSmall => {
                if self.params.bundle {
                    BenchStep::PushBundle
                } else {
                    BenchStep::Clean
                }
            },
            BenchStep::PushBundle => BenchStep::Clean,
            BenchStep::Clean => BenchStep::Done,
            BenchStep::Done => BenchStep::Done,
        }
    }

    fn row(&self, ms: u64, count: u64) -> (r: String)
        ensures
            r@ == row_of(self@.params, self@.at, ms, count),
    {
        let len = match self.params.size_mib.checked_mul(1_048_576) {
            Some(n) => n,
            None => u64::MAX,
        };
        let files: u32 = if count <= u32::MAX as u64 {
            count as u32
        } else {
            u32::MAX
        };
        match self.at {
            BenchStep::PushBig => big_row("push", len, ms as u128),
            BenchStep::PullBig => big_row("pull", len, ms as u128),
            BenchStep::PushSmall => small_row(files, ms),
            BenchStep::ListSmall => list_row(count, ms),
            _ => {
                let s = String::new();
                assert(s@ =~= Seq::empty());
                s
            },
        }
    }

    /// Goes on with what became of the step at hand.
    pub fn after(&mut self, e: BenchEvent)
        ensures
            final(self)@ == bench_next(old(self)@, e),
    {
        let next = self.next();
        match self.at {
            BenchStep::Done => {
                return ;
            },
            BenchStep::Clean => {
                self.at = next;
                return ;
            },
            _ => {},
        }
        match e {
            BenchEvent::Failed(t) => {
                self.at = BenchStep::Clean;
                self.error = Some(t);
            },
            BenchEvent::Sum(s) => {
                if self.at == BenchStep::SumBack {
                    match check_roundtrip(self.sum, s) {
                        Ok(_) => {
                            self.at = next;
                        },
                        Err(t) => {
                            self.at = BenchStep::Clean;
                            self.error = Some(t);
                        },
                    }
                } else {
                    if self.at == BenchStep::WriteBig {
                        self.sum = s;
                    }
                    self.at = next;
                }
            },
            BenchEvent::Took { ms, count } => {
                let row = self.row(ms, count);
                self.report.push_str(row.as_str());
                self.at = next;
            },
            BenchEvent::Ready => {
                self.at = next;
            },
        }
    }

    /// The rows of the report, without the end of the last line.
    pub fn rows(&self) -> (r: String)
        ensures
            r@ == trim_end(self@.report),
    {
        string_of(&trim_end_chars(&chars_of(self.report.as_str())))
    }

    /// Why the run has failed, if it has.
    pub fn failure(&self) -> (r: Option<String>)
        ensures
            match r {
                Some(t) => self@.error == Some(t@),
                None => self@.error is None,
            },
    {
        match &self.error {
            Some(t) => Some(t.clone()),
            None => None,
        }
    }
}

/// How many steps are left at most.
pub open spec fn steps_left(at: BenchStep) -> nat {
    match at {
        BenchStep::Prepare => 10,
        BenchStep::WriteBig => 9,
        BenchStep::PushBig => 8,
        BenchStep::PullBig => 7,
        BenchStep::SumBack => 6,
        BenchStep::WriteSmall => 5,
        BenchStep::PushSmall => 4,
        BenchStep::ListSmall => 3,
        BenchStep::PushBundle => 2,
        BenchStep::Clean => 1,
        BenchStep::Done => 0,
    }
}

/// Whatever becomes of its steps, a run comes to an end, and it does so only
/// through the removal of what it created.
pub proof fn law_run_ends_with_its_removal(v: BenchView, e: BenchEvent)
    requires
        v.at != BenchStep::Done,
    ensures
        steps_left(bench_next(v, e).at) < steps_left(v.at),
        bench_next(v, e).at == BenchStep::Done ==> v.at == BenchStep::Clean,
{
}

/// A file that does not come back as it was sent makes the run fail.
pub proof fn law_changed_file_fails_the_run(v: BenchView, back: u64)
    requires
        v.at == BenchStep::SumBack,
    ensures
        bench_next(v, BenchEvent::Sum(back)).error is Some <==> back != v.sum || v.error is Some,
{
}

/// A run measures what it was asked for, in this order: the large file out and
/// back, the small files out and listed, and the bundle. What was not asked for
/// is left out.
pub proof fn law_run_measures_what_was_asked_for(p: Params)
    ensures
        next_step(p, BenchStep::Prepare) == BenchStep::WriteBig,
        p.size_mib > 0 ==> next_step(p, BenchStep::WriteBig) == BenchStep::PushBig,
        next_step(p, BenchStep::PushBig) == BenchStep::PullBig,
        next_step(p, BenchStep::PullBig) == BenchStep::SumBack,
        p.size_mib == 0 ==> next_step(p, BenchStep::WriteBig) == next_step(p, BenchStep::SumBack),
        p.small_files > 0 ==> next_step(p, BenchStep::SumBack) == BenchStep::WriteSmall,
        p.small_files == 0 ==> next_step(p, BenchStep::SumBack) == BenchStep::Clean,
        next_step(p, BenchStep::WriteSmall) == BenchStep::PushSmall,
        next_step(p, BenchStep::PushSmall) == BenchStep::ListSmall,
        p.bundle ==> next_step(p, BenchStep::ListSmall) == BenchStep::PushBundle,
        !p.bundle ==> next_step(p, BenchStep::ListSmall) == BenchStep::Clean,
        next_step(p, BenchStep::PushBundle) == BenchStep::Clean,
        next_step(p, BenchStep::Clean) == BenchStep::Done,
{
}

/// The generator shifts by 13, 7 and 17 places.
pub proof fn law_generator_shifts(x: u64, a: u64, b: u64)
    requires
        a == x ^ (x << 13),
        b == a ^ (a >> 7),
    ensures
        xorshift(x) == b ^ (b << 17),
        generated(x, 1) == xorshift(x),
{
    reveal_with_fuel(generated, 2);
}

/// A byte enters the checksum before the multiplication.
pub proof fn law_byte_enters_the_checksum(hash: u64, b: u8)
    ensures
        fnv(hash, Seq::empty()) == hash,
        fnv(hash, seq![b]) == (hash ^ (b as u64)).wrapping_mul(0x0000_0100_0000_01B3),
{
    reveal_with_fuel(fnv, 2);
    assert(seq![b].drop_last() =~= Seq::<u8>::empty());
}

/// The rows of the report name what was measured, how much of it, and how fast
/// it went.
pub proof fn law_rows_tell_the_measurements(p: Params, ms: u64, count: u64)
    requires
        p.size_mib * 1_048_576 <= u64::MAX,
        count <= u32::MAX,
    ensures
        row_of(p, BenchStep::PushBig, ms, count) == "| big "@ + "push"@ + " | "@ + bytes_text(
            (p.size_mib * 1_048_576) as nat,
        ) + " | "@ + rate_text((p.size_mib * 1_048_576) as nat, ms as nat) + " |\n"@,
        row_of(p, BenchStep::PullBig, ms, count) == "| big "@ + "pull"@ + " | "@ + bytes_text(
            (p.size_mib * 1_048_576) as nat,
        ) + " | "@ + rate_text((p.size_mib * 1_048_576) as nat, ms as nat) + " |\n"@,
        count > 0 ==> row_of(p, BenchStep::PushSmall, ms, count) == "| small push | "@ + dec(
            count as nat,
        ) + " x 8KiB | "@ + ratio_digits(ms as nat, count as nat) + " ms/file |\n"@,
        row_of(p, BenchStep::ListSmall, ms, count) == "| list "@ + dec(count as nat)
            + " entries | "@ + dec(ms as nat) + " ms |\n"@,
{
}

/// Each measurement that was made stands in the report, behind the earlier ones.
pub proof fn law_report_grows_by_the_row(v: BenchView, ms: u64, count: u64)
    requires
        v.at is PushBig || v.at is PullBig || v.at is PushSmall || v.at is ListSmall,
    ensures
        bench_next(v, BenchEvent::Took { ms, count }).report == v.report + row_of(
            v.params,
            v.at,
            ms,
            count,
        ),
        bench_next(v, BenchEvent::Took { ms, count }).error == v.error,
{
}

} // verus!
