//! Per-stage wall-clock timing.

use vstd::prelude::*;
use crate::scan::push_all;
use vstd::string::StringSliceAdditionalSpecFns;

verus! {

#[verifier::external_type_specification]
#[verifier::external_body]
pub struct ExInstant(std::time::Instant);

/// Wraps `std::time::Instant::now`. Nothing is claimed of the result.
#[verifier::external_body]
fn instant_now() -> std::time::Instant {
    std::time::Instant::now()
}

/// Wraps `Instant::elapsed`, in whole microseconds truncated to `u64`.
/// Nothing is claimed of the result: it depends on the clock.
#[verifier::external_body]
fn elapsed_micros(start: &std::time::Instant) -> u64 {
    start.elapsed().as_micros() as u64
}

/// Wraps `Instant::now() >= *d`: whether the moment `d` has been
/// reached. Nothing is claimed of the result: it depends on the clock.
#[verifier::external_body]
fn instant_reached(d: &std::time::Instant) -> bool {
    std::time::Instant::now() >= *d
}

/// Whether a deadline has passed; never without one.
pub(crate) fn deadline_expired(deadline: Option<std::time::Instant>) -> (res: bool)
    ensures
        deadline is None ==> !res,
{
    match deadline {
        Some(d) => instant_reached(&d),
        None => false,
    }
}

/// The moment a stage starts.
pub fn stage_start() -> std::time::Instant {
    instant_now()
}

/// Wall-clock durations of the pipeline stages, in order.
#[derive(Debug, Clone)]
pub struct StageTimings {
    entries: Vec<(&'static str, u64)>,
}

/// Sum of the durations of `e`.
pub open spec fn total_of(e: Seq<(&'static str, u64)>) -> int
    decreases e.len(),
{
    if e.len() == 0 {
        0
    } else {
        total_of(e.drop_last()) + e.last().1
    }
}

/// The stage names of timing entries, in order.
pub open spec fn entry_names(e: Seq<(&'static str, u64)>) -> Seq<&'static str> {
    e.map_values(|p: (&'static str, u64)| p.0)
}

/// Decimal digits of `n`.
pub open spec fn decimal(n: nat) -> Seq<u8>
    decreases n,
{
    if n < 10 {
        seq![(0x30 + n) as u8]
    } else {
        decimal(n / 10).push((0x30 + n % 10) as u8)
    }
}

/// The JSON object `{"name":us,...}` of the first `n` entries.
pub open spec fn json_pairs(e: Seq<(&'static str, u64)>, n: int) -> Seq<u8>
    decreases n,
{
    if n <= 0 {
        Seq::empty()
    } else {
        let prev = json_pairs(e, n - 1);
        let sep: Seq<u8> = if n > 1 { seq![0x2cu8] } else { Seq::empty() };
        prev + sep + seq![0x22u8] + e[n - 1].0.spec_bytes() + seq![0x22u8, 0x3au8] + decimal(e[n - 1].1 as nat)
    }
}

/// The JSON object of all entries `e`, as bytes.
pub open spec fn json_object(e: Seq<(&'static str, u64)>) -> Seq<u8> {
    seq![0x7bu8] + json_pairs(e, e.len() as int) + seq![0x7du8]
}

proof fn lemma_decimal_ascii(n: nat)
    ensures
        crate::text::all_ascii(decimal(n)),
    decreases n,
{
    if n >= 10 {
        lemma_decimal_ascii(n / 10);
    }
}

/// Decimal digits are valid UTF-8.
pub proof fn lemma_decimal_utf8(n: nat)
    ensures
        vstd::utf8::valid_utf8(decimal(n)),
{
    lemma_decimal_ascii(n);
    crate::text::lemma_ascii_utf8(decimal(n));
}

/// The JSON text of timing entries is valid UTF-8: ASCII punctuation and
/// digits around the UTF-8 bytes of the stage names.
proof fn lemma_json_pairs_utf8(e: Seq<(&'static str, u64)>, n: int)
    requires
        n <= e.len(),
    ensures
        vstd::utf8::valid_utf8(json_pairs(e, n)),
    decreases n,
{
    if n > 0 {
        lemma_json_pairs_utf8(e, n - 1);
        let prev = json_pairs(e, n - 1);
        let sep: Seq<u8> = if n > 1 { seq![0x2cu8] } else { Seq::empty() };
        let name = e[n - 1].0.spec_bytes();
        let digits = decimal(e[n - 1].1 as nat);
        crate::text::lemma_ascii_utf8(sep);
        crate::text::lemma_ascii_utf8(seq![0x22u8]);
        crate::text::lemma_ascii_utf8(seq![0x22u8, 0x3au8]);
        vstd::utf8::encode_utf8_valid_utf8(e[n - 1].0@);
        lemma_decimal_ascii(e[n - 1].1 as nat);
        crate::text::lemma_ascii_utf8(digits);
        vstd::utf8::valid_utf8_concat(prev, sep);
        vstd::utf8::valid_utf8_concat(prev + sep, seq![0x22u8]);
        vstd::utf8::valid_utf8_concat(prev + sep + seq![0x22u8], name);
        vstd::utf8::valid_utf8_concat(prev + sep + seq![0x22u8] + name, seq![0x22u8, 0x3au8]);
        vstd::utf8::valid_utf8_concat(prev + sep + seq![0x22u8] + name + seq![0x22u8, 0x3au8], digits);
    }
}

/// Append the decimal digits of `n`.
pub fn push_decimal(out: &mut Vec<u8>, n: u64)
    ensures
        final(out)@ == old(out)@ + decimal(n as nat),
    decreases n,
{
    if n < 10 {
        out.push((0x30 + n) as u8);
    } else {
        push_decimal(out, n / 10);
        out.push((0x30 + n % 10) as u8);
    }
}

impl StageTimings {
    /// The recorded (stage, microseconds) entries.
    pub closed spec fn entry_seq(&self) -> Seq<(&'static str, u64)> {
        self.entries@
    }

    pub fn new() -> (res: Self)
        ensures
            res.entry_seq().len() == 0,
    {
        StageTimings { entries: Vec::new() }
    }

    /// Run `f`, recording `name` with the time it took, and return its value.
    pub fn time<F, R>(&mut self, name: &'static str, f: F) -> (res: R)
        where
            F: FnOnce() -> R,
        requires
            f.requires(()),
        ensures
            f.ensures((), res),
            final(self).entry_seq().len() == old(self).entry_seq().len() + 1,
            final(self).entry_seq().subrange(0, old(self).entry_seq().len() as int) == old(self).entry_seq(),
            final(self).entry_seq().last().0 == name,
            entry_names(final(self).entry_seq()) == entry_names(old(self).entry_seq()).push(name),
    {
        let start = instant_now();
        let result = f();
        let us = elapsed_micros(&start);
        self.entries.push((name, us));
        assert(self.entries@.subrange(0, self.entries@.len() - 1) =~= old(self).entries@);
        assert(entry_names(self.entry_seq()) =~= entry_names(old(self).entry_seq()).push(name));
        result
    }

    /// Record `name` with the time elapsed since `start`.
    pub fn record(&mut self, name: &'static str, start: &std::time::Instant)
        ensures
            final(self).entry_seq().len() == old(self).entry_seq().len() + 1,
            final(self).entry_seq().subrange(0, old(self).entry_seq().len() as int) == old(self).entry_seq(),
            final(self).entry_seq().last().0 == name,
            entry_names(final(self).entry_seq()) == entry_names(old(self).entry_seq()).push(name),
    {
        let us = elapsed_micros(start);
        self.entries.push((name, us));
        assert(self.entries@.subrange(0, self.entries@.len() - 1) =~= old(self).entries@);
        assert(entry_names(self.entry_seq()) =~= entry_names(old(self).entry_seq()).push(name));
    }

    /// Sum of all recorded durations.
    pub fn total_us(&self) -> (res: u64)
        requires
            total_of(self.entry_seq()) <= u64::MAX,
        ensures
            res == total_of(self.entry_seq()),
    {
        let mut sum: u64 = 0;
        let mut i: usize = 0;
        while i < self.entries.len()
            invariant
                i <= self.entries.len(),
                total_of(self.entries@) <= u64::MAX,
                sum == total_of(self.entries@.subrange(0, i as int)),
            decreases self.entries.len() - i,
        {
            proof {
                lemma_total_prefix(self.entries@, i + 1);
                assert(self.entries@.subrange(0, i + 1).drop_last() =~= self.entries@.subrange(0, i as int));
            }
            sum = sum + self.entries[i].1;
            i = i + 1;
        }
        assert(self.entries@.subrange(0, i as int) =~= self.entries@);
        sum
    }

    /// Sum of all recorded durations, or `u64::MAX` when the sum does not
    /// fit.
    pub fn total_us_saturating(&self) -> (res: u64)
        ensures
            total_of(self.entry_seq()) <= u64::MAX ==> res == total_of(self.entry_seq()),
            total_of(self.entry_seq()) > u64::MAX ==> res == u64::MAX,
    {
        let mut sum: u64 = 0;
        let mut i: usize = 0;
        while i < self.entries.len()
            invariant
                i <= self.entries.len(),
                total_of(self.entries@.subrange(0, i as int)) <= u64::MAX ==> sum == total_of(self.entries@.subrange(0, i as int)),
                total_of(self.entries@.subrange(0, i as int)) > u64::MAX ==> sum == u64::MAX,
            decreases self.entries.len() - i,
        {
            proof {
                assert(self.entries@.subrange(0, i + 1).drop_last() =~= self.entries@.subrange(0, i as int));
            }
            let add = self.entries[i].1;
            if sum == u64::MAX || add > u64::MAX - sum {
                sum = u64::MAX;
            } else {
                sum = sum + add;
            }
            i = i + 1;
        }
        assert(self.entries@.subrange(0, i as int) =~= self.entries@);
        sum
    }

    /// The timings as a JSON object: `{"stage":microseconds,...}`.
    pub fn to_json(&self) -> (res: String)
        ensures
            res@ == crate::text::utf8_lossy(json_object(self.entry_seq())),
            vstd::utf8::valid_utf8(json_object(self.entry_seq())),
            res@ == vstd::utf8::decode_utf8(json_object(self.entry_seq())),
            self.entry_seq().len() == 0 ==> res@ == seq!['{', '}'],
    {
        let mut out: Vec<u8> = Vec::new();
        out.push(0x7b);
        let mut i: usize = 0;
        while i < self.entries.len()
            invariant
                i <= self.entries.len(),
                out@ == seq![0x7bu8] + json_pairs(self.entries@, i as int),
            decreases self.entries.len() - i,
        {
            if i > 0 {
                out.push(0x2c);
            }
            out.push(0x22);
            push_all(&mut out, self.entries[i].0.as_bytes());
            out.push(0x22);
            out.push(0x3a);
            push_decimal(&mut out, self.entries[i].1);
            assert(out@ =~= seq![0x7bu8] + json_pairs(self.entries@, i + 1));
            i = i + 1;
        }
        let ghost before = out@;
        out.push(0x7d);
        assert(out@ =~= seq![0x7bu8] + json_pairs(self.entry_seq(), self.entry_seq().len() as int) + seq![0x7du8]);
        proof {
            let pairs = json_pairs(self.entry_seq(), self.entry_seq().len() as int);
            lemma_json_pairs_utf8(self.entry_seq(), self.entry_seq().len() as int);
            crate::text::lemma_ascii_utf8(seq![0x7bu8]);
            crate::text::lemma_ascii_utf8(seq![0x7du8]);
            vstd::utf8::valid_utf8_concat(seq![0x7bu8], pairs);
            vstd::utf8::valid_utf8_concat(seq![0x7bu8] + pairs, seq![0x7du8]);
            if self.entry_seq().len() == 0 {
                assert(json_object(self.entry_seq()) =~= seq![0x7bu8, 0x7du8]);
                crate::text::lemma_ascii_utf8(seq![0x7bu8, 0x7du8]);
                assert(seq![0x7bu8, 0x7du8].map_values(|b: u8| b as char) =~= seq!['{', '}']);
            }
        }
        crate::text::string_from_bytes(out.as_slice())
    }

    /// The recorded entries.
    pub fn entries(&self) -> (res: &[(&'static str, u64)])
        ensures
            res@ == self.entry_seq(),
    {
        self.entries.as_slice()
    }
}

proof fn lemma_total_prefix(e: Seq<(&'static str, u64)>, n: int)
    requires
        0 <= n <= e.len(),
    ensures
        total_of(e.subrange(0, n)) <= total_of(e),
    decreases e.len(),
{
    if n < e.len() {
        assert(e.drop_last().subrange(0, n) =~= e.subrange(0, n));
        lemma_total_prefix(e.drop_last(), n);
    } else {
        assert(e.subrange(0, n) =~= e);
    }
}

} // verus!
