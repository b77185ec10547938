//! The replay log: a persisted record of a seed and a sequence of test-case
//! outcomes, written so a worker process can blindly append one glyph per
//! outcome and a supervisor can parse the file to resume after a crash.

use vstd::prelude::*;
use crate::test_runner::{StepV, TestCaseError, TestCaseResult, step_view, steps_view};

verus! {

/// Glyph recording a passed test case.
pub const PASS_BYTE: u8 = 43;

/// Glyph recording a failed test case.
pub const FAIL_BYTE: u8 = 45;

/// Glyph recording a rejected test case.
pub const REJECT_BYTE: u8 = 33;

/// Glyph marking the end of a completed run.
pub const TERM_BYTE: u8 = 46;

/// The newline that terminates each seed line.
pub const NL_BYTE: u8 = 10;

/// The glyph that records one outcome.
pub open spec fn step_byte(s: StepV) -> u8 {
    match s {
        StepV::Pass => PASS_BYTE,
        StepV::Fail(_) => FAIL_BYTE,
        StepV::Reject(_) => REJECT_BYTE,
    }
}

/// A record of one `TestRunner` invocation: the seed its generator started
/// from and the verdicts of the cases run so far, in order. The runner can
/// take the recorded verdicts as given instead of re-running those cases.
#[derive(Clone, Debug)]
pub struct Replay {
    /// The seed of the random-number generator the run started from.
    pub seed: [u32; 4],
    /// The verdicts recorded so far, oldest first.
    pub steps: Vec<TestCaseResult>,
}

/// The abstract content of a `Replay`.
pub struct ReplayV {
    pub seed: Seq<u32>,
    pub steps: Seq<StepV>,
}

impl View for Replay {
    type V = ReplayV;

    open spec fn view(&self) -> ReplayV {
        ReplayV { seed: self.seed@, steps: steps_view(self.steps@) }
    }
}

impl Replay {
    /// If `other` records more steps than `self`, appends the extra suffix of
    /// `other` onto `self`; otherwise changes nothing. Never truncates and
    /// never reorders, so a replay only ever grows.
    pub fn merge(&mut self, other: &Replay)
        ensures
            final(self).seed == old(self).seed,
            final(self)@.steps == if other@.steps.len() > old(self)@.steps.len() {
                old(self)@.steps + other@.steps.subrange(
                    old(self)@.steps.len() as int,
                    other@.steps.len() as int,
                )
            } else {
                old(self)@.steps
            },
            final(self)@.steps.len() >= old(self)@.steps.len(),
            (other@.steps.len() > old(self)@.steps.len()
                && other@.steps.subrange(0, old(self)@.steps.len() as int) == old(self)@.steps)
                ==> final(self)@.steps == other@.steps,
    {
        if other.steps.len() > self.steps.len() {
            let mut i: usize = self.steps.len();
            while i < other.steps.len()
                invariant
                    old(self).steps@.len() <= i <= other.steps@.len(),
                    self.seed == old(self).seed,
                    steps_view(self.steps@) == steps_view(old(self).steps@)
                        + steps_view(other.steps@).subrange(old(self).steps@.len() as int, i as int),
                decreases other.steps@.len() - i,
            {
                let step = match &other.steps[i] {
                    Ok(_) => Ok(()),
                    Err(e) => Err(e.duplicate()),
                };
                proof {
                    assert(step_view(step) == steps_view(other.steps@)[i as int]);
                }
                let ghost prev = self.steps@;
                self.steps.push(step);
                proof {
                    let n0 = old(self).steps@.len() as int;
                    let ov = steps_view(other.steps@);
                    assert(steps_view(prev.push(step)) =~= steps_view(prev).push(step_view(step)));
                    assert(ov.subrange(n0, i + 1) =~= ov.subrange(n0, i as int).push(ov[i as int]));
                    assert(steps_view(old(self).steps@) + ov.subrange(n0, i + 1)
                        =~= (steps_view(old(self).steps@) + ov.subrange(n0, i as int)).push(
                        ov[i as int],
                    ));
                }
                i = i + 1;
            }
            proof {
                assert(steps_view(other.steps@).subrange(0, old(self).steps@.len() as int)
                    == steps_view(other.steps@.subrange(0, old(self).steps@.len() as int)))
                    by {
                    assert(steps_view(other.steps@).subrange(0, old(self).steps@.len() as int)
                        =~= steps_view(other.steps@.subrange(0, old(self).steps@.len() as int)));
                }
                if steps_view(other.steps@).subrange(0, old(self).steps@.len() as int)
                    == steps_view(old(self).steps@) {
                    assert(steps_view(self.steps@) =~= steps_view(other.steps@));
                }
            }
        }
    }
}

/// Result of loading a replay file.
#[derive(Clone, Debug)]
pub enum ReplayFileStatus {
    /// The file is valid and represents a currently-in-progress test.
    InProgress(Replay),
    /// The file is valid, but indicates that all testing has completed.
    Terminated(Replay),
    /// The file is not parsable.
    Corrupt,
}

/// The abstract content of a `ReplayFileStatus`.
pub enum StatusV {
    InProgress(ReplayV),
    Terminated(ReplayV),
    Corrupt,
}

impl View for ReplayFileStatus {
    type V = StatusV;

    open spec fn view(&self) -> StatusV {
        match self {
            ReplayFileStatus::InProgress(r) => StatusV::InProgress(r@),
            ReplayFileStatus::Terminated(r) => StatusV::Terminated(r@),
            ReplayFileStatus::Corrupt => StatusV::Corrupt,
        }
    }
}

/// The decimal digit bytes of `n`, most significant first.
pub open spec fn dec_rep(n: nat) -> Seq<u8>
    decreases n,
{
    if n < 10 {
        seq![(48 + n) as u8]
    } else {
        dec_rep(n / 10).push((48 + n % 10) as u8)
    }
}

/// The serialized seed: four decimal numbers, each on a line of its own.
pub open spec fn format_seed(seed: Seq<u32>) -> Seq<u8> {
    dec_rep(seed[0] as nat) + seq![NL_BYTE] + dec_rep(seed[1] as nat) + seq![NL_BYTE] + dec_rep(
        seed[2] as nat,
    ) + seq![NL_BYTE] + dec_rep(seed[3] as nat) + seq![NL_BYTE]
}

/// The serialized outcome sequence: one glyph per step, unterminated.
pub open spec fn format_steps(steps: Seq<StepV>) -> Seq<u8> {
    steps.map_values(|s: StepV| step_byte(s))
}

/// The full serialized form of a replay: the seed lines followed by the
/// outcome glyphs.
pub open spec fn format_replay(r: ReplayV) -> Seq<u8> {
    format_seed(r.seed) + format_steps(r.steps)
}

/// Whitespace surrounding a seed number is ignored.
pub open spec fn is_ws(b: u8) -> bool {
    b == 32 || b == 9 || b == 13 || b == 11 || b == 12 || b == NL_BYTE
}

/// A decimal digit byte.
pub open spec fn is_digit(b: u8) -> bool {
    48 <= b <= 57
}

/// The line with surrounding whitespace removed.
pub open spec fn trim_spec(line: Seq<u8>) -> Seq<u8>
    decreases line.len(),
{
    if line.len() == 0 {
        line
    } else if is_ws(line[0]) {
        trim_spec(line.subrange(1, line.len() as int))
    } else if is_ws(line.last()) {
        trim_spec(line.subrange(0, line.len() - 1))
    } else {
        line
    }
}

/// Every byte is a decimal digit.
pub open spec fn all_digits(ds: Seq<u8>) -> bool {
    forall|j: int| 0 <= j < ds.len() ==> is_digit(ds[j])
}

/// The number the digit bytes denote, read left to right.
pub open spec fn digits_val(ds: Seq<u8>) -> nat
    decreases ds.len(),
{
    if ds.len() == 0 {
        0
    } else {
        (digits_val(ds.drop_last()) * 10 + (ds.last() - 48)) as nat
    }
}

/// How one seed line reads as an unsigned 32-bit number: surrounding
/// whitespace is ignored, one leading plus sign is allowed, and the digits
/// must be non-empty and denote a value that fits; anything else fails.
pub open spec fn parse_u32_line(line: Seq<u8>) -> Option<u32> {
    let t = trim_spec(line);
    let d = if t.len() > 0 && t[0] == 43 {
        t.subrange(1, t.len() as int)
    } else {
        t
    };
    if d.len() > 0 && all_digits(d) && digits_val(d) <= u32::MAX {
        Some(digits_val(d) as u32)
    } else {
        None
    }
}

/// The index of the first newline, or the length when there is none.
pub open spec fn find_nl(data: Seq<u8>) -> int
    decreases data.len(),
{
    if data.len() == 0 {
        0
    } else if data[0] == NL_BYTE {
        0
    } else {
        1 + find_nl(data.subrange(1, data.len() as int))
    }
}

/// What remains after the first line and its newline are consumed.
pub open spec fn rest_after_line(data: Seq<u8>) -> Seq<u8> {
    let e = find_nl(data);
    if e < data.len() {
        data.subrange(e + 1, data.len() as int)
    } else {
        data.subrange(e, data.len() as int)
    }
}

/// The `k`-th line of the input, without its newline.
pub open spec fn nth_line(data: Seq<u8>, k: nat) -> Seq<u8>
    decreases k,
{
    if k == 0 {
        data.take(find_nl(data))
    } else {
        nth_line(rest_after_line(data), (k - 1) as nat)
    }
}

/// The reason text given to a failure read back from a replay file; the
/// original reason is not preserved across the process boundary.
pub open spec fn fail_reason() -> Seq<char> {
    "failed in other process"@
}

/// The reason text given to a rejection read back from a replay file.
pub open spec fn reject_reason() -> Seq<char> {
    "rejected in other process"@
}

/// How the outcome section reads once the seed is parsed: glyphs accumulate
/// onto `acc` until the input ends (still in progress), a terminator is found
/// (terminated), or an unrecognized byte is found (corrupt).
pub open spec fn parse_steps_from(seed: Seq<u32>, data: Seq<u8>, acc: Seq<StepV>) -> StatusV
    decreases data.len(),
{
    if data.len() == 0 {
        StatusV::InProgress(ReplayV { seed, steps: acc })
    } else if data[0] == PASS_BYTE {
        parse_steps_from(seed, data.subrange(1, data.len() as int), acc.push(StepV::Pass))
    } else if data[0] == FAIL_BYTE {
        parse_steps_from(
            seed,
            data.subrange(1, data.len() as int),
            acc.push(StepV::Fail(fail_reason())),
        )
    } else if data[0] == REJECT_BYTE {
        parse_steps_from(
            seed,
            data.subrange(1, data.len() as int),
            acc.push(StepV::Reject(reject_reason())),
        )
    } else if data[0] == TERM_BYTE {
        StatusV::Terminated(ReplayV { seed, steps: acc })
    } else {
        StatusV::Corrupt
    }
}

/// How the input reads while `k` seed lines are still expected: each line
/// must parse as a number, and the remainder is the outcome section.
pub open spec fn parse_seed_lines(data: Seq<u8>, k: nat, seed: Seq<u32>) -> StatusV
    decreases k,
{
    if k == 0 {
        parse_steps_from(seed, data, Seq::empty())
    } else {
        match parse_u32_line(data.take(find_nl(data))) {
            Some(w) => parse_seed_lines(rest_after_line(data), (k - 1) as nat, seed.push(w)),
            None => StatusV::Corrupt,
        }
    }
}

/// How a whole replay file reads: four seed lines, then the outcome section.
pub open spec fn parse_status(data: Seq<u8>) -> StatusV {
    parse_seed_lines(data, 4, Seq::empty())
}

/// The glyph that records the given step.
fn step_to_byte(step: &TestCaseResult) -> (r: u8)
    ensures
        r == step_byte(step_view(*step)),
{
    match step {
        Ok(_) => PASS_BYTE,
        Err(TestCaseError::Reject(_)) => REJECT_BYTE,
        Err(TestCaseError::Fail(_)) => FAIL_BYTE,
    }
}

/// Append the given step to the given output: exactly one glyph, so that an
/// appender never writes a partial record.
pub fn append(out: &mut Vec<u8>, step: &TestCaseResult)
    ensures
        final(out)@ == old(out)@.push(step_byte(step_view(*step))),
{
    let b = step_to_byte(step);
    out.push(b);
}

/// Append a termination mark to the given output.
pub fn terminate(out: &mut Vec<u8>)
    ensures
        final(out)@ == old(out)@.push(TERM_BYTE),
{
    out.push(TERM_BYTE);
}

/// Appends the decimal digits of `n`.
fn push_decimal(n: u32, out: &mut Vec<u8>)
    ensures
        final(out)@ == old(out)@ + dec_rep(n as nat),
    decreases n,
{
    if n < 10 {
        out.push(48 + n as u8);
        proof {
            assert(old(out)@ + dec_rep(n as nat) =~= old(out)@.push((48 + n) as u8));
        }
    } else {
        push_decimal(n / 10, out);
        out.push(48 + (n % 10) as u8);
        proof {
            assert(old(out)@ + dec_rep(n as nat) =~= (old(out)@ + dec_rep(n as nat / 10)).push(
                (48 + n as nat % 10) as u8,
            ));
        }
    }
}

impl Replay {
    /// Write the full state of this `Replay` to the given output: the seed as
    /// four newline-terminated decimal numbers, then one glyph per recorded
    /// step, with no terminator.
    pub fn init_file(&self, out: &mut Vec<u8>)
        ensures
            final(out)@ == old(out)@ + format_replay(self@),
    {
        push_decimal(self.seed[0], out);
        out.push(NL_BYTE);
        push_decimal(self.seed[1], out);
        out.push(NL_BYTE);
        push_decimal(self.seed[2], out);
        out.push(NL_BYTE);
        push_decimal(self.seed[3], out);
        out.push(NL_BYTE);
        proof {
            assert(out@ =~= old(out)@ + format_seed(self@.seed));
        }
        let ghost mid = out@;
        let mut i: usize = 0;
        while i < self.steps.len()
            invariant
                i <= self.steps@.len(),
                out@ == mid + format_steps(steps_view(self.steps@).take(i as int)),
                mid == old(out)@ + format_seed(self@.seed),
            decreases self.steps@.len() - i,
        {
            let b = step_to_byte(&self.steps[i]);
            out.push(b);
            proof {
                let sv = steps_view(self.steps@);
                assert(format_steps(sv.take(i + 1)) =~= format_steps(sv.take(i as int)).push(
                    step_byte(sv[i as int]),
                ));
                assert(out@ =~= mid + format_steps(sv.take(i + 1)));
            }
            i = i + 1;
        }
        proof {
            let sv = steps_view(self.steps@);
            assert(sv.take(self.steps@.len() as int) =~= sv);
            assert(out@ =~= old(out)@ + format_replay(self@));
        }
    }

    /// Mark the replay as complete in the output.
    pub fn complete(out: &mut Vec<u8>)
        ensures
            final(out)@ == old(out)@.push(TERM_BYTE),
    {
        out.push(TERM_BYTE);
    }
}

/// The synthetic form a recorded step takes when read back from a file: the
/// tag survives, the reason text is replaced by the cross-process reason.
pub open spec fn replayed(s: StepV) -> StepV {
    match s {
        StepV::Pass => StepV::Pass,
        StepV::Fail(_) => StepV::Fail(fail_reason()),
        StepV::Reject(_) => StepV::Reject(reject_reason()),
    }
}

/// The synthetic forms of a whole outcome sequence.
pub open spec fn replayed_steps(s: Seq<StepV>) -> Seq<StepV> {
    s.map_values(|x: StepV| replayed(x))
}

/// A byte the outcome section recognizes at all.
pub open spec fn is_outcome_glyph(b: u8) -> bool {
    b == PASS_BYTE || b == FAIL_BYTE || b == REJECT_BYTE || b == TERM_BYTE
}

/// A byte recording one step (not the terminator).
pub open spec fn is_step_glyph(b: u8) -> bool {
    b == PASS_BYTE || b == FAIL_BYTE || b == REJECT_BYTE
}

/// What remains of the input after `k` whole lines are consumed.
pub open spec fn after_lines(data: Seq<u8>, k: nat) -> Seq<u8>
    decreases k,
{
    if k == 0 {
        data
    } else {
        after_lines(rest_after_line(data), (k - 1) as nat)
    }
}

/// A rendered number is at least one byte, all of them digits.
proof fn lemma_dec_rep_digits(n: nat)
    ensures
        dec_rep(n).len() >= 1,
        all_digits(dec_rep(n)),
    decreases n,
{
    if n < 10 {
        assert(is_digit(dec_rep(n)[0]));
    } else {
        lemma_dec_rep_digits(n / 10);
        assert forall|j: int| 0 <= j < dec_rep(n).len() implies is_digit(dec_rep(n)[j]) by {
            if j < dec_rep(n / 10).len() {
                assert(dec_rep(n)[j] == dec_rep(n / 10)[j]);
            } else {
                assert(dec_rep(n)[j] == (48 + n % 10) as u8);
            }
        }
    }
}

/// Rendering a number and reading the digits back gives the number.
proof fn lemma_digits_val_dec_rep(n: nat)
    ensures
        digits_val(dec_rep(n)) == n,
    decreases n,
{
    if n < 10 {
        assert(dec_rep(n).drop_last() =~= Seq::<u8>::empty());
        assert(digits_val(Seq::<u8>::empty()) == 0);
        assert(dec_rep(n).last() == (48 + n) as u8);
        assert((48 + n) as u8 == 48 + n);
    } else {
        lemma_digits_val_dec_rep(n / 10);
        assert(dec_rep(n).drop_last() =~= dec_rep(n / 10));
        assert(dec_rep(n).last() == (48 + n % 10) as u8);
        assert(0 <= n % 10 < 10);
        assert((48 + n % 10) as u8 == 48 + n % 10);
        vstd::arithmetic::div_mod::lemma_fundamental_div_mod(n as int, 10);
    }
}

/// A rendered seed word parses back to itself.
proof fn lemma_parse_u32_dec_rep(n: u32)
    ensures
        parse_u32_line(dec_rep(n as nat)) == Some(n),
{
    let ds = dec_rep(n as nat);
    lemma_dec_rep_digits(n as nat);
    lemma_digits_val_dec_rep(n as nat);
    assert(is_digit(ds[0]));
    assert(is_digit(ds.last()));
    assert(trim_spec(ds) == ds);
    assert(ds[0] != 43);
}

/// Consuming one rendered seed line steps the seed parser.
proof fn lemma_seed_line_consume(n: u32, rest: Seq<u8>, k: nat, seed: Seq<u32>)
    ensures
        parse_seed_lines(dec_rep(n as nat) + seq![NL_BYTE] + rest, (k + 1) as nat, seed)
            == parse_seed_lines(rest, k, seed.push(n)),
{
    let ds = dec_rep(n as nat);
    let data = ds + seq![NL_BYTE] + rest;
    lemma_dec_rep_digits(n as nat);
    assert forall|j: int| 0 <= j < ds.len() implies data[j] != NL_BYTE by {
        assert(data[j] == ds[j]);
        assert(is_digit(ds[j]));
    }
    assert(data[ds.len() as int] == NL_BYTE);
    lemma_find_nl_at(data, ds.len() as int);
    assert(data.take(ds.len() as int) =~= ds);
    lemma_parse_u32_dec_rep(n);
    assert(rest_after_line(data) =~= rest);
}

/// Reading back a rendered outcome section accumulates the synthetic steps
/// and ends still in progress.
proof fn lemma_parse_glyphs(seed: Seq<u32>, steps: Seq<StepV>, acc: Seq<StepV>)
    ensures
        parse_steps_from(seed, format_steps(steps), acc) == StatusV::InProgress(
            ReplayV { seed, steps: acc + replayed_steps(steps) },
        ),
    decreases steps.len(),
{
    if steps.len() == 0 {
        assert(format_steps(steps) =~= Seq::<u8>::empty());
        assert(acc + replayed_steps(steps) =~= acc);
    } else {
        let bytes = format_steps(steps);
        let tail = steps.subrange(1, steps.len() as int);
        assert(bytes[0] == step_byte(steps[0]));
        assert(bytes.subrange(1, bytes.len() as int) =~= format_steps(tail));
        lemma_parse_glyphs(seed, tail, acc.push(replayed(steps[0])));
        assert(acc.push(replayed(steps[0])) + replayed_steps(tail) =~= acc + replayed_steps(
            steps,
        ));
        match steps[0] {
            StepV::Pass => {},
            StepV::Fail(_) => {},
            StepV::Reject(_) => {},
        }
    }
}

/// Reading back a rendered outcome section followed by the terminator
/// accumulates the synthetic steps and ends terminated.
proof fn lemma_parse_glyphs_terminated(seed: Seq<u32>, steps: Seq<StepV>, acc: Seq<StepV>)
    ensures
        parse_steps_from(seed, format_steps(steps).push(TERM_BYTE), acc) == StatusV::Terminated(
            ReplayV { seed, steps: acc + replayed_steps(steps) },
        ),
    decreases steps.len(),
{
    let data = format_steps(steps).push(TERM_BYTE);
    if steps.len() == 0 {
        assert(data[0] == TERM_BYTE);
        assert(acc + replayed_steps(steps) =~= acc);
    } else {
        let tail = steps.subrange(1, steps.len() as int);
        assert(data[0] == step_byte(steps[0]));
        assert(data.subrange(1, data.len() as int) =~= format_steps(tail).push(TERM_BYTE));
        lemma_parse_glyphs_terminated(seed, tail, acc.push(replayed(steps[0])));
        assert(acc.push(replayed(steps[0])) + replayed_steps(tail) =~= acc + replayed_steps(
            steps,
        ));
        match steps[0] {
            StepV::Pass => {},
            StepV::Fail(_) => {},
            StepV::Reject(_) => {},
        }
    }
}

/// Consuming the four rendered seed lines steps the parser to the outcome
/// section with the seed words collected.
proof fn lemma_consume_seed_lines(seed: Seq<u32>, rest: Seq<u8>)
    requires
        seed.len() == 4,
    ensures
        parse_seed_lines(format_seed(seed) + rest, 4, Seq::empty()) == parse_steps_from(
            seed,
            rest,
            Seq::empty(),
        ),
{
    let t3 = dec_rep(seed[3] as nat) + seq![NL_BYTE] + rest;
    let t2 = dec_rep(seed[2] as nat) + seq![NL_BYTE] + t3;
    let t1 = dec_rep(seed[1] as nat) + seq![NL_BYTE] + t2;
    let t0 = dec_rep(seed[0] as nat) + seq![NL_BYTE] + t1;
    assert(format_seed(seed) + rest =~= t0);
    lemma_seed_line_consume(seed[0], t1, 3, Seq::empty());
    assert(Seq::<u32>::empty().push(seed[0]) =~= seq![seed[0]]);
    lemma_seed_line_consume(seed[1], t2, 2, seq![seed[0]]);
    assert(seq![seed[0]].push(seed[1]) =~= seq![seed[0], seed[1]]);
    lemma_seed_line_consume(seed[2], t3, 1, seq![seed[0], seed[1]]);
    assert(seq![seed[0], seed[1]].push(seed[2]) =~= seq![seed[0], seed[1], seed[2]]);
    lemma_seed_line_consume(seed[3], rest, 0, seq![seed[0], seed[1], seed[2]]);
    assert(seq![seed[0], seed[1], seed[2]].push(seed[3]) =~= seed);
}

/// Writing a replay in full and parsing the content back yields an
/// in-progress replay with an equal seed and equal outcome tags; only the
/// reason text of failures and rejections is the synthetic cross-process
/// reason, since the original text does not survive the process boundary.
pub proof fn lemma_write_parse_round_trip(r: ReplayV)
    requires
        r.seed.len() == 4,
    ensures
        parse_status(format_replay(r)) == StatusV::InProgress(
            ReplayV { seed: r.seed, steps: replayed_steps(r.steps) },
        ),
{
    lemma_consume_seed_lines(r.seed, format_steps(r.steps));
    lemma_parse_glyphs(r.seed, r.steps, Seq::empty());
    assert(Seq::<StepV>::empty() + replayed_steps(r.steps) =~= replayed_steps(r.steps));
}

/// Writing a replay in full, appending the terminator, and parsing the
/// content back yields the same replay marked terminated, with the steps
/// recorded before the terminator.
pub proof fn lemma_terminated_round_trip(r: ReplayV)
    requires
        r.seed.len() == 4,
    ensures
        parse_status(format_replay(r).push(TERM_BYTE)) == StatusV::Terminated(
            ReplayV { seed: r.seed, steps: replayed_steps(r.steps) },
        ),
{
    assert(format_replay(r).push(TERM_BYTE) =~= format_seed(r.seed) + format_steps(
        r.steps,
    ).push(TERM_BYTE));
    lemma_consume_seed_lines(r.seed, format_steps(r.steps).push(TERM_BYTE));
    lemma_parse_glyphs_terminated(r.seed, r.steps, Seq::empty());
    assert(Seq::<StepV>::empty() + replayed_steps(r.steps) =~= replayed_steps(r.steps));
}

/// An unrecognized byte in the outcome section, with only step glyphs before
/// it, makes the section corrupt whatever came before.
proof fn lemma_steps_corrupt(seed: Seq<u32>, data: Seq<u8>, acc: Seq<StepV>, i: int)
    requires
        0 <= i < data.len(),
        !is_outcome_glyph(data[i]),
        forall|j: int| 0 <= j < i ==> is_step_glyph(data[j]),
    ensures
        parse_steps_from(seed, data, acc) == StatusV::Corrupt,
    decreases i,
{
    if i == 0 {
    } else {
        let rest = data.subrange(1, data.len() as int);
        assert(rest[i - 1] == data[i]);
        assert forall|j: int| 0 <= j < i - 1 implies is_step_glyph(rest[j]) by {
            assert(rest[j] == data[j + 1]);
        }
        assert(is_step_glyph(data[0]));
        if data[0] == PASS_BYTE {
            lemma_steps_corrupt(seed, rest, acc.push(StepV::Pass), i - 1);
        } else if data[0] == FAIL_BYTE {
            lemma_steps_corrupt(seed, rest, acc.push(StepV::Fail(fail_reason())), i - 1);
        } else {
            lemma_steps_corrupt(seed, rest, acc.push(StepV::Reject(reject_reason())), i - 1);
        }
    }
}

/// An unparsable line among the first four makes the whole content corrupt;
/// `k` is the first line that does not parse as a seed word.
pub proof fn lemma_corrupt_seed_line(data: Seq<u8>, k: nat)
    requires
        k < 4,
        parse_u32_line(nth_line(data, k)) is None,
        forall|j: nat| j < k ==> parse_u32_line(nth_line(data, j)) is Some,
    ensures
        parse_status(data) == StatusV::Corrupt,
{
    lemma_corrupt_seed_rec(data, k, 4, Seq::empty());
}

proof fn lemma_corrupt_seed_rec(data: Seq<u8>, k: nat, m: nat, seed: Seq<u32>)
    requires
        k < m,
        parse_u32_line(nth_line(data, k)) is None,
        forall|j: nat| j < k ==> parse_u32_line(nth_line(data, j)) is Some,
    ensures
        parse_seed_lines(data, m, seed) == StatusV::Corrupt,
    decreases k,
{
    if k == 0 {
        assert(nth_line(data, 0) == data.take(find_nl(data)));
    } else {
        assert(parse_u32_line(nth_line(data, 0)) is Some);
        assert(nth_line(data, 0) == data.take(find_nl(data)));
        let line0 = data.take(find_nl(data));
        let w = choose|w: u32| parse_u32_line(line0) == Some(w);
        assert(parse_u32_line(line0) == Some(w));
        let rest = rest_after_line(data);
        assert forall|j: nat| j < (k - 1) as nat implies parse_u32_line(
            nth_line(rest, j),
        ) is Some by {
            assert(nth_line(data, (j + 1) as nat) == nth_line(rest, j));
            assert(parse_u32_line(nth_line(data, (j + 1) as nat)) is Some);
        }
        assert(nth_line(data, k) == nth_line(rest, (k - 1) as nat));
        lemma_corrupt_seed_rec(rest, (k - 1) as nat, (m - 1) as nat, seed.push(w));
    }
}

/// An unrecognized byte in the outcome section, after four parsable seed
/// lines and with only step glyphs standing before it, makes the whole
/// content corrupt; `i` indexes the first unrecognized byte.
pub proof fn lemma_corrupt_glyph(data: Seq<u8>, i: int)
    requires
        forall|j: nat| j < 4 ==> parse_u32_line(nth_line(data, j)) is Some,
        0 <= i < after_lines(data, 4).len(),
        !is_outcome_glyph(after_lines(data, 4)[i]),
        forall|j: int| 0 <= j < i ==> is_step_glyph(after_lines(data, 4)[j]),
    ensures
        parse_status(data) == StatusV::Corrupt,
{
    lemma_corrupt_glyph_rec(data, 4, Seq::empty(), i);
}

proof fn lemma_corrupt_glyph_rec(data: Seq<u8>, m: nat, seed: Seq<u32>, i: int)
    requires
        forall|j: nat| j < m ==> parse_u32_line(nth_line(data, j)) is Some,
        0 <= i < after_lines(data, m).len(),
        !is_outcome_glyph(after_lines(data, m)[i]),
        forall|j: int| 0 <= j < i ==> is_step_glyph(after_lines(data, m)[j]),
    ensures
        parse_seed_lines(data, m, seed) == StatusV::Corrupt,
    decreases m,
{
    if m == 0 {
        lemma_steps_corrupt(seed, data, Seq::empty(), i);
    } else {
        assert(parse_u32_line(nth_line(data, 0)) is Some);
        assert(nth_line(data, 0) == data.take(find_nl(data)));
        let line0 = data.take(find_nl(data));
        let w = choose|w: u32| parse_u32_line(line0) == Some(w);
        assert(parse_u32_line(line0) == Some(w));
        let rest = rest_after_line(data);
        assert forall|j: nat| j < (m - 1) as nat implies parse_u32_line(
            nth_line(rest, j),
        ) is Some by {
            assert(nth_line(data, (j + 1) as nat) == nth_line(rest, j));
            assert(parse_u32_line(nth_line(data, (j + 1) as nat)) is Some);
        }
        assert(after_lines(rest, (m - 1) as nat) == after_lines(data, m));
        lemma_corrupt_glyph_rec(rest, (m - 1) as nat, seed.push(w), i);
    }
}

/// Where `find_nl` points: at the first newline, or past the end when there
/// is none.
proof fn lemma_find_nl_char(data: Seq<u8>)
    ensures
        0 <= find_nl(data) <= data.len(),
        find_nl(data) < data.len() ==> data[find_nl(data)] == NL_BYTE,
        forall|j: int| 0 <= j < find_nl(data) ==> data[j] != NL_BYTE,
    decreases data.len(),
{
    if data.len() == 0 {
    } else if data[0] == NL_BYTE {
    } else {
        let tail = data.subrange(1, data.len() as int);
        lemma_find_nl_char(tail);
        assert forall|j: int| 0 <= j < find_nl(data) implies data[j] != NL_BYTE by {
            if j > 0 {
                assert(tail[j - 1] == data[j]);
            }
        }
        if find_nl(data) < data.len() {
            assert(data[find_nl(data)] == tail[find_nl(tail)]);
        }
    }
}

/// The index before which no newline stands, and at which one stands unless
/// the input ends, is where `find_nl` points.
proof fn lemma_find_nl_at(data: Seq<u8>, e: int)
    requires
        0 <= e <= data.len(),
        forall|j: int| 0 <= j < e ==> data[j] != NL_BYTE,
        e < data.len() ==> data[e] == NL_BYTE,
    ensures
        find_nl(data) == e,
{
    lemma_find_nl_char(data);
    let f = find_nl(data);
    if f < e {
        assert(data[f] != NL_BYTE);
        assert(data[f] == NL_BYTE);
    }
    if f > e {
        assert(data[e] == NL_BYTE);
        assert(data[e] != NL_BYTE);
    }
}

/// Reading more digits never decreases the value a digit string denotes.
proof fn lemma_digits_val_monotone(ds: Seq<u8>, m: int)
    requires
        0 <= m <= ds.len(),
        all_digits(ds),
    ensures
        digits_val(ds) >= digits_val(ds.take(m)),
    decreases ds.len() - m,
{
    if m == ds.len() {
        assert(ds.take(m) =~= ds);
    } else {
        lemma_digits_val_monotone(ds, m + 1);
        assert(ds.take(m + 1).drop_last() =~= ds.take(m));
        assert(ds.take(m + 1).last() == ds[m]);
        assert(is_digit(ds[m]));
    }
}

/// Whether the byte counts as ignorable whitespace around a seed number.
fn is_ws_byte(b: u8) -> (r: bool)
    ensures
        r == is_ws(b),
{
    b == 32 || b == 9 || b == 13 || b == 11 || b == 12 || b == NL_BYTE
}

/// Reads the bytes `lo..hi` as one seed line.
#[verifier::loop_isolation(false)]
fn parse_u32_range(data: &[u8], lo: usize, hi: usize) -> (r: Option<u32>)
    requires
        lo <= hi <= data@.len(),
    ensures
        r == parse_u32_line(data@.subrange(lo as int, hi as int)),
{
    let ghost orig = data@.subrange(lo as int, hi as int);
    let mut lo = lo;
    let mut hi = hi;
    while lo < hi && is_ws_byte(data[lo])
        invariant
            lo <= hi <= data@.len(),
            trim_spec(data@.subrange(lo as int, hi as int)) == trim_spec(orig),
        decreases hi - lo,
    {
        proof {
            let s = data@.subrange(lo as int, hi as int);
            assert(s.subrange(1, s.len() as int) =~= data@.subrange(lo + 1, hi as int));
        }
        lo = lo + 1;
    }
    while lo < hi && is_ws_byte(data[hi - 1])
        invariant
            lo <= hi <= data@.len(),
            trim_spec(data@.subrange(lo as int, hi as int)) == trim_spec(orig),
            lo == hi || !is_ws(data@[lo as int]),
        decreases hi,
    {
        proof {
            let s = data@.subrange(lo as int, hi as int);
            assert(s.subrange(0, s.len() - 1) =~= data@.subrange(lo as int, hi - 1));
        }
        hi = hi - 1;
    }
    proof {
        let t = data@.subrange(lo as int, hi as int);
        assert(trim_spec(t) == t);
    }
    let ghost t = data@.subrange(lo as int, hi as int);
    if lo < hi && data[lo] == 43 {
        lo = lo + 1;
        proof {
            assert(t.subrange(1, t.len() as int) =~= data@.subrange(lo as int, hi as int));
        }
    }
    let ghost d = data@.subrange(lo as int, hi as int);
    if lo == hi {
        proof {
            assert(d.len() == 0);
        }
        return None;
    }
    proof {
        assert(parse_u32_line(orig) == (if d.len() > 0 && all_digits(d) && digits_val(d)
            <= u32::MAX {
            Some(digits_val(d) as u32)
        } else {
            None::<u32>
        }));
    }
    let mut val: u64 = 0;
    let mut j = lo;
    while j < hi
        invariant
            lo <= j <= hi <= data@.len(),
            d == data@.subrange(lo as int, hi as int),
            lo < hi,
            all_digits(d.take(j - lo)),
            val == digits_val(d.take(j - lo)),
            val <= u32::MAX,
            parse_u32_line(orig) == (if d.len() > 0 && all_digits(d) && digits_val(d) <= u32::MAX {
                Some(digits_val(d) as u32)
            } else {
                None::<u32>
            }),
        decreases hi - j,
    {
        let b = data[j];
        proof {
            assert(d[j - lo] == data@[j as int]);
        }
        if b < 48 || b > 57 {
            proof {
                assert(!is_digit(d[j - lo]));
            }
            return None;
        }
        let v2 = val * 10 + (b - 48) as u64;
        proof {
            assert(d.take(j - lo + 1).drop_last() =~= d.take(j - lo));
            assert(d.take(j - lo + 1).last() == d[j - lo]);
            assert(all_digits(d.take(j - lo + 1)));
        }
        if v2 > 0xFFFFFFFFu64 {
            proof {
                if all_digits(d) {
                    lemma_digits_val_monotone(d, j - lo + 1);
                }
            }
            return None;
        }
        val = v2;
        j = j + 1;
    }
    proof {
        assert(d.take(hi - lo) =~= d);
    }
    Some(val as u32)
}

/// Reads one seed line starting at `pos`: the parsed number and the position
/// just past the line, or nothing when the line does not parse.
fn parse_line(data: &[u8], pos: usize) -> (r: Option<(u32, usize)>)
    requires
        pos <= data@.len(),
    ensures
        ({
            let tail = data@.subrange(pos as int, data@.len() as int);
            match r {
                Some(p) => {
                    &&& parse_u32_line(tail.take(find_nl(tail))) == Some(p.0)
                    &&& pos <= p.1 <= data@.len()
                    &&& data@.subrange(p.1 as int, data@.len() as int) == rest_after_line(tail)
                },
                None => parse_u32_line(tail.take(find_nl(tail))) is None,
            }
        }),
{
    let ghost tail = data@.subrange(pos as int, data@.len() as int);
    let mut e: usize = pos;
    while e < data.len() && data[e] != NL_BYTE
        invariant
            pos <= e <= data@.len(),
            forall|j: int| pos <= j < e ==> data@[j] != NL_BYTE,
        decreases data@.len() - e,
    {
        e = e + 1;
    }
    proof {
        assert forall|j: int| 0 <= j < e - pos implies tail[j] != NL_BYTE by {
            assert(tail[j] == data@[pos + j]);
        }
        if (e as int) < data@.len() {
            assert(tail[e - pos] == data@[e as int]);
        }
        lemma_find_nl_at(tail, e - pos);
        assert(tail.take(find_nl(tail)) =~= data@.subrange(pos as int, e as int));
    }
    let w_opt = parse_u32_range(data, pos, e);
    match w_opt {
        None => None,
        Some(w) => {
            let newpos = if e < data.len() {
                e + 1
            } else {
                e
            };
            proof {
                assert(rest_after_line(tail) =~= data@.subrange(
                    newpos as int,
                    data@.len() as int,
                ));
            }
            Some((w, newpos))
        },
    }
}

impl Replay {
    /// Parse a `Replay` out of the given file content, read from the start:
    /// four seed lines, then one glyph per step up to the end of the input
    /// (in progress) or the first terminator (terminated); an unparsable seed
    /// line or an unrecognized byte makes the whole content corrupt.
    pub fn parse_from(data: &[u8]) -> (r: ReplayFileStatus)
        ensures
            r@ == parse_status(data@),
    {
        proof {
            assert(data@.subrange(0, data@.len() as int) =~= data@);
        }
        let r0 = match parse_line(data, 0) {
            Some(p) => p,
            None => {
                return ReplayFileStatus::Corrupt;
            },
        };
        let (s0, pos1) = r0;
        proof {
            assert(Seq::<u32>::empty().push(s0) =~= seq![s0]);
            assert(parse_status(data@) == parse_seed_lines(
                data@.subrange(pos1 as int, data@.len() as int),
                3,
                seq![s0],
            ));
        }
        let r1 = match parse_line(data, pos1) {
            Some(p) => p,
            None => {
                proof {
                    assert(parse_status(data@) == StatusV::Corrupt);
                }
                return ReplayFileStatus::Corrupt;
            },
        };
        let (s1, pos2) = r1;
        proof {
            assert(seq![s0].push(s1) =~= seq![s0, s1]);
            assert(parse_status(data@) == parse_seed_lines(
                data@.subrange(pos2 as int, data@.len() as int),
                2,
                seq![s0, s1],
            ));
        }
        let r2 = match parse_line(data, pos2) {
            Some(p) => p,
            None => {
                proof {
                    assert(parse_status(data@) == StatusV::Corrupt);
                }
                return ReplayFileStatus::Corrupt;
            },
        };
        let (s2, pos3) = r2;
        proof {
            assert(seq![s0, s1].push(s2) =~= seq![s0, s1, s2]);
            assert(parse_status(data@) == parse_seed_lines(
                data@.subrange(pos3 as int, data@.len() as int),
                1,
                seq![s0, s1, s2],
            ));
        }
        let r3 = match parse_line(data, pos3) {
            Some(p) => p,
            None => {
                proof {
                    assert(parse_status(data@) == StatusV::Corrupt);
                }
                return ReplayFileStatus::Corrupt;
            },
        };
        let (s3, pos4) = r3;
        proof {
            assert(seq![s0, s1, s2].push(s3) =~= seq![s0, s1, s2, s3]);
            assert(parse_status(data@) == parse_seed_lines(
                data@.subrange(pos4 as int, data@.len() as int),
                0,
                seq![s0, s1, s2, s3],
            ));
            assert(steps_view(Seq::<TestCaseResult>::empty()) =~= Seq::<StepV>::empty());
        }
        let ghost seedv: Seq<u32> = seq![s0, s1, s2, s3];
        let seed: [u32; 4] = [s0, s1, s2, s3];
        proof {
            assert(seed@ =~= seedv);
        }
        let mut steps: Vec<TestCaseResult> = Vec::new();
        let mut i: usize = pos4;
        while i < data.len()
            invariant
                i <= data@.len(),
                seed@ == seedv,
                parse_status(data@) == parse_steps_from(
                    seedv,
                    data@.subrange(i as int, data@.len() as int),
                    steps_view(steps@),
                ),
            decreases data@.len() - i,
        {
            let b = data[i];
            let ghost rem = data@.subrange(i as int, data@.len() as int);
            proof {
                assert(rem[0] == data@[i as int]);
                assert(rem.subrange(1, rem.len() as int) =~= data@.subrange(
                    i + 1,
                    data@.len() as int,
                ));
            }
            let ghost prev = steps@;
            if b == PASS_BYTE {
                steps.push(Ok(()));
                proof {
                    assert(steps_view(prev.push(Ok(()))) =~= steps_view(prev).push(StepV::Pass));
                }
            } else if b == FAIL_BYTE {
                let step: TestCaseResult = Err(
                    TestCaseError::fail("failed in other process".to_owned()),
                );
                proof {
                    assert(step_view(step) == StepV::Fail(fail_reason()));
                }
                steps.push(step);
                proof {
                    assert(steps_view(prev.push(step)) =~= steps_view(prev).push(step_view(step)));
                }
            } else if b == REJECT_BYTE {
                let step: TestCaseResult = Err(
                    TestCaseError::reject("rejected in other process".to_owned()),
                );
                proof {
                    assert(step_view(step) == StepV::Reject(reject_reason()));
                }
                steps.push(step);
                proof {
                    assert(steps_view(prev.push(step)) =~= steps_view(prev).push(step_view(step)));
                }
            } else if b == TERM_BYTE {
                return ReplayFileStatus::Terminated(Replay { seed, steps });
            } else {
                return ReplayFileStatus::Corrupt;
            }
            i = i + 1;
        }
        proof {
            assert(data@.subrange(i as int, data@.len() as int) =~= Seq::<u8>::empty());
        }
        ReplayFileStatus::InProgress(Replay { seed, steps })
    }
}

} // verus!
