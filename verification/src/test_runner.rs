//! The execution context handed to strategies: the outcome vocabulary for a
//! single test case and the deterministic random-number source that drives
//! generation.

use vstd::prelude::*;

pub mod replay;

verus! {

/// Why a single generated test case did not count as a pass.
#[derive(Clone, Debug)]
pub enum TestCaseError {
    /// The input was rejected before the test body ran (a precondition
    /// failed); it does not count as a failure and does not drive shrinking.
    Reject(String),
    /// The test body ran and its assertion failed; this drives shrinking.
    Fail(String),
}

/// The verdict of one test case: `Ok` for a pass, otherwise the error.
pub type TestCaseResult = Result<(), TestCaseError>;

/// The abstract content of a `TestCaseResult`: the tag together with the
/// reason text, with the `String` replaced by its character sequence.
pub enum StepV {
    Pass,
    Fail(Seq<char>),
    Reject(Seq<char>),
}

/// The abstract value of one recorded outcome.
pub open spec fn step_view(s: TestCaseResult) -> StepV {
    match s {
        Ok(_) => StepV::Pass,
        Err(TestCaseError::Fail(reason)) => StepV::Fail(reason@),
        Err(TestCaseError::Reject(reason)) => StepV::Reject(reason@),
    }
}

/// The abstract values of a whole outcome sequence.
pub open spec fn steps_view(s: Seq<TestCaseResult>) -> Seq<StepV> {
    s.map_values(|r: TestCaseResult| step_view(r))
}

impl TestCaseError {
    /// Builds the rejected-input variant.
    pub fn reject(reason: String) -> (r: Self)
        ensures
            r == TestCaseError::Reject(reason),
    {
        TestCaseError::Reject(reason)
    }

    /// Builds the failed-assertion variant.
    pub fn fail(reason: String) -> (r: Self)
        ensures
            r == TestCaseError::Fail(reason),
    {
        TestCaseError::Fail(reason)
    }

    /// A copy of this error whose reason text reads the same.
    pub fn duplicate(&self) -> (r: Self)
        ensures
            step_view(Err(r)) == step_view(Err::<(), TestCaseError>(*self)),
    {
        match self {
            TestCaseError::Reject(reason) => TestCaseError::Reject(reason.clone()),
            TestCaseError::Fail(reason) => TestCaseError::Fail(reason.clone()),
        }
    }
}

/// One step of the xorshift128 generator: the next state after emitting one
/// 32-bit word, which is the last component of the new state.
pub open spec fn rng_step(s: (u32, u32, u32, u32)) -> (u32, u32, u32, u32) {
    let t = s.0 ^ (s.0 << 11);
    (s.1, s.2, s.3, s.3 ^ (s.3 >> 19) ^ t ^ (t >> 8))
}

/// The source of randomness handed to strategies when they generate a value:
/// a deterministic xorshift128 generator started from a four-word seed, so a
/// run can be reproduced exactly from the seed recorded in a replay log.
pub struct TestRunner {
    x: u32,
    y: u32,
    z: u32,
    w: u32,
}

impl TestRunner {
    /// The current generator state.
    pub closed spec fn state(&self) -> (u32, u32, u32, u32) {
        (self.x, self.y, self.z, self.w)
    }

    /// Starts a runner from the given seed words.
    pub fn new(seed: [u32; 4]) -> (r: Self)
        ensures
            r.state() == (seed[0], seed[1], seed[2], seed[3]),
    {
        TestRunner { x: seed[0], y: seed[1], z: seed[2], w: seed[3] }
    }

    /// Draws the next 32-bit word, advancing the state by one xorshift step.
    pub fn next_u32(&mut self) -> (r: u32)
        ensures
            final(self).state() == rng_step(old(self).state()),
            r == final(self).state().3,
    {
        let t = self.x ^ (self.x << 11);
        self.x = self.y;
        self.y = self.z;
        self.z = self.w;
        self.w = self.w ^ (self.w >> 19) ^ t ^ (t >> 8);
        self.w
    }

    /// Draws once and picks between two alternatives with relative weights
    /// `w0` and `w1`: the result is `true` (the second alternative) exactly
    /// when the draw, reduced modulo the total weight, lands at or beyond the
    /// first alternative's share.
    pub fn pick_weighted(&mut self, w0: u32, w1: u32) -> (second: bool)
        requires
            0 < w0 + w1 <= u32::MAX,
        ensures
            final(self).state() == rng_step(old(self).state()),
            second == (rng_step(old(self).state()).3 as int % (w0 + w1) >= w0 as int),
    {
        let total = w0 + w1;
        let r = self.next_u32() % total;
        r >= w0
    }
}

impl Default for TestRunner {
    /// A runner with a fixed default seed, so runs without an explicit seed
    /// are still reproducible.
    fn default() -> (r: Self)
        ensures
            r.state() == (0x193a6754u32, 0xa8a7d469u32, 0x97830e05u32, 0x113ba7bbu32),
    {
        TestRunner { x: 0x193a6754, y: 0xa8a7d469, z: 0x97830e05, w: 0x113ba7bb }
    }
}

} // verus!
