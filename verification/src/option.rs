//! Strategies for generating optional values, and the validated probability
//! used to bias the choice between "present" and "absent".

use vstd::prelude::*;
use core::marker::PhantomData;
use crate::strategy::{
    MapFn, MapStrategy, MapValueTree, Strategy, TupleUnion, TupleUnionValueTree, ValueTree,
};
use crate::test_runner::TestRunner;

verus! {

/// Probabilities are held in fixed point, as a count of millionths; the scale
/// is also the total weight a probability is split into.
pub const PROBABILITY_SCALE: u32 = 1000000;

/// A probability in the range `[0, 1]`, held in millionths, with a default of
/// one half.
#[derive(Clone, Copy, PartialEq, Eq, Structural, Debug)]
pub struct Probability(u32);

impl Probability {
    /// The probability as a count of millionths.
    pub closed spec fn millionths(&self) -> u32 {
        self.0
    }

    /// The value lies within `[0, 1]`.
    pub closed spec fn wf(&self) -> bool {
        self.0 <= PROBABILITY_SCALE
    }

    /// Creates a `Probability` from a count of millionths, which must not
    /// exceed the scale: a value outside `[0, 1]` violates the contract.
    pub fn new(millionths: u32) -> (r: Self)
        requires
            millionths <= PROBABILITY_SCALE,
        ensures
            r.wf(),
            r.millionths() == millionths,
    {
        Probability(millionths)
    }

    /// Creates a `Probability` from a count of millionths, checking the
    /// range: the result is `Some` exactly when the value lies in `[0, 1]`.
    pub fn try_new(millionths: u32) -> (r: Option<Self>)
        ensures
            match r {
                Some(p) => millionths <= PROBABILITY_SCALE && p.wf() && p.millionths()
                    == millionths,
                None => millionths > PROBABILITY_SCALE,
            },
    {
        if millionths <= PROBABILITY_SCALE {
            Some(Probability(millionths))
        } else {
            None
        }
    }

    /// The underlying count of millionths.
    pub fn value(&self) -> (r: u32)
        ensures
            r == self.millionths(),
    {
        self.0
    }

    /// Merges self together with some other configuration value, producing
    /// the pair that combinators taking two pieces of configuration accept as
    /// one argument.
    pub fn with<X>(self, and: X) -> (r: (Self, X))
        ensures
            r.0 == self,
            r.1 == and,
    {
        (self, and)
    }

    /// Merges self together with the default of some other configuration
    /// type, producing the pair that combinators taking two pieces of
    /// configuration accept as one argument.
    pub fn lift<X: Default>(self) -> (r: (Self, X))
        ensures
            r.0 == self,
    {
        (self, X::default())
    }
}

impl Default for Probability {
    /// The default probability is one half, a 50% chance.
    fn default() -> (r: Self)
        ensures
            r.wf(),
            r.millionths() == 500000,
    {
        Probability(500000)
    }
}

/// Creates a `Probability` from a count of millionths, which must not exceed
/// the scale: a value outside `[0, 1]` violates the contract.
pub fn prob(from: u32) -> (r: Probability)
    requires
        from <= PROBABILITY_SCALE,
    ensures
        r.wf(),
        r.millionths() == from,
{
    Probability::new(from)
}

/// A strategy that always yields the absent value and never shrinks; it is
/// its own tree. The type parameter exists only to fix the value type.
#[derive(Debug)]
pub struct NoneStrategy<T>(PhantomData<T>);

impl<T> NoneStrategy<T> {
    /// The absent-value strategy.
    pub fn new() -> (r: Self) {
        NoneStrategy(PhantomData)
    }
}

impl<T> Clone for NoneStrategy<T> {
    /// Every absent-value strategy is the same value.
    fn clone(&self) -> (r: Self)
        ensures
            r == *self,
    {
        NoneStrategy(PhantomData)
    }
}

impl<T> Copy for NoneStrategy<T> {

}

impl<T> ValueTree for NoneStrategy<T> {
    type Value = Option<T>;

    open spec fn inv(&self) -> bool {
        true
    }

    open spec fn cur(&self) -> Option<T> {
        None
    }

    open spec fn size(&self) -> nat {
        0
    }

    open spec fn saved(&self) -> Option<Option<T>> {
        None
    }

    open spec fn simplified_to(&self, post: Self) -> bool {
        false
    }

    fn current(&self) -> (v: Option<T>) {
        None
    }

    fn simplify(&mut self) -> (changed: bool) {
        false
    }

    fn complicate(&mut self) -> (changed: bool) {
        false
    }
}

impl<T> Strategy for NoneStrategy<T> {
    type Value = Option<T>;

    type Tree = NoneStrategy<T>;

    open spec fn inv(&self) -> bool {
        true
    }

    open spec fn produces(&self, t: NoneStrategy<T>) -> bool {
        true
    }

    open spec fn generated(&self, r0: TestRunner, r1: TestRunner, t: NoneStrategy<T>) -> bool {
        r1 == r0
    }

    fn new_tree(&self, runner: &mut TestRunner) -> (t: NoneStrategy<T>) {
        NoneStrategy(PhantomData)
    }
}

/// The mapping that turns each generated value into a present optional value.
#[derive(Clone, Copy, Debug)]
pub struct WrapSome;

impl<T> MapFn<T> for WrapSome {
    type Output = Option<T>;

    open spec fn spec_apply(&self, i: T) -> Option<T> {
        Some(i)
    }

    fn apply(&self, i: T) -> (o: Option<T>) {
        Some(i)
    }
}

/// Strategy which generates optional values whose present inner values are
/// generated by another strategy: the weighted union of the absent-value leaf
/// (alternative 0, the shrink target) and the delegate mapped through
/// `WrapSome` (alternative 1), so present values shrink to absent.
#[derive(Clone, Debug)]
pub struct OptionStrategy<T: Strategy> {
    /// The union of the absent and present alternatives.
    pub inner: TupleUnion<NoneStrategy<T::Value>, MapStrategy<T, WrapSome>>,
}

/// `ValueTree` type corresponding to `OptionStrategy`.
#[derive(Clone, Debug)]
pub struct OptionValueTree<T: ValueTree> {
    /// The union tree over the absent and present alternatives.
    pub inner: TupleUnionValueTree<NoneStrategy<T::Value>, MapValueTree<T, WrapSome>>,
}

impl<T: Strategy> OptionStrategy<T> {
    /// The relative weight of generating a present value.
    pub open spec fn weight_some(&self) -> u32 {
        self.inner.w1
    }

    /// The relative weight of generating an absent value.
    pub open spec fn weight_none(&self) -> u32 {
        self.inner.w0
    }

    /// The strategy present inner values are generated by.
    pub open spec fn delegate(&self) -> T {
        self.inner.s1.source
    }
}

impl<T: ValueTree> ValueTree for OptionValueTree<T> {
    type Value = Option<T::Value>;

    open spec fn inv(&self) -> bool {
        self.inner.inv()
    }

    open spec fn cur(&self) -> Option<T::Value> {
        self.inner.cur()
    }

    open spec fn size(&self) -> nat {
        self.inner.size()
    }

    open spec fn saved(&self) -> Option<Option<T::Value>> {
        self.inner.saved()
    }

    open spec fn simplified_to(&self, post: Self) -> bool {
        self.inner.simplified_to(post.inner)
    }

    fn current(&self) -> (v: Option<T::Value>) {
        self.inner.current()
    }

    fn simplify(&mut self) -> (changed: bool) {
        self.inner.simplify()
    }

    fn complicate(&mut self) -> (changed: bool) {
        self.inner.complicate()
    }
}

impl<T: Strategy> Strategy for OptionStrategy<T> {
    type Value = Option<T::Value>;

    type Tree = OptionValueTree<T::Tree>;

    open spec fn inv(&self) -> bool {
        self.inner.inv()
    }

    open spec fn produces(&self, t: OptionValueTree<T::Tree>) -> bool {
        self.inner.produces(t.inner)
    }

    open spec fn generated(&self, r0: TestRunner, r1: TestRunner, t: OptionValueTree<T::Tree>) -> bool {
        self.inner.generated(r0, r1, t.inner)
    }

    fn new_tree(&self, runner: &mut TestRunner) -> (t: OptionValueTree<T::Tree>) {
        OptionValueTree { inner: self.inner.new_tree(runner) }
    }
}

/// The weight of the present alternative for a probability given in
/// millionths: the probability scaled to the total weight, clamped so that
/// even at the extremes the rarer alternative keeps a positive weight and
/// stays reachable.
pub open spec fn weight_for_some(millionths: u32) -> u32 {
    if millionths == 0 {
        1u32
    } else if millionths >= PROBABILITY_SCALE {
        (PROBABILITY_SCALE - 1) as u32
    } else {
        millionths
    }
}

/// Return a strategy producing optional values wrapping values from the given
/// delegate strategy.
///
/// Present values shrink to absent.
///
/// Present is chosen with the probability `probability_of_some`; a
/// probability of exactly 0 or 1 is degenerate but still leaves the rarer
/// alternative a minimal weight, so it must not and does not fail.
pub fn weighted<T: Strategy>(probability_of_some: Probability, t: T) -> (r: OptionStrategy<T>)
    requires
        probability_of_some.wf(),
        t.inv(),
    ensures
        r.inv(),
        r.weight_some() == weight_for_some(probability_of_some.millionths()),
        r.weight_none() == PROBABILITY_SCALE - r.weight_some(),
        r.delegate() == t,
{
    let m = probability_of_some.value();
    let w_some: u32 = if m == 0 {
        1
    } else if m >= PROBABILITY_SCALE {
        PROBABILITY_SCALE - 1
    } else {
        m
    };
    let w_none: u32 = PROBABILITY_SCALE - w_some;
    OptionStrategy {
        inner: TupleUnion::new(
            ((w_none, NoneStrategy::new()), (w_some, MapStrategy { source: t, fun: WrapSome })),
        ),
    }
}

/// A fully simplified option tree has nothing simpler left: either the value
/// is absent, or it is present and the delegate's own tree is at its minimum.
/// Together with the strict decrease of `size` on every successful
/// `simplify`, this says the shrink search always terminates there.
pub proof fn lemma_option_shrink_floor<T: ValueTree>(t: OptionValueTree<T>)
    requires
        t.inv(),
        t.size() == 0,
    ensures
        t.cur() is None || (match t.inner.t1 {
            Some(m) => m.source.size() == 0,
            None => false,
        }),
{
}

/// Return a strategy producing optional values wrapping values from the given
/// delegate strategy.
///
/// Present values shrink to absent.
///
/// Present and absent are each chosen with 50% probability.
pub fn of<T: Strategy>(t: T) -> (r: OptionStrategy<T>)
    requires
        t.inv(),
    ensures
        r.inv(),
        r.weight_some() == 500000,
        r.weight_none() == 500000,
        r.delegate() == t,
{
    weighted(Probability::default(), t)
}

} // verus!
