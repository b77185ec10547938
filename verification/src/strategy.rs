//! The generation-and-shrinking protocol: a `Strategy` describes how to
//! generate a value, the `ValueTree` it produces holds one generated value and
//! can step it to simpler or back to more complex versions, and generic
//! combinators (constants, mapping, weighted union) compose strategies.

use vstd::prelude::*;
use crate::test_runner::{rng_step, TestRunner};

verus! {

/// A cursor over one generated value. `current` reads the value under test;
/// `simplify` replaces it with a strictly simpler one when it can, and
/// `complicate` undoes the most recent successful `simplify` step.
///
/// The contracts carry the shrink-search laws: every successful `simplify`
/// strictly decreases `size`, so a run of `simplify` calls always terminates
/// and never makes the value more complex; each successful step satisfies the
/// tree's own step relation `simplified_to`; and after a successful
/// `simplify`, `complicate` succeeds and restores exactly the value `current`
/// returned before that `simplify`. On a tree with no step to undo (`saved`
/// is `None`, as on every freshly generated tree) `complicate` is a no-op
/// returning `false`.
pub trait ValueTree: Sized {
    /// The type of the value under test.
    type Value;

    /// Structural well-formedness, established by generation and preserved by
    /// every step.
    spec fn inv(&self) -> bool;

    /// The value the cursor holds right now.
    spec fn cur(&self) -> Self::Value;

    /// A bound on how many more times this tree can be simplified.
    spec fn size(&self) -> nat;

    /// The value that `complicate` would restore, if there is a step to undo.
    spec fn saved(&self) -> Option<Self::Value>;

    /// The tree's own step relation: what one successful `simplify` may turn
    /// `self` into.
    spec fn simplified_to(&self, post: Self) -> bool;

    /// The value being tested right now; repeatable and side-effect-free.
    fn current(&self) -> (v: Self::Value)
        requires
            self.inv(),
        ensures
            v == self.cur(),
    ;

    /// Attempts to move to a strictly simpler value, returning whether a
    /// change was made. When it returns `false` the tree is at a local
    /// minimum — its `size` has reached zero — and is left exactly as it
    /// was.
    fn simplify(&mut self) -> (changed: bool)
        requires
            old(self).inv(),
        ensures
            final(self).inv(),
            changed ==> final(self).size() < old(self).size(),
            changed ==> final(self).saved() == Some(old(self).cur()),
            changed ==> old(self).simplified_to(*final(self)),
            !changed ==> *final(self) == *old(self),
            !changed ==> final(self).size() == 0,
    ;

    /// Undoes the most recent successful `simplify` step, returning whether a
    /// change was made. Without a step to undo it changes nothing and
    /// returns `false`.
    fn complicate(&mut self) -> (changed: bool)
        requires
            old(self).inv(),
        ensures
            final(self).inv(),
            changed == (old(self).saved() is Some),
            changed ==> Some(final(self).cur()) == old(self).saved(),
            !changed ==> *final(self) == *old(self),
    ;
}

/// A description of how to generate values of one type: its single operation
/// turns a source of randomness into a fresh `ValueTree`. Strategies are
/// immutable descriptors and may be shared freely.
pub trait Strategy: Sized {
    /// The type of value the strategy generates.
    type Value;

    /// The shrink cursor this strategy produces.
    type Tree: ValueTree<Value = Self::Value>;

    /// Well-formedness of the descriptor itself.
    spec fn inv(&self) -> bool;

    /// What is known of every tree this strategy can generate, whatever the
    /// randomness source returned.
    spec fn produces(&self, t: Self::Tree) -> bool;

    /// The strategy's generation relation: how the tree follows from the
    /// runner's state before (`r0`) and after (`r1`) the generation. This is
    /// where a strategy pins which randomness it draws and what the draw
    /// decides.
    spec fn generated(&self, r0: TestRunner, r1: TestRunner, t: Self::Tree) -> bool;

    /// Generates one value, consuming randomness from `runner`, and returns
    /// the cursor positioned on it with no step to undo yet.
    fn new_tree(&self, runner: &mut TestRunner) -> (t: Self::Tree)
        requires
            self.inv(),
        ensures
            t.inv(),
            t.saved() is None,
            self.produces(t),
            self.generated(*old(runner), *final(runner), t),
    ;
}

/// A strategy that always generates exactly the given value and never
/// shrinks; the tree is the strategy itself.
#[derive(Clone, Copy, Debug)]
pub struct Just<V>(pub V);

impl<V: Copy> ValueTree for Just<V> {
    type Value = V;

    open spec fn inv(&self) -> bool {
        true
    }

    open spec fn cur(&self) -> V {
        self.0
    }

    open spec fn size(&self) -> nat {
        0
    }

    open spec fn saved(&self) -> Option<V> {
        None
    }

    open spec fn simplified_to(&self, post: Self) -> bool {
        false
    }

    fn current(&self) -> (v: V) {
        self.0
    }

    fn simplify(&mut self) -> (changed: bool) {
        false
    }

    fn complicate(&mut self) -> (changed: bool) {
        false
    }
}

impl<V: Copy> Strategy for Just<V> {
    type Value = V;

    type Tree = Just<V>;

    open spec fn inv(&self) -> bool {
        true
    }

    open spec fn produces(&self, t: Just<V>) -> bool {
        t.0 == self.0
    }

    open spec fn generated(&self, r0: TestRunner, r1: TestRunner, t: Just<V>) -> bool {
        r1 == r0 && t.0 == self.0
    }

    fn new_tree(&self, runner: &mut TestRunner) -> (t: Just<V>) {
        Just(self.0)
    }
}

/// A static mapping applied to every value a delegate strategy generates; the
/// contract ties the executable result to the map's own specification.
pub trait MapFn<I>: Sized {
    /// The type the mapping produces.
    type Output;

    /// The mathematical function applied.
    spec fn spec_apply(&self, i: I) -> Self::Output;

    /// Applies the mapping.
    fn apply(&self, i: I) -> (o: Self::Output)
        ensures
            o == self.spec_apply(i),
    ;
}

/// A strategy that generates from `source` and maps every generated value
/// through `fun`.
#[derive(Clone, Debug)]
pub struct MapStrategy<S, F> {
    /// The delegate strategy.
    pub source: S,
    /// The mapping applied to each generated value.
    pub fun: F,
}

/// The tree of a `MapStrategy`: the delegate's tree, with every reading of
/// `current` mapped through `fun`. Shrinking is the delegate's own.
#[derive(Clone, Debug)]
pub struct MapValueTree<T, F> {
    /// The delegate's tree.
    pub source: T,
    /// The mapping applied to each value read.
    pub fun: F,
}

impl<T: ValueTree, F: MapFn<T::Value> + Copy> ValueTree for MapValueTree<T, F> {
    type Value = F::Output;

    open spec fn inv(&self) -> bool {
        self.source.inv()
    }

    open spec fn cur(&self) -> F::Output {
        self.fun.spec_apply(self.source.cur())
    }

    open spec fn size(&self) -> nat {
        self.source.size()
    }

    open spec fn saved(&self) -> Option<F::Output> {
        match self.source.saved() {
            Some(v) => Some(self.fun.spec_apply(v)),
            None => None,
        }
    }

    open spec fn simplified_to(&self, post: Self) -> bool {
        self.source.simplified_to(post.source) && post.fun == self.fun
    }

    fn current(&self) -> (v: F::Output) {
        self.fun.apply(self.source.current())
    }

    fn simplify(&mut self) -> (changed: bool) {
        self.source.simplify()
    }

    fn complicate(&mut self) -> (changed: bool) {
        self.source.complicate()
    }
}

impl<S: Strategy, F: MapFn<S::Value> + Copy> Strategy for MapStrategy<S, F> {
    type Value = F::Output;

    type Tree = MapValueTree<S::Tree, F>;

    open spec fn inv(&self) -> bool {
        self.source.inv()
    }

    open spec fn produces(&self, t: MapValueTree<S::Tree, F>) -> bool {
        self.source.produces(t.source) && t.fun == self.fun
    }

    open spec fn generated(&self, r0: TestRunner, r1: TestRunner, t: MapValueTree<S::Tree, F>) -> bool {
        self.source.generated(r0, r1, t.source) && t.fun == self.fun
    }

    fn new_tree(&self, runner: &mut TestRunner) -> (t: MapValueTree<S::Tree, F>) {
        MapValueTree { source: self.source.new_tree(runner), fun: self.fun }
    }
}

/// A weighted union of two strategies generating the same value type: one
/// random draw picks alternative 0 or 1 with probability proportional to its
/// weight, and generation then delegates to the picked alternative.
///
/// Shrinking prefers earlier alternatives: a tree currently on alternative 1
/// first switches to alternative 0 as a whole, and only shrinks within an
/// alternative once `complicate` has pinned the search there.
#[derive(Clone, Debug)]
pub struct TupleUnion<A, B> {
    /// Relative weight of alternative 0.
    pub w0: u32,
    /// Alternative 0, the shrink target.
    pub s0: A,
    /// Relative weight of alternative 1.
    pub w1: u32,
    /// Alternative 1.
    pub s1: B,
}

impl<A: Strategy, B: Strategy<Value = A::Value>> TupleUnion<A, B> {
    /// Builds the union from `(weight, strategy)` pairs, in alternative
    /// order. Both weights must be positive so that each alternative stays
    /// reachable, and their sum must fit the draw's modulus.
    pub fn new(arg: ((u32, A), (u32, B))) -> (r: Self)
        requires
            0 < arg.0.0,
            0 < arg.1.0,
            arg.0.0 + arg.1.0 <= u32::MAX,
            arg.0.1.inv(),
            arg.1.1.inv(),
        ensures
            r.w0 == arg.0.0,
            r.s0 == arg.0.1,
            r.w1 == arg.1.0,
            r.s1 == arg.1.1,
            r.inv(),
    {
        let ((w0, s0), (w1, s1)) = arg;
        TupleUnion { w0, s0, w1, s1 }
    }

    /// Whether the draw made from runner state `r0` falls to alternative 1.
    pub open spec fn picks_second(&self, r0: TestRunner) -> bool {
        rng_step(r0.state()).3 as int % (self.w0 + self.w1) >= self.w0 as int
    }
}

/// The tree of a `TupleUnion`: the tree of alternative 0 (always generated,
/// as the shrink target), the tree of alternative 1 when that one was picked,
/// and the cursor state of the cross-alternative shrink search.
#[derive(Clone, Debug)]
pub struct TupleUnionValueTree<TA, TB> {
    /// Alternative 0's tree.
    pub t0: TA,
    /// Alternative 1's tree, present exactly when generation picked it.
    pub t1: Option<TB>,
    /// The alternative whose value `current` reads; 0 or 1.
    pub pick: usize,
    /// The lowest alternative the shrink search may still switch to.
    pub min_pick: usize,
    /// The alternative to return to if the last cross-alternative switch is
    /// undone.
    pub prev_pick: Option<usize>,
}

impl<TA: ValueTree, TB: ValueTree<Value = TA::Value>> ValueTree for TupleUnionValueTree<TA, TB> {
    type Value = TA::Value;

    open spec fn inv(&self) -> bool {
        &&& self.pick <= 1
        &&& self.min_pick <= self.pick
        &&& self.t0.inv()
        &&& match self.t1 {
            Some(t1) => t1.inv(),
            None => self.pick == 0,
        }
        &&& match self.prev_pick {
            Some(p) => p == 1 && self.pick == 0 && self.min_pick == 0 && self.t1 is Some,
            None => true,
        }
    }

    open spec fn cur(&self) -> TA::Value {
        if self.pick == 0 {
            self.t0.cur()
        } else {
            match self.t1 {
                Some(t1) => t1.cur(),
                None => self.t0.cur(),
            }
        }
    }

    open spec fn size(&self) -> nat {
        let s1: nat = match self.t1 {
            Some(t1) => t1.size(),
            None => 0,
        };
        if self.pick > self.min_pick {
            1 + self.t0.size() + s1
        } else if self.pick == 0 {
            self.t0.size()
        } else {
            s1
        }
    }

    open spec fn saved(&self) -> Option<TA::Value> {
        match self.prev_pick {
            Some(_) => match self.t1 {
                Some(t1) => Some(t1.cur()),
                None => None,
            },
            None => if self.pick == 0 {
                self.t0.saved()
            } else {
                match self.t1 {
                    Some(t1) => t1.saved(),
                    None => None,
                }
            },
        }
    }

    /// A tree standing on a later alternative than the pinned minimum takes
    /// the cross-alternative switch as its one possible step, before any
    /// shrinking inside an alternative; only a tree already at the minimum
    /// shrinks the picked alternative's own tree.
    open spec fn simplified_to(&self, post: Self) -> bool {
        if self.pick > self.min_pick {
            &&& post.pick == self.min_pick
            &&& post.min_pick == self.min_pick
            &&& post.prev_pick == Some(self.pick)
            &&& post.t0 == self.t0
            &&& post.t1 == self.t1
        } else if self.pick == 0 {
            &&& post.pick == self.pick
            &&& post.min_pick == self.min_pick
            &&& post.prev_pick is None
            &&& self.t0.simplified_to(post.t0)
            &&& post.t1 == self.t1
        } else {
            &&& post.pick == self.pick
            &&& post.min_pick == self.min_pick
            &&& post.prev_pick is None
            &&& post.t0 == self.t0
            &&& match (self.t1, post.t1) {
                (Some(pre1), Some(post1)) => pre1.simplified_to(post1),
                _ => false,
            }
        }
    }

    fn current(&self) -> (v: TA::Value) {
        match &self.t1 {
            Some(t1) if self.pick == 1 => t1.current(),
            _ => self.t0.current(),
        }
    }

    fn simplify(&mut self) -> (changed: bool) {
        if self.pick > self.min_pick {
            // Priority cross-alternative move: switch to the earlier
            // alternative's representation, remembering where we came from.
            self.prev_pick = Some(self.pick);
            self.pick = self.min_pick;
            true
        } else if self.pick == 0 {
            let changed = self.t0.simplify();
            if changed {
                self.prev_pick = None;
            }
            changed
        } else {
            match &mut self.t1 {
                Some(t1) => {
                    let changed = t1.simplify();
                    if changed {
                        self.prev_pick = None;
                    }
                    changed
                },
                None => false,
            }
        }
    }

    fn complicate(&mut self) -> (changed: bool) {
        match self.prev_pick {
            Some(p) => {
                // Undo the cross-alternative switch, and pin the search to
                // the restored alternative so it is not re-tried.
                self.pick = p;
                self.min_pick = p;
                self.prev_pick = None;
                true
            },
            None => {
                if self.pick == 0 {
                    self.t0.complicate()
                } else {
                    match &mut self.t1 {
                        Some(t1) => t1.complicate(),
                        None => false,
                    }
                }
            },
        }
    }
}

impl<A: Strategy, B: Strategy<Value = A::Value>> Strategy for TupleUnion<A, B> {
    type Value = A::Value;

    type Tree = TupleUnionValueTree<A::Tree, B::Tree>;

    open spec fn inv(&self) -> bool {
        &&& 0 < self.w0
        &&& 0 < self.w1
        &&& self.w0 + self.w1 <= u32::MAX
        &&& self.s0.inv()
        &&& self.s1.inv()
    }

    open spec fn produces(&self, t: TupleUnionValueTree<A::Tree, B::Tree>) -> bool {
        &&& t.min_pick == 0
        &&& t.prev_pick is None
        &&& self.s0.produces(t.t0)
        &&& match t.t1 {
            Some(t1) => self.s1.produces(t1),
            None => t.pick == 0,
        }
    }

    /// One weighted draw decides the alternative: the tree stands on
    /// alternative 1, with its tree generated, exactly when the draw made
    /// from `r0` falls there; alternative 0's tree is generated either way,
    /// and the runner advances through the draw and the delegates' own
    /// generation.
    open spec fn generated(
        &self,
        r0: TestRunner,
        r1: TestRunner,
        t: TupleUnionValueTree<A::Tree, B::Tree>,
    ) -> bool {
        &&& (t.pick == 1) == self.picks_second(r0)
        &&& (t.t1 is Some) == self.picks_second(r0)
        &&& exists|rd: TestRunner, rm: TestRunner|
            #![trigger self.s0.generated(rd, rm, t.t0)]
            {
                &&& rd.state() == rng_step(r0.state())
                &&& self.s0.generated(rd, rm, t.t0)
                &&& match t.t1 {
                    Some(t1) => self.s1.generated(rm, r1, t1),
                    None => r1 == rm,
                }
            }
    }

    fn new_tree(&self, runner: &mut TestRunner) -> (t: TupleUnionValueTree<A::Tree, B::Tree>) {
        let second = runner.pick_weighted(self.w0, self.w1);
        let ghost r_draw = *runner;
        let t0 = self.s0.new_tree(runner);
        let ghost r_mid = *runner;
        let t1 = if second {
            Some(self.s1.new_tree(runner))
        } else {
            None
        };
        let pick: usize = if second {
            1
        } else {
            0
        };
        let t = TupleUnionValueTree { t0, t1, pick, min_pick: 0, prev_pick: None };
        proof {
            assert(self.s0.generated(r_draw, r_mid, t.t0));
        }
        t
    }
}

} // verus!
