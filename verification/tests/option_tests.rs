use proptest::option::{of, prob, weighted, OptionStrategy, Probability};
use proptest::strategy::{Just, Strategy, ValueTree};
use proptest::test_runner::TestRunner;

fn count_some_of_1000(s: OptionStrategy<Just<i32>>) -> u32 {
    let mut runner = TestRunner::default();
    let mut count = 0;
    for _ in 0..1000 {
        count += s.new_tree(&mut runner).current().is_some() as u32;
    }

    count
}

#[test]
fn probability_defaults_to_0p5() {
    let count = count_some_of_1000(of(Just(42i32)));
    assert!(count > 450 && count < 550);
}

#[test]
fn probability_handled_correctly() {
    let count = count_some_of_1000(weighted(prob(900000), Just(42i32)));
    assert!(count > 800 && count < 950);

    let count = count_some_of_1000(weighted(prob(100000), Just(42i32)));
    assert!(count > 50 && count < 150);
}

#[test]
fn probability_bounds_checked() {
    assert!(Probability::try_new(0).is_some());
    assert!(Probability::try_new(1000000).is_some());
    assert!(Probability::try_new(1000001).is_none());
    assert!(Probability::try_new(u32::MAX).is_none());
    assert_eq!(Probability::try_new(250000).unwrap().value(), 250000);
}

#[test]
fn probability_default_is_half() {
    let p = Probability::default();
    assert_eq!(p.value(), 500000);
}

#[test]
fn probability_with_and_lift_pair_configuration() {
    let p = prob(250000);
    let (q, extra) = p.with(7u8);
    assert_eq!(q.value(), 250000);
    assert_eq!(extra, 7u8);
    let (q, extra): (Probability, u8) = p.lift();
    assert_eq!(q.value(), 250000);
    assert_eq!(extra, 0u8);
}

#[test]
fn degenerate_probabilities_do_not_crash() {
    let all_absent = count_some_of_1000(weighted(prob(0), Just(42i32)));
    assert!(all_absent < 50);
    let all_present = count_some_of_1000(weighted(prob(1000000), Just(42i32)));
    assert!(all_present > 950);
}

fn present_tree(
    s: &OptionStrategy<Just<i32>>,
    runner: &mut TestRunner,
) -> <OptionStrategy<Just<i32>> as Strategy>::Tree {
    let mut tree = s.new_tree(runner);
    while tree.current().is_none() {
        tree = s.new_tree(runner);
    }
    tree
}

#[test]
fn present_shrinks_to_absent_and_complicate_restores() {
    let s = of(Just(7i32));
    let mut runner = TestRunner::new([1, 2, 3, 4]);
    let mut tree = present_tree(&s, &mut runner);
    assert_eq!(tree.current(), Some(7));

    // The cross-alternative move: present shrinks to absent first.
    assert!(tree.simplify());
    assert_eq!(tree.current(), None);

    // Complicate inverts the simplify step exactly.
    assert!(tree.complicate());
    assert_eq!(tree.current(), Some(7));

    // The search is now pinned to the present alternative; the constant
    // delegate cannot shrink, so the tree is at a local minimum.
    assert!(!tree.simplify());
    assert_eq!(tree.current(), Some(7));
}

#[test]
fn absent_tree_never_shrinks() {
    let s = of(Just(1i32));
    let mut runner = TestRunner::new([9, 9, 9, 9]);
    let mut tree = s.new_tree(&mut runner);
    while tree.current().is_some() {
        tree = s.new_tree(&mut runner);
    }
    assert!(!tree.simplify());
    assert!(!tree.complicate());
    assert_eq!(tree.current(), None);
}

#[test]
fn complicate_without_simplify_is_noop() {
    let s = of(Just(3i32));
    let mut runner = TestRunner::default();
    for _ in 0..10 {
        let mut tree = s.new_tree(&mut runner);
        let before = tree.current();
        assert!(!tree.complicate());
        assert_eq!(tree.current(), before);
    }
}

#[test]
fn repeated_simplify_terminates_monotonically() {
    let s = of(Just(5i32));
    let mut runner = TestRunner::new([11, 22, 33, 44]);
    let mut tree = present_tree(&s, &mut runner);
    // Present counts as more complex than absent; simplification may only
    // move toward absent and must stop in finitely many steps.
    let mut steps = 0;
    while tree.simplify() {
        steps += 1;
        assert!(steps <= 2, "more simplify steps than the tree can hold");
    }
    assert_eq!(tree.current(), None);
}
