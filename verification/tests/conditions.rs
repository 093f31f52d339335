use dialogue_graph::condition::{And, Condition, Function, Not, Or, True};
use std::cell::Cell;

/// A condition that is false, built from the combinators alone.
fn never() -> Not<True> {
    Not::new(True::new())
}

#[test]
fn true_evaluates_to_true() {
    assert_eq!(True::new().evaluate(), true);
}

#[test]
fn not_true_evaluates_to_false() {
    assert_eq!(Not::new(True::new()).evaluate(), false);
}

#[test]
fn and_of_true_and_not_true_evaluates_to_false() {
    assert_eq!(And::new(True::new(), Not::new(True::new())).evaluate(), false);
}

#[test]
fn or_of_true_and_not_true_evaluates_to_true() {
    assert_eq!(Or::new(True::new(), Not::new(True::new())).evaluate(), true);
}

#[test]
fn and_follows_its_truth_table() {
    assert_eq!(And::new(True::new(), True::new()).evaluate(), true);
    assert_eq!(And::new(True::new(), never()).evaluate(), false);
    assert_eq!(And::new(never(), True::new()).evaluate(), false);
    assert_eq!(And::new(never(), never()).evaluate(), false);
}

#[test]
fn or_follows_its_truth_table() {
    assert_eq!(Or::new(True::new(), True::new()).evaluate(), true);
    assert_eq!(Or::new(True::new(), never()).evaluate(), true);
    assert_eq!(Or::new(never(), True::new()).evaluate(), true);
    assert_eq!(Or::new(never(), never()).evaluate(), false);
}

#[test]
fn double_negation_gives_the_operand_back() {
    assert_eq!(Not::new(Not::new(True::new())).evaluate(), True::new().evaluate());
    assert_eq!(Not::new(Not::new(never())).evaluate(), never().evaluate());
}

#[test]
fn de_morgan_for_and() {
    assert_eq!(
        Not::new(And::new(True::new(), True::new())).evaluate(),
        Or::new(Not::new(True::new()), Not::new(True::new())).evaluate()
    );
    assert_eq!(
        Not::new(And::new(True::new(), never())).evaluate(),
        Or::new(Not::new(True::new()), Not::new(never())).evaluate()
    );
    assert_eq!(
        Not::new(And::new(never(), True::new())).evaluate(),
        Or::new(Not::new(never()), Not::new(True::new())).evaluate()
    );
    assert_eq!(
        Not::new(And::new(never(), never())).evaluate(),
        Or::new(Not::new(never()), Not::new(never())).evaluate()
    );
}

#[test]
fn de_morgan_for_or() {
    assert_eq!(
        Not::new(Or::new(True::new(), True::new())).evaluate(),
        And::new(Not::new(True::new()), Not::new(True::new())).evaluate()
    );
    assert_eq!(
        Not::new(Or::new(True::new(), never())).evaluate(),
        And::new(Not::new(True::new()), Not::new(never())).evaluate()
    );
    assert_eq!(
        Not::new(Or::new(never(), True::new())).evaluate(),
        And::new(Not::new(never()), Not::new(True::new())).evaluate()
    );
    assert_eq!(
        Not::new(Or::new(never(), never())).evaluate(),
        And::new(Not::new(never()), Not::new(never())).evaluate()
    );
}

#[test]
fn combinators_nest_conditions_of_different_kinds() {
    let positive = Function::new(1, |x: &i32| *x > 0);
    let nested = And::new(Or::new(never(), True::new()), positive);
    assert_eq!(nested.evaluate(), true);
}

#[test]
fn function_hands_its_data_to_the_closure() {
    let function = Function::new(1, |x: &i32| *x > 0);
    assert!(function.evaluate());
    let function = Function::new(-1, |x: &i32| *x > 0);
    assert!(!function.evaluate());
}

#[test]
fn function_keeps_data_and_closure() {
    let function = Function::new(7u8, |x: &u8| *x == 7);
    assert_eq!(function.data, 7);
    assert!((function.condition)(&7));
    assert!(!(function.condition)(&8));
}

#[test]
fn function_is_evaluated_anew_at_every_call() {
    let gate = Cell::new(false);
    let function = Function::new(&gate, |gate: &&Cell<bool>| gate.get());
    assert_eq!(function.evaluate(), false);
    gate.set(true);
    assert_eq!(function.evaluate(), true);
    gate.set(false);
    assert_eq!(function.evaluate(), false);
}

#[test]
fn and_does_not_evaluate_right_when_left_is_false() {
    let calls = Cell::new(0u32);
    let right = Function::new(&calls, |calls: &&Cell<u32>| {
        calls.set(calls.get() + 1);
        true
    });
    let and = And::new(never(), right);
    assert_eq!(and.evaluate(), false);
    assert_eq!(calls.get(), 0);
}

#[test]
fn and_evaluates_right_when_left_is_true() {
    let calls = Cell::new(0u32);
    let right = Function::new(&calls, |calls: &&Cell<u32>| {
        calls.set(calls.get() + 1);
        false
    });
    let and = And::new(True::new(), right);
    assert_eq!(and.evaluate(), false);
    assert_eq!(calls.get(), 1);
}

#[test]
fn or_does_not_evaluate_right_when_left_is_true() {
    let calls = Cell::new(0u32);
    let right = Function::new(&calls, |calls: &&Cell<u32>| {
        calls.set(calls.get() + 1);
        false
    });
    let or = Or::new(True::new(), right);
    assert_eq!(or.evaluate(), true);
    assert_eq!(calls.get(), 0);
}

#[test]
fn or_evaluates_right_when_left_is_false() {
    let calls = Cell::new(0u32);
    let right = Function::new(&calls, |calls: &&Cell<u32>| {
        calls.set(calls.get() + 1);
        true
    });
    let or = Or::new(never(), right);
    assert_eq!(or.evaluate(), true);
    assert_eq!(calls.get(), 1);
}

#[test]
fn conditions_are_equal_when_their_trees_are() {
    assert_eq!(True::new(), True::new());
    assert_eq!(Not::new(True::new()), Not::new(True::new()));
    assert_eq!(
        And::new(True::new(), Not::new(True::new())),
        And::new(True::new(), Not::new(True::new()))
    );
    assert_eq!(
        Or::new(Not::new(True::new()), True::new()),
        Or::new(Not::new(True::new()), True::new())
    );
}

/// A condition of the caller's own, with a payload that sets values apart.
#[derive(Debug, PartialEq)]
struct AtLeast {
    level: u32,
    needed: u32,
}

impl Condition for AtLeast {
    fn evaluate(&self) -> bool {
        self.level >= self.needed
    }
}

#[test]
fn combinators_take_conditions_of_the_caller() {
    let low = AtLeast { level: 1, needed: 5 };
    let high = AtLeast { level: 9, needed: 5 };
    assert_eq!(Not::new(low).evaluate(), true);
    assert_eq!(And::new(True::new(), high).evaluate(), true);
}

#[test]
fn equality_goes_by_the_tree_and_not_by_the_answer() {
    let one = Not::new(AtLeast { level: 1, needed: 5 });
    let other = Not::new(AtLeast { level: 2, needed: 5 });
    assert_eq!(one.evaluate(), other.evaluate());
    assert_ne!(one, other);
    let left = And::new(AtLeast { level: 7, needed: 5 }, True::new());
    let right = And::new(AtLeast { level: 8, needed: 5 }, True::new());
    assert_eq!(left.evaluate(), right.evaluate());
    assert_ne!(left, right);
    let left = Or::new(True::new(), AtLeast { level: 7, needed: 5 });
    let right = Or::new(True::new(), AtLeast { level: 7, needed: 6 });
    assert_eq!(left.evaluate(), right.evaluate());
    assert_ne!(left, right);
}

fn positive(x: &i32) -> bool {
    *x > 0
}

fn non_zero(x: &i32) -> bool {
    *x != 0
}

#[test]
fn functions_are_equal_when_data_and_closure_are() {
    let check: fn(&i32) -> bool = positive;
    let other: fn(&i32) -> bool = non_zero;
    assert_eq!(Function::new(1, check), Function::new(1, check));
    assert_ne!(Function::new(1, check), Function::new(2, check));
    assert_eq!(Function::new(2, check).evaluate(), Function::new(2, other).evaluate());
    assert_ne!(Function::new(1, check).data, Function::new(2, check).data);
}
