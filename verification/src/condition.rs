//! Conditions: boolean expressions that gate the edges of a dialogue graph.
//!
//! A condition is evaluated from scratch each time it is asked; nothing is
//! cached. The combinators are deterministic, but a [`Function`] runs a
//! predicate supplied by the caller, which may answer differently from one
//! call to the next. The specification therefore describes evaluation as a
//! relation: `c.evaluates_to(b)` says that `b` is an answer that evaluating
//! `c` may give. A condition with exactly one possible answer is
//! [`decided`]; every tree of [`True`], [`Not`], [`And`] and [`Or`] is.
//!
//! A predicate may ask something of its data. `c.evaluable()` says that
//! evaluating `c` calls no predicate on data that it does not accept. [`And`]
//! and [`Or`] evaluate their right operand only when the left one leaves the
//! answer open, so they ask nothing of a right operand that is never reached.

use vstd::prelude::*;
use vstd::std_specs::cmp::PartialEqSpec;

verus! {

/// A conditional weight that must evaluate as true in order to be available to
/// make an edge clear to traverse.
pub trait Condition {
    /// Whether [`evaluate`](Condition::evaluate) may be called: every
    /// predicate that the evaluation can reach accepts its data.
    ///
    /// A condition that does not say otherwise may always be evaluated.
    open spec fn evaluable(&self) -> bool {
        true
    }

    /// Whether `outcome` is an answer that evaluating this condition may
    /// give.
    ///
    /// A condition that does not say otherwise may give either answer.
    open spec fn evaluates_to(&self, outcome: bool) -> bool {
        true
    }

    /// Returns whether the node can be traversed based on its criteria.
    fn evaluate(&self) -> (outcome: bool)
        requires
            self.evaluable(),
        ensures
            self.evaluates_to(outcome),
    ;
}

/// A condition is decided when evaluation has exactly one possible answer.
pub open spec fn decided<C: Condition>(condition: C) -> bool {
    condition.evaluates_to(true) != condition.evaluates_to(false)
}

/// Two conditions are equivalent when they may be evaluated in the same
/// circumstances and may give the same answers.
pub open spec fn equivalent<A: Condition, B: Condition>(a: A, b: B) -> bool {
    &&& a.evaluable() == b.evaluable()
    &&& a.evaluates_to(true) == b.evaluates_to(true)
    &&& a.evaluates_to(false) == b.evaluates_to(false)
}

/// A condition that always evaluates to true.
#[derive(Copy, Clone, Debug, Eq)]
pub struct True {}

impl True {
    /// Create a new `True` condition.
    pub fn new() -> (condition: Self)
        ensures
            condition == (True {}),
    {
        Self {  }
    }
}

impl Condition for True {
    open spec fn evaluable(&self) -> bool {
        true
    }

    open spec fn evaluates_to(&self, outcome: bool) -> bool {
        outcome
    }

    fn evaluate(&self) -> (outcome: bool) {
        true
    }
}

impl PartialEq for True {
    fn eq(&self, other: &Self) -> (equal: bool) {
        true
    }
}

impl vstd::std_specs::cmp::PartialEqSpecImpl for True {
    open spec fn obeys_eq_spec() -> bool {
        true
    }

    open spec fn eq_spec(&self, other: &Self) -> bool {
        true
    }
}

/// A condition that evaluates as true if its inner condition evaluates as
/// false.
#[derive(Copy, Clone, Debug, Eq)]
pub struct Not<T> where T: Condition {
    /// The condition to evaluate on.
    pub condition: T,
}

impl<T> Not<T> where T: Condition {
    /// Create a new `Not` condition.
    pub fn new(condition: T) -> (not: Self)
        ensures
            not == (Not { condition }),
    {
        Self { condition }
    }
}

impl<T> Condition for Not<T> where T: Condition {
    open spec fn evaluable(&self) -> bool {
        self.condition.evaluable()
    }

    open spec fn evaluates_to(&self, outcome: bool) -> bool {
        self.condition.evaluates_to(!outcome)
    }

    fn evaluate(&self) -> (outcome: bool) {
        !self.condition.evaluate()
    }
}

impl<T> PartialEq for Not<T> where T: Condition + PartialEq {
    fn eq(&self, other: &Self) -> (equal: bool) {
        self.condition == other.condition
    }
}

impl<T> vstd::std_specs::cmp::PartialEqSpecImpl for Not<T> where T: Condition + PartialEq {
    open spec fn obeys_eq_spec() -> bool {
        T::obeys_eq_spec()
    }

    open spec fn eq_spec(&self, other: &Self) -> bool {
        self.condition.eq_spec(&other.condition)
    }
}

/// A condition that evaluates as true if both inner conditions evaluate as
/// true.
///
/// The right condition is evaluated only if the left one evaluated as true.
#[derive(Copy, Clone, Debug, Eq)]
pub struct And<T, U> where T: Condition, U: Condition {
    /// The first condition to evaluate on.
    pub left: T,
    /// The second condition to evaluate on.
    pub right: U,
}

impl<T, U> And<T, U> where T: Condition, U: Condition {
    /// Create a new `And` condition.
    pub fn new(left: T, right: U) -> (and: Self)
        ensures
            and == (And { left, right }),
    {
        Self { left, right }
    }
}

impl<T, U> Condition for And<T, U> where T: Condition, U: Condition {
    open spec fn evaluable(&self) -> bool {
        &&& self.left.evaluable()
        &&& self.left.evaluates_to(true) ==> self.right.evaluable()
    }

    open spec fn evaluates_to(&self, outcome: bool) -> bool {
        if outcome {
            self.left.evaluates_to(true) && self.right.evaluates_to(true)
        } else {
            self.left.evaluates_to(false) || (self.left.evaluates_to(true)
                && self.right.evaluates_to(false))
        }
    }

    fn evaluate(&self) -> (outcome: bool) {
        self.left.evaluate() && self.right.evaluate()
    }
}

impl<T, U> PartialEq for And<T, U> where T: Condition + PartialEq, U: Condition + PartialEq {
    fn eq(&self, other: &Self) -> (equal: bool) {
        self.left == other.left && self.right == other.right
    }
}

impl<T, U> vstd::std_specs::cmp::PartialEqSpecImpl for And<T, U> where T: Condition + PartialEq, U: Condition + PartialEq {
    open spec fn obeys_eq_spec() -> bool {
        T::obeys_eq_spec() && U::obeys_eq_spec()
    }

    open spec fn eq_spec(&self, other: &Self) -> bool {
        self.left.eq_spec(&other.left) && self.right.eq_spec(&other.right)
    }
}

/// A condition that evaluates as true if either inner condition evaluates as
/// true.
///
/// The right condition is evaluated only if the left one evaluated as false.
#[derive(Copy, Clone, Debug, Eq)]
pub struct Or<T, U> where T: Condition, U: Condition {
    /// The first condition to evaluate on.
    pub left: T,
    /// The second condition to evaluate on.
    pub right: U,
}

impl<T, U> Or<T, U> where T: Condition, U: Condition {
    /// Create a new `Or` condition.
    pub fn new(left: T, right: U) -> (or: Self)
        ensures
            or == (Or { left, right }),
    {
        Self { left, right }
    }
}

impl<T, U> Condition for Or<T, U> where T: Condition, U: Condition {
    open spec fn evaluable(&self) -> bool {
        &&& self.left.evaluable()
        &&& self.left.evaluates_to(false) ==> self.right.evaluable()
    }

    open spec fn evaluates_to(&self, outcome: bool) -> bool {
        if outcome {
            self.left.evaluates_to(true) || (self.left.evaluates_to(false)
                && self.right.evaluates_to(true))
        } else {
            self.left.evaluates_to(false) && self.right.evaluates_to(false)
        }
    }

    fn evaluate(&self) -> (outcome: bool) {
        self.left.evaluate() || self.right.evaluate()
    }
}

impl<T, U> PartialEq for Or<T, U> where T: Condition + PartialEq, U: Condition + PartialEq {
    fn eq(&self, other: &Self) -> (equal: bool) {
        self.left == other.left && self.right == other.right
    }
}

impl<T, U> vstd::std_specs::cmp::PartialEqSpecImpl for Or<T, U> where T: Condition + PartialEq, U: Condition + PartialEq {
    open spec fn obeys_eq_spec() -> bool {
        T::obeys_eq_spec() && U::obeys_eq_spec()
    }

    open spec fn eq_spec(&self, other: &Self) -> bool {
        self.left.eq_spec(&other.left) && self.right.eq_spec(&other.right)
    }
}

/// A condition that evaluates an inner function with data.
///
/// The data is fixed when the condition is built and handed to the function
/// by reference at every evaluation.
#[derive(Copy, Clone, Debug, Eq)]
pub struct Function<T, U> where U: Fn(&T) -> bool {
    /// The data to pass to the closure.
    pub data: T,
    /// The closure with which to evaluate the data.
    pub condition: U,
}

impl<T, U> Function<T, U> where U: Fn(&T) -> bool {
    /// Create a new `Function` condition.
    pub fn new(data: T, condition: U) -> (function: Self)
        ensures
            function == (Function { data, condition }),
    {
        Self { data, condition }
    }
}

impl<T, U> Condition for Function<T, U> where U: Fn(&T) -> bool {
    open spec fn evaluable(&self) -> bool {
        call_requires(self.condition, (&self.data,))
    }

    open spec fn evaluates_to(&self, outcome: bool) -> bool {
        call_ensures(self.condition, (&self.data,), outcome)
    }

    fn evaluate(&self) -> (outcome: bool) {
        (self.condition)(&self.data)
    }
}

impl<T, U> PartialEq for Function<T, U> where T: PartialEq, U: Fn(&T) -> bool + PartialEq {
    fn eq(&self, other: &Self) -> (equal: bool) {
        self.data == other.data && self.condition == other.condition
    }
}

impl<T, U> vstd::std_specs::cmp::PartialEqSpecImpl for Function<T, U> where T: PartialEq, U: Fn(&T) -> bool + PartialEq {
    open spec fn obeys_eq_spec() -> bool {
        T::obeys_eq_spec() && U::obeys_eq_spec()
    }

    open spec fn eq_spec(&self, other: &Self) -> bool {
        self.data.eq_spec(&other.data) && self.condition.eq_spec(&other.condition)
    }
}

/// What a [`Function`] condition asks and promises is what its closure asks
/// and promises of the stored data.
pub proof fn lemma_function<T, U: Fn(&T) -> bool>(function: Function<T, U>)
    ensures
        function.evaluable() == call_requires(function.condition, (&function.data,)),
        forall|outcome: bool|
            function.evaluates_to(outcome) == call_ensures(
                function.condition,
                (&function.data,),
                outcome,
            ),
{
}

/// The answer of a decided condition.
pub open spec fn value<C: Condition>(condition: C) -> bool
    recommends
        decided(condition),
{
    condition.evaluates_to(true)
}

/// `True` may always be evaluated, and its answer is true.
pub proof fn lemma_true()
    ensures
        (True {  }).evaluable(),
        decided(True {  }),
        value(True {  }),
{
}

/// Negation: `Not` may be evaluated whenever its operand may, and gives the
/// opposite of each answer the operand may give.
pub proof fn lemma_not<C: Condition>(condition: C)
    ensures
        (Not { condition }).evaluable() == condition.evaluable(),
        forall|outcome: bool|
            (Not { condition }).evaluates_to(outcome) == condition.evaluates_to(!outcome),
        decided(condition) ==> decided(Not { condition }) && value(Not { condition }) == !value(
            condition,
        ),
{
}

/// Conjunction: where the operands are decided so is `And`, and its answer is
/// the conjunction of theirs. The right operand need not be decided where the
/// left one is false.
pub proof fn lemma_and<A: Condition, B: Condition>(left: A, right: B)
    requires
        decided(left),
        value(left) ==> decided(right),
    ensures
        decided(And { left, right }),
        value(And { left, right }) == (value(left) && value(right)),
{
}

/// Disjunction: where the operands are decided so is `Or`, and its answer is
/// the disjunction of theirs. The right operand need not be decided where the
/// left one is true.
pub proof fn lemma_or<A: Condition, B: Condition>(left: A, right: B)
    requires
        decided(left),
        !value(left) ==> decided(right),
    ensures
        decided(Or { left, right }),
        value(Or { left, right }) == (value(left) || value(right)),
{
}

/// Double negation: `Not(Not(c))` is equivalent to `c`.
pub proof fn lemma_double_negation<C: Condition>(condition: C)
    ensures
        equivalent(Not { condition: Not { condition } }, condition),
{
}

/// De Morgan: `Not(And(a, b))` is equivalent to `Or(Not(a), Not(b))`. Both
/// evaluate `b` in the same cases, namely when `a` evaluated as true.
pub proof fn lemma_de_morgan_and<A: Condition, B: Condition>(a: A, b: B)
    ensures
        equivalent(
            Not { condition: And { left: a, right: b } },
            Or { left: Not { condition: a }, right: Not { condition: b } },
        ),
{
}

/// De Morgan: `Not(Or(a, b))` is equivalent to `And(Not(a), Not(b))`. Both
/// evaluate `b` in the same cases, namely when `a` evaluated as false.
pub proof fn lemma_de_morgan_or<A: Condition, B: Condition>(a: A, b: B)
    ensures
        equivalent(
            Not { condition: Or { left: a, right: b } },
            And { left: Not { condition: a }, right: Not { condition: b } },
        ),
{
}

/// Short circuit of `And`: where the left operand cannot evaluate as true,
/// the conjunction may be evaluated whatever the right operand asks, and its
/// answers are those of the left operand alone. The right operand is not
/// evaluated.
pub proof fn lemma_and_short_circuit<A: Condition, B: Condition>(left: A, right: B)
    requires
        left.evaluable(),
        !left.evaluates_to(true),
    ensures
        (And { left, right }).evaluable(),
        !(And { left, right }).evaluates_to(true),
        (And { left, right }).evaluates_to(false) == left.evaluates_to(false),
{
}

/// Short circuit of `Or`: where the left operand cannot evaluate as false,
/// the disjunction may be evaluated whatever the right operand asks, and its
/// answers are those of the left operand alone. The right operand is not
/// evaluated.
pub proof fn lemma_or_short_circuit<A: Condition, B: Condition>(left: A, right: B)
    requires
        left.evaluable(),
        !left.evaluates_to(false),
    ensures
        (Or { left, right }).evaluable(),
        !(Or { left, right }).evaluates_to(false),
        (Or { left, right }).evaluates_to(true) == left.evaluates_to(true),
{
}

/// Whether `==` on `T` goes by the value alone: it is as its specification
/// says, and holds of two values exactly when they are the same value.
pub open spec fn exact_eq<T: PartialEq>() -> bool {
    &&& T::obeys_eq_spec()
    &&& forall|a: T, b: T| #[trigger] a.eq_spec(&b) <==> a == b
}

/// Two `True` conditions are always equal.
pub proof fn lemma_exact_eq_true()
    ensures
        exact_eq::<True>(),
{
}

/// Two `Not` conditions are equal exactly when their operands are the same
/// tree, whatever the trees evaluate to.
pub proof fn lemma_exact_eq_not<T: Condition + PartialEq>()
    requires
        exact_eq::<T>(),
    ensures
        exact_eq::<Not<T>>(),
{
    assert forall|a: Not<T>, b: Not<T>| #[trigger] a.eq_spec(&b) <==> a == b by {
        assert(a.condition.eq_spec(&b.condition) <==> a.condition == b.condition);
    }
}

/// Two `And` conditions are equal exactly when their operands are pairwise
/// the same tree, whatever the trees evaluate to.
pub proof fn lemma_exact_eq_and<T: Condition + PartialEq, U: Condition + PartialEq>()
    requires
        exact_eq::<T>(),
        exact_eq::<U>(),
    ensures
        exact_eq::<And<T, U>>(),
{
    assert forall|a: And<T, U>, b: And<T, U>| #[trigger] a.eq_spec(&b) <==> a == b by {
        assert(a.left.eq_spec(&b.left) <==> a.left == b.left);
        assert(a.right.eq_spec(&b.right) <==> a.right == b.right);
    }
}

/// Two `Or` conditions are equal exactly when their operands are pairwise the
/// same tree, whatever the trees evaluate to.
pub proof fn lemma_exact_eq_or<T: Condition + PartialEq, U: Condition + PartialEq>()
    requires
        exact_eq::<T>(),
        exact_eq::<U>(),
    ensures
        exact_eq::<Or<T, U>>(),
{
    assert forall|a: Or<T, U>, b: Or<T, U>| #[trigger] a.eq_spec(&b) <==> a == b by {
        assert(a.left.eq_spec(&b.left) <==> a.left == b.left);
        assert(a.right.eq_spec(&b.right) <==> a.right == b.right);
    }
}

} // verus!
