//! The operation set: the four boolean connectives and their truth functions.

use vstd::prelude::*;

verus! {

/// The closed set of connectives an expression node can apply: negation,
/// conjunction, disjunction and material implication.
#[derive(Clone, Copy, Debug, PartialEq, Eq, Structural)]
pub enum Op {
    Negate,
    And,
    Or,
    Implies,
}

/// Whether a connective accepts `n` arguments: negation takes exactly one,
/// implication exactly two; conjunction and disjunction are variadic (zero
/// arguments yield the vacuous result: true for `And`, false for `Or`).
pub open spec fn arity_ok(op: Op, n: nat) -> bool {
    match op {
        Op::Negate => n == 1,
        Op::And => true,
        Op::Or => true,
        Op::Implies => n == 2,
    }
}

/// True iff every element of `args` is true (vacuously true when empty).
pub open spec fn all_true(args: Seq<bool>) -> bool {
    forall|i: int| 0 <= i < args.len() ==> args[i]
}

/// True iff some element of `args` is true (vacuously false when empty).
pub open spec fn any_true(args: Seq<bool>) -> bool {
    exists|i: int| 0 <= i < args.len() && args[i]
}

/// The truth function a connective denotes, on an argument list whose
/// length matches its arity.
pub open spec fn op_value(op: Op, args: Seq<bool>) -> bool
    recommends
        arity_ok(op, args.len()),
{
    match op {
        Op::Negate => !args[0],
        Op::And => all_true(args),
        Op::Or => any_true(args),
        Op::Implies => args[0] ==> args[1],
    }
}

/// Evaluates a connective on the given argument values.
pub fn apply_op(op: Op, args: &[bool]) -> (r: bool)
    requires
        arity_ok(op, args@.len()),
    ensures
        r == op_value(op, args@),
{
    match op {
        Op::Negate => !args[0],
        Op::And => {
            let mut i: usize = 0;
            while i < args.len()
                invariant
                    op == Op::And,
                    i <= args@.len(),
                    forall|j: int| 0 <= j < i ==> args@[j],
                decreases args@.len() - i,
            {
                if !args[i] {
                    assert(!all_true(args@)) by {
                        assert(!args@[i as int]);
                    }
                    return false;
                }
                i = i + 1;
            }
            true
        },
        Op::Or => {
            let mut i: usize = 0;
            while i < args.len()
                invariant
                    op == Op::Or,
                    i <= args@.len(),
                    forall|j: int| 0 <= j < i ==> !args@[j],
                decreases args@.len() - i,
            {
                if args[i] {
                    assert(any_true(args@)) by {
                        assert(args@[i as int]);
                    }
                    return true;
                }
                i = i + 1;
            }
            false
        },
        Op::Implies => !args[0] || args[1],
    }
}

/// The interface a driver dispatches evaluation through: each operation
/// names the connective it denotes and applies it to argument values.
pub trait Operation {
    /// The connective this operation denotes.
    spec fn kind(&self) -> Op;

    /// Applies the connective; the argument count must match its arity.
    fn apply(&self, args: &[bool]) -> (r: bool)
        requires
            arity_ok(self.kind(), args@.len()),
        ensures
            r == op_value(self.kind(), args@),
    ;
}

/// Logical negation: true becomes false and false becomes true.
pub struct Negate;

impl Operation for Negate {
    open spec fn kind(&self) -> Op {
        Op::Negate
    }

    fn apply(&self, args: &[bool]) -> (r: bool) {
        apply_op(Op::Negate, args)
    }
}

/// Conjunction: true iff every argument is true.
pub struct And;

impl Operation for And {
    open spec fn kind(&self) -> Op {
        Op::And
    }

    fn apply(&self, args: &[bool]) -> (r: bool) {
        apply_op(Op::And, args)
    }
}

/// Disjunction: true iff at least one argument is true.
pub struct Or;

impl Operation for Or {
    open spec fn kind(&self) -> Op {
        Op::Or
    }

    fn apply(&self, args: &[bool]) -> (r: bool) {
        apply_op(Op::Or, args)
    }
}

/// Material implication: false only when the antecedent is true and the
/// consequent is false.
pub struct Implies;

impl Operation for Implies {
    open spec fn kind(&self) -> Op {
        Op::Implies
    }

    fn apply(&self, args: &[bool]) -> (r: bool) {
        apply_op(Op::Implies, args)
    }
}

/// Law: on a pair of arguments, implication is false exactly when the
/// antecedent is true and the consequent is false.
pub proof fn lemma_implies_truth_table(a: bool, b: bool)
    ensures
        op_value(Op::Implies, seq![a, b]) == !(a && !b),
{
}

/// Law: on a pair of arguments, conjunction is the boolean `&&`.
pub proof fn lemma_and_pair(a: bool, b: bool)
    ensures
        op_value(Op::And, seq![a, b]) == (a && b),
{
    let s = seq![a, b];
    assert(s[0] == a && s[1] == b);
    if a && b {
        assert forall|i: int| 0 <= i < s.len() implies s[i] by {}
    }
}

/// Law: on a pair of arguments, disjunction is the boolean `||`.
pub proof fn lemma_or_pair(a: bool, b: bool)
    ensures
        op_value(Op::Or, seq![a, b]) == (a || b),
{
    let s = seq![a, b];
    assert(s[0] == a && s[1] == b);
    if a {
        assert(any_true(s));
    }
    if b {
        assert(any_true(s));
    }
}

} // verus!
