//! The expression tree: constants, variables and operator applications,
//! with evaluation and variable discovery.

use crate::assignment::{lookup, VariableMap};
use crate::op::{arity_ok, op_value, Op};
use vstd::prelude::*;
use vstd::string::StrSliceExecFns;

verus! {

/// A propositional-logic expression: a fixed truth value, a reference to a
/// variable, or a connective applied to an ordered list of sub-expressions.
/// Trees are built once and never mutated; every operation is a read-only
/// traversal.
#[derive(Debug)]
pub enum Expression {
    Constant(bool),
    Variable(char),
    Expr { args: Vec<Expression>, op: Op },
}

/// Whether every expression in the list is well formed.
pub open spec fn all_wf(es: Seq<Expression>) -> bool
    decreases es,
{
    es.len() == 0 || (es[0].wf() && all_wf(es.drop_first()))
}

/// Whether some expression in the list mentions the variable `c`.
pub open spec fn any_mentions(es: Seq<Expression>, c: char) -> bool
    decreases es,
{
    es.len() > 0 && (es[0].mentions(c) || any_mentions(es.drop_first(), c))
}

/// Whether every variable of every expression in the list is bound in
/// `entries`.
pub open spec fn all_bound(es: Seq<Expression>, entries: Seq<(char, bool)>) -> bool
    decreases es,
{
    es.len() == 0 || (es[0].vars_bound(entries) && all_bound(es.drop_first(), entries))
}

/// The values the expressions in the list take under `entries`, in order.
pub open spec fn child_values(es: Seq<Expression>, entries: Seq<(char, bool)>) -> Seq<bool>
    decreases es,
{
    if es.len() == 0 {
        Seq::empty()
    } else {
        seq![es[0].value(entries)] + child_values(es.drop_first(), entries)
    }
}

impl Expression {
    /// A tree is well formed when every application's argument count
    /// matches its connective's arity.
    pub open spec fn wf(self) -> bool
        decreases self,
    {
        match self {
            Expression::Constant(_) => true,
            Expression::Variable(_) => true,
            Expression::Expr { args, op } => arity_ok(op, args@.len()) && all_wf(args@),
        }
    }

    /// Whether the tree references the variable `c` anywhere.
    pub open spec fn mentions(self, c: char) -> bool
        decreases self,
    {
        match self {
            Expression::Constant(_) => false,
            Expression::Variable(p) => p == c,
            Expression::Expr { args, .. } => any_mentions(args@, c),
        }
    }

    /// Whether every variable the tree references is bound in `entries`.
    pub open spec fn vars_bound(self, entries: Seq<(char, bool)>) -> bool
        decreases self,
    {
        match self {
            Expression::Constant(_) => true,
            Expression::Variable(p) => lookup(entries, p) is Some,
            Expression::Expr { args, .. } => all_bound(args@, entries),
        }
    }

    /// The truth value of the tree under `entries`: constants stand for
    /// themselves, a variable for the value its first entry carries, and
    /// an application for its connective applied to its children's values.
    pub open spec fn value(self, entries: Seq<(char, bool)>) -> bool
        recommends
            self.wf(),
            self.vars_bound(entries),
        decreases self,
    {
        match self {
            Expression::Constant(b) => b,
            Expression::Variable(p) => lookup(entries, p) == Some(true),
            Expression::Expr { args, op } => op_value(op, child_values(args@, entries)),
        }
    }
}

/// `all_wf` holds exactly when each element is well formed.
pub proof fn lemma_all_wf(es: Seq<Expression>)
    ensures
        all_wf(es) <==> (forall|i: int| 0 <= i < es.len() ==> #[trigger] es[i].wf()),
    decreases es.len(),
{
    if es.len() > 0 {
        lemma_all_wf(es.drop_first());
        assert forall|i: int| 0 <= i < es.len() && all_wf(es) implies #[trigger] es[i].wf() by {
            if i > 0 {
                assert(es.drop_first()[i - 1] == es[i]);
                assert(es.drop_first()[i - 1].wf());
            }
        }
        if forall|i: int| 0 <= i < es.len() ==> #[trigger] es[i].wf() {
            assert(es[0].wf());
            assert forall|i: int|
                0 <= i < es.drop_first().len() implies #[trigger] es.drop_first()[i].wf() by {
                assert(es.drop_first()[i] == es[i + 1]);
                assert(es[i + 1].wf());
            }
        }
    }
}

/// `any_mentions` holds exactly when some element mentions `c`.
pub proof fn lemma_any_mentions(es: Seq<Expression>, c: char)
    ensures
        any_mentions(es, c) <==> (exists|i: int|
            0 <= i < es.len() && #[trigger] es[i].mentions(c)),
    decreases es.len(),
{
    if es.len() > 0 {
        lemma_any_mentions(es.drop_first(), c);
        if any_mentions(es, c) {
            if !es[0].mentions(c) {
                let i = choose|i: int|
                    0 <= i < es.drop_first().len() && #[trigger] es.drop_first()[i].mentions(c);
                assert(es[i + 1].mentions(c));
            }
        }
        if exists|i: int| 0 <= i < es.len() && #[trigger] es[i].mentions(c) {
            let i = choose|i: int| 0 <= i < es.len() && #[trigger] es[i].mentions(c);
            if i > 0 {
                assert(es.drop_first()[i - 1].mentions(c));
            }
        }
    }
}

/// `all_bound` holds exactly when each element has its variables bound.
pub proof fn lemma_all_bound(es: Seq<Expression>, entries: Seq<(char, bool)>)
    ensures
        all_bound(es, entries) <==> (forall|i: int|
            0 <= i < es.len() ==> #[trigger] es[i].vars_bound(entries)),
    decreases es.len(),
{
    if es.len() > 0 {
        lemma_all_bound(es.drop_first(), entries);
        assert forall|i: int|
            0 <= i < es.len() && all_bound(es, entries) implies #[trigger] es[i].vars_bound(
            entries,
        ) by {
            if i > 0 {
                assert(es.drop_first()[i - 1] == es[i]);
                assert(es.drop_first()[i - 1].vars_bound(entries));
            }
        }
        if forall|i: int| 0 <= i < es.len() ==> #[trigger] es[i].vars_bound(entries) {
            assert(es[0].vars_bound(entries));
            assert forall|i: int|
                0 <= i < es.drop_first().len() implies #[trigger] es.drop_first()[i].vars_bound(
                entries,
            ) by {
                assert(es.drop_first()[i] == es[i + 1]);
                assert(es[i + 1].vars_bound(entries));
            }
        }
    }
}

/// `child_values` is the pointwise evaluation of the list.
pub proof fn lemma_child_values(es: Seq<Expression>, entries: Seq<(char, bool)>)
    ensures
        child_values(es, entries).len() == es.len(),
        forall|i: int|
            0 <= i < es.len() ==> #[trigger] child_values(es, entries)[i] == es[i].value(entries),
    decreases es.len(),
{
    if es.len() > 0 {
        lemma_child_values(es.drop_first(), entries);
        assert forall|i: int|
            0 <= i < es.len() implies #[trigger] child_values(es, entries)[i] == es[i].value(
            entries,
        ) by {
            if i > 0 {
                assert(child_values(es, entries)[i] == child_values(es.drop_first(), entries)[i
                    - 1]);
                assert(es.drop_first()[i - 1] == es[i]);
            }
        }
    }
}

impl Expression {
    /// Evaluates the tree against an assignment; every variable it
    /// references must be bound there.
    pub fn eval(&self, vmap: &VariableMap) -> (r: bool)
        requires
            self.wf(),
            self.vars_bound(vmap@),
        ensures
            r == self.value(vmap@),
        decreases *self,
    {
        match self {
            Expression::Constant(b) => *b,
            Expression::Variable(p) => vmap.check(*p),
            Expression::Expr { args, op } => {
                proof {
                    lemma_all_wf(args@);
                    lemma_all_bound(args@, vmap@);
                }
                let mut vals: Vec<bool> = Vec::new();
                let mut i: usize = 0;
                #[verifier::loop_isolation(false)]
                while i < args.len()
                    invariant
                        i <= args@.len(),
                        vals@.len() == i,
                        forall|j: int| 0 <= j < i ==> vals@[j] == args@[j].value(vmap@),
                    decreases args@.len() - i,
                {
                    proof {
                        assert(decreases_to!(*self => args@[i as int]));
                    }
                    let v = args[i].eval(vmap);
                    vals.push(v);
                    i = i + 1;
                }
                proof {
                    lemma_child_values(args@, vmap@);
                    assert(vals@ =~= child_values(args@, vmap@));
                }
                crate::op::apply_op(*op, vals.as_slice())
            },
        }
    }
}

/// Strictly ascending: sorted with no duplicate entries.
pub open spec fn sorted_strict(s: Seq<char>) -> bool {
    forall|i: int, j: int| 0 <= i < j < s.len() ==> s[i] < s[j]
}

/// Inserts `c` into a strictly ascending list of variables, keeping the
/// list strictly ascending; a value already present is not duplicated.
fn insert_sorted(vars: &mut Vec<char>, c: char)
    requires
        sorted_strict(old(vars)@),
    ensures
        sorted_strict(final(vars)@),
        forall|d: char| final(vars)@.contains(d) <==> (old(vars)@.contains(d) || d == c),
{
    let mut i: usize = 0;
    #[verifier::loop_isolation(false)]
    while i < vars.len() && vars[i] < c
        invariant
            i <= vars@.len(),
            forall|j: int| 0 <= j < i ==> vars@[j] < c,
        decreases vars@.len() - i,
    {
        i = i + 1;
    }
    if i < vars.len() && vars[i] == c {
        proof {
            assert(vars@[i as int] == c);
            assert(vars@.contains(c));
        }
    } else {
        let ghost s0 = vars@;
        vars.insert(i, c);
        proof {
            s0.insert_ensures(i as int, c);
            assert(forall|j: int| i < j < vars@.len() ==> vars@[j] == s0[j - 1]);
            assert forall|x: int, y: int| 0 <= x < y < vars@.len() implies vars@[x] < vars@[y] by {
                if y == i {
                    assert(vars@[x] == s0[x] && s0[x] < c);
                } else if x == i && y > i {
                    assert(vars@[y] == s0[y - 1] && c < s0[y - 1]);
                } else if x < i && y > i {
                    assert(vars@[x] == s0[x] && vars@[y] == s0[y - 1]);
                    assert(s0[x] < c && c < s0[y - 1]);
                }
            }
            assert forall|d: char| #[trigger] vars@.contains(d) implies (s0.contains(d) || d
                == c) by {
                let x = choose|x: int| 0 <= x < vars@.len() && vars@[x] == d;
                if x < i {
                    assert(s0[x] == d);
                } else if x > i {
                    assert(s0[x - 1] == d);
                }
            }
            assert forall|d: char| s0.contains(d) || d == c implies #[trigger] vars@.contains(
                d,
            ) by {
                if d == c {
                    assert(vars@[i as int] == c);
                } else {
                    let x = choose|x: int| 0 <= x < s0.len() && s0[x] == d;
                    if x < i {
                        assert(vars@[x] == d);
                    } else {
                        assert(vars@[x + 1] == d);
                    }
                }
            }
        }
    }
}

impl Expression {
    /// Adds every variable this tree mentions to a strictly ascending
    /// list, keeping it strictly ascending and duplicate-free.
    fn collect_variables(&self, vars: &mut Vec<char>)
        requires
            sorted_strict(old(vars)@),
        ensures
            sorted_strict(final(vars)@),
            forall|d: char|
                final(vars)@.contains(d) <==> (old(vars)@.contains(d) || self.mentions(d)),
        decreases *self,
    {
        match self {
            Expression::Constant(_) => {
            },
            Expression::Variable(p) => {
                insert_sorted(vars, *p);
            },
            Expression::Expr { args, .. } => {
                let mut i: usize = 0;
                #[verifier::loop_isolation(false)]
                while i < args.len()
                    invariant
                        i <= args@.len(),
                        sorted_strict(vars@),
                        forall|d: char|
                            vars@.contains(d) <==> (old(vars)@.contains(d) || any_mentions(
                                args@.take(i as int),
                                d,
                            )),
                    decreases args@.len() - i,
                {
                    proof {
                        assert(decreases_to!(*self => args@[i as int]));
                    }
                    let ghost prev = vars@;
                    args[i].collect_variables(vars);
                    proof {
                        assert forall|d: char|
                            vars@.contains(d) <==> (old(vars)@.contains(d) || any_mentions(
                                args@.take(i + 1),
                                d,
                            )) by {
                            let ti = args@.take(i as int);
                            let ti1 = args@.take(i + 1);
                            lemma_any_mentions(ti, d);
                            lemma_any_mentions(ti1, d);
                            if any_mentions(ti1, d) {
                                let j = choose|j: int|
                                    0 <= j < ti1.len() && #[trigger] ti1[j].mentions(d);
                                if j < i {
                                    assert(ti[j].mentions(d));
                                } else {
                                    assert(args@[i as int].mentions(d));
                                }
                            }
                            if any_mentions(ti, d) {
                                let j = choose|j: int|
                                    0 <= j < ti.len() && #[trigger] ti[j].mentions(d);
                                assert(ti1[j].mentions(d));
                            }
                            if args@[i as int].mentions(d) {
                                assert(ti1[i as int].mentions(d));
                            }
                            assert(vars@.contains(d) <==> (prev.contains(d) || args@[
                                i as int
                            ].mentions(d)));
                            assert(prev.contains(d) <==> (old(vars)@.contains(d)
                                || any_mentions(ti, d)));
                        }
                    }
                    i = i + 1;
                }
                proof {
                    assert(args@.take(args@.len() as int) =~= args@);
                }
            },
        }
    }
}

impl Expression {
    /// Collects the distinct variables the tree references, in ascending
    /// order regardless of tree shape; constants contribute nothing.
    pub fn search_variables(&self) -> (r: Vec<char>)
        ensures
            sorted_strict(r@),
            forall|c: char| r@.contains(c) <==> self.mentions(c),
    {
        let mut vars: Vec<char> = Vec::new();
        self.collect_variables(&mut vars);
        vars
    }

    /// Builds an application node, rejecting an argument list whose length
    /// does not match the connective's arity.
    pub fn node(op: Op, args: Vec<Expression>) -> (r: Option<Expression>)
        ensures
            r matches Some(e) ==> e == (Expression::Expr { args, op }),
            r is Some <==> arity_ok(op, args@.len()),
            r matches Some(e) ==> (all_wf(args@) ==> e.wf()),
    {
        let ok = match op {
            Op::Negate => args.len() == 1,
            Op::And => true,
            Op::Or => true,
            Op::Implies => args.len() == 2,
        };
        if ok {
            Some(Expression::Expr { args, op })
        } else {
            None
        }
    }

    /// Parses the convenience token form: a single character is a variable
    /// reference, and a leading `!` negates the single-character variable
    /// that follows. Any other form is rejected.
    pub fn from_token(s: &str) -> (r: Option<Expression>)
        ensures
            s@.len() == 1 && s@[0] != '!' ==> r == Some(Expression::Variable(s@[0])),
            s@.len() == 2 && s@[0] == '!' ==> (r matches Some(e) && e matches Expression::Expr {
                args,
                op,
            } && op == Op::Negate && args@ == seq![Expression::Variable(s@[1])]),
            !(s@.len() == 1 && s@[0] != '!') && !(s@.len() == 2 && s@[0] == '!') ==> r is None,
            r matches Some(e) ==> e.wf(),
    {
        let n = s.unicode_len();
        if n == 1 {
            let c = s.get_char(0);
            if c != '!' {
                Some(Expression::Variable(c))
            } else {
                None
            }
        } else if n == 2 {
            let c0 = s.get_char(0);
            if c0 == '!' {
                let c1 = s.get_char(1);
                let mut args: Vec<Expression> = Vec::new();
                args.push(Expression::Variable(c1));
                let e = Expression::Expr { args, op: Op::Negate };
                proof {
                    let cs = seq![Expression::Variable(c1)];
                    assert(e->args@ =~= cs);
                    assert(cs.drop_first().len() == 0);
                    assert(all_wf(cs.drop_first()));
                    assert(cs[0] == Expression::Variable(c1));
                    assert(cs[0].wf());
                    assert(all_wf(cs));
                }
                Some(e)
            } else {
                None
            }
        } else {
            None
        }
    }

    /// Reports whether the tree is well formed, checking every
    /// application's argument count against its connective's arity.
    pub fn check_wf(&self) -> (b: bool)
        ensures
            b == self.wf(),
        decreases *self,
    {
        match self {
            Expression::Constant(_) => true,
            Expression::Variable(_) => true,
            Expression::Expr { args, op } => {
                proof {
                    lemma_all_wf(args@);
                }
                let ok = match op {
                    Op::Negate => args.len() == 1,
                    Op::And => true,
                    Op::Or => true,
                    Op::Implies => args.len() == 2,
                };
                if !ok {
                    return false;
                }
                let mut i: usize = 0;
                #[verifier::loop_isolation(false)]
                while i < args.len()
                    invariant
                        i <= args@.len(),
                        forall|j: int| 0 <= j < i ==> #[trigger] args@[j].wf(),
                    decreases args@.len() - i,
                {
                    proof {
                        assert(decreases_to!(*self => args@[i as int]));
                    }
                    if !args[i].check_wf() {
                        return false;
                    }
                    i = i + 1;
                }
                true
            },
        }
    }

    /// Reports whether every variable the tree references is bound in the
    /// given assignment.
    pub fn check_bound(&self, vmap: &VariableMap) -> (b: bool)
        ensures
            b == self.vars_bound(vmap@),
        decreases *self,
    {
        match self {
            Expression::Constant(_) => true,
            Expression::Variable(p) => vmap.contains(*p),
            Expression::Expr { args, .. } => {
                proof {
                    lemma_all_bound(args@, vmap@);
                }
                let mut i: usize = 0;
                #[verifier::loop_isolation(false)]
                while i < args.len()
                    invariant
                        i <= args@.len(),
                        forall|j: int| 0 <= j < i ==> #[trigger] args@[j].vars_bound(vmap@),
                    decreases args@.len() - i,
                {
                    proof {
                        assert(decreases_to!(*self => args@[i as int]));
                    }
                    if !args[i].check_bound(vmap) {
                        return false;
                    }
                    i = i + 1;
                }
                true
            },
        }
    }

    /// Evaluates after checking the tree and the assignment: a malformed
    /// tree or an unbound variable is rejected instead of evaluated.
    pub fn try_eval(&self, vmap: &VariableMap) -> (r: Option<bool>)
        ensures
            self.wf() && self.vars_bound(vmap@) ==> r == Some(self.value(vmap@)),
            !(self.wf() && self.vars_bound(vmap@)) ==> r is None,
    {
        if self.check_wf() && self.check_bound(vmap) {
            Some(self.eval(vmap))
        } else {
            None
        }
    }
}

impl From<char> for Expression {
    /// A bare character becomes a variable reference.
    fn from(c: char) -> (e: Expression) {
        Expression::Variable(c)
    }
}

impl vstd::std_specs::convert::FromSpecImpl<char> for Expression {
    open spec fn obeys_from_spec() -> bool {
        true
    }

    open spec fn from_spec(c: char) -> Expression {
        Expression::Variable(c)
    }
}

impl From<bool> for Expression {
    /// A boolean becomes a constant.
    fn from(b: bool) -> (e: Expression) {
        Expression::Constant(b)
    }
}

impl vstd::std_specs::convert::FromSpecImpl<bool> for Expression {
    open spec fn obeys_from_spec() -> bool {
        true
    }

    open spec fn from_spec(b: bool) -> Expression {
        Expression::Constant(b)
    }
}

/// Law: negation applied to the constant true evaluates to false on every
/// assignment.
pub proof fn lemma_negate_constant_true(e: Expression, entries: Seq<(char, bool)>)
    requires
        e matches Expression::Expr { args, op } && op == Op::Negate && args@ == seq![
            Expression::Constant(true),
        ],
    ensures
        !e.value(entries),
{
    let args = e->args;
    lemma_child_values(args@, entries);
    assert(child_values(args@, entries)[0] == Expression::Constant(true).value(entries));
}

/// Law: the constant false evaluates to false on every assignment.
pub proof fn lemma_constant_false(entries: Seq<(char, bool)>)
    ensures
        !Expression::Constant(false).value(entries),
{
}

} // verus!
