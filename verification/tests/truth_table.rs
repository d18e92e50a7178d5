use truth_table::assignment::VariableMap;
use truth_table::expr::Expression;
use truth_table::op::{apply_op, And, Implies, Negate, Op, Operation, Or};
use truth_table::table::all_same;

fn var(c: char) -> Expression {
    Expression::Variable(c)
}

#[test]
fn all_enumerates_the_hypercube() {
    let vars = vec!['a', 'b', 'c'];
    let maps = VariableMap::all(&vars);
    assert_eq!(maps.len(), 8);
    let mut seen = Vec::new();
    for m in &maps {
        let row = (m.check('a'), m.check('b'), m.check('c'));
        assert!(!seen.contains(&row));
        seen.push(row);
    }
    for n in 0..8usize {
        let m = &maps[n];
        assert_eq!(m.check('a'), n & 1 != 0);
        assert_eq!(m.check('b'), n & 2 != 0);
        assert_eq!(m.check('c'), n & 4 != 0);
    }
}

#[test]
fn all_of_no_variables_is_one_empty_assignment() {
    let maps = VariableMap::all(&[]);
    assert_eq!(maps.len(), 1);
    assert!(!maps[0].contains('p'));
}

#[test]
fn from_binary_sets_bits_in_position_order() {
    let m = VariableMap::from_binary(&['p', 'q', 'r'], 5);
    assert_eq!(m.check('p'), true);
    assert_eq!(m.check('q'), false);
    assert_eq!(m.check('r'), true);
}

#[test]
fn search_variables_dedupes_and_sorts() {
    let inner = Expression::Expr { args: vec![var('r'), var('p')], op: Op::And };
    let e = Expression::Expr { args: vec![var('q'), var('p'), inner], op: Op::Or };
    assert_eq!(e.search_variables(), vec!['p', 'q', 'r']);
}

#[test]
fn search_variables_on_leaves() {
    assert_eq!(var('z').search_variables(), vec!['z']);
    assert!(Expression::Constant(true).search_variables().is_empty());
}

#[test]
fn negate_constant_true_is_false_on_any_assignment() {
    let e = Expression::Expr { args: vec![Expression::Constant(true)], op: Op::Negate };
    for m in &VariableMap::all(&['x', 'y']) {
        assert_eq!(e.try_eval(m), Some(false));
    }
    let empty = VariableMap::from_binary(&[], 0);
    assert_eq!(e.try_eval(&empty), Some(false));
}

#[test]
fn constant_false_is_false_on_any_assignment() {
    let e = Expression::Constant(false);
    for m in &VariableMap::all(&['x', 'y']) {
        assert_eq!(e.try_eval(m), Some(false));
    }
}

#[test]
fn implies_truth_table() {
    assert_eq!(Implies.apply(&[true, false]), false);
    assert_eq!(Implies.apply(&[false, false]), true);
    assert_eq!(Implies.apply(&[false, true]), true);
    assert_eq!(Implies.apply(&[true, true]), true);
}

#[test]
fn and_or_pairs() {
    assert_eq!(And.apply(&[true, true]), true);
    assert_eq!(And.apply(&[true, false]), false);
    assert_eq!(Or.apply(&[false, false]), false);
    assert_eq!(Or.apply(&[false, true]), true);
}

#[test]
fn negate_flips_its_argument() {
    assert_eq!(Negate.apply(&[true]), false);
    assert_eq!(Negate.apply(&[false]), true);
}

#[test]
fn vacuous_and_single_argument_cases() {
    assert_eq!(apply_op(Op::And, &[]), true);
    assert_eq!(apply_op(Op::Or, &[]), false);
    assert_eq!(apply_op(Op::And, &[false]), false);
    assert_eq!(apply_op(Op::Or, &[true]), true);
}

#[test]
fn implication_table_end_to_end() {
    let vars = vec!['p', 'q'];
    let e = Expression::Expr { args: vec![var('p'), var('q')], op: Op::Implies };
    let maps = VariableMap::all(&vars);
    assert_eq!(maps.len(), 4);
    let expected = [
        (false, false, true),
        (true, false, false),
        (false, true, true),
        (true, true, true),
    ];
    for (m, (p, q, r)) in maps.iter().zip(expected.iter()) {
        assert_eq!(m.check('p'), *p);
        assert_eq!(m.check('q'), *q);
        assert_eq!(e.eval(m), *r);
    }
}

#[test]
fn eval_is_pure() {
    let e = Expression::Expr { args: vec![var('p'), var('q')], op: Op::Implies };
    let m = VariableMap::from_binary(&['p', 'q'], 1);
    assert_eq!(e.eval(&m), e.eval(&m));
    assert_eq!(e.try_eval(&m), e.try_eval(&m));
}

#[test]
fn equivalent_expressions_agree_on_every_row() {
    let e1 = Expression::Expr { args: vec![var('p'), var('q')], op: Op::Implies };
    let not_q = Expression::Expr { args: vec![var('q')], op: Op::Negate };
    let conj = Expression::Expr { args: vec![var('p'), not_q], op: Op::And };
    let e2 = Expression::Expr { args: vec![conj], op: Op::Negate };
    for m in &VariableMap::all(&['p', 'q']) {
        assert!(all_same(&[e1.eval(m), e2.eval(m)]));
    }
}

#[test]
fn from_token_parses_variables_and_negations() {
    assert!(matches!(Expression::from_token("q"), Some(Expression::Variable('q'))));
    let e = Expression::from_token("!q").unwrap();
    match e {
        Expression::Expr { args, op } => {
            assert_eq!(op, Op::Negate);
            assert_eq!(args.len(), 1);
            assert!(matches!(args[0], Expression::Variable('q')));
        },
        _ => panic!("expected an application node"),
    }
}

#[test]
fn from_token_rejects_malformed_tokens() {
    assert!(Expression::from_token("").is_none());
    assert!(Expression::from_token("!").is_none());
    assert!(Expression::from_token("pq").is_none());
    assert!(Expression::from_token("!pq").is_none());
}

#[test]
fn node_rejects_wrong_arity() {
    assert!(Expression::node(Op::Negate, vec![var('p'), var('q')]).is_none());
    assert!(Expression::node(Op::Negate, vec![]).is_none());
    assert!(Expression::node(Op::Implies, vec![var('p')]).is_none());
    let empty = VariableMap::from_binary(&[], 0);
    let a = Expression::node(Op::And, vec![]).unwrap();
    assert_eq!(a.try_eval(&empty), Some(true));
    let o = Expression::node(Op::Or, vec![]).unwrap();
    assert_eq!(o.try_eval(&empty), Some(false));
}

#[test]
fn unbound_variable_is_rejected_not_defaulted() {
    let m = VariableMap::from_binary(&['p'], 1);
    assert!(m.contains('p'));
    assert!(!m.contains('z'));
    assert_eq!(var('z').try_eval(&m), None);
}

#[test]
fn malformed_tree_is_rejected() {
    let bad = Expression::Expr { args: vec![var('p')], op: Op::Implies };
    assert!(!bad.check_wf());
    let m = VariableMap::from_binary(&['p'], 1);
    assert_eq!(bad.try_eval(&m), None);
}

#[test]
fn all_same_detects_disagreement() {
    assert!(all_same(&[]));
    assert!(all_same(&[true, true, true]));
    assert!(all_same(&[false, false]));
    assert!(!all_same(&[true, false, true]));
}

#[test]
fn conversions_build_leaves() {
    assert!(matches!(Expression::from('p'), Expression::Variable('p')));
    assert!(matches!(Expression::from(true), Expression::Constant(true)));
    assert!(matches!(Expression::from(false), Expression::Constant(false)));
}
