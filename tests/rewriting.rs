use std::hash::{Hash, Hasher};

use logic_rewrite::{parse_expression, ApplyError, Bindings, Expr, ParseError, Rule};

fn sym(name: &str) -> Expr {
    Expr::Sym(name.to_string())
}

fn not(e: Expr) -> Expr {
    Expr::Not(Box::new(e))
}

fn and(l: Expr, r: Expr) -> Expr {
    Expr::And(Box::new(l), Box::new(r))
}

fn or(l: Expr, r: Expr) -> Expr {
    Expr::Or(Box::new(l), Box::new(r))
}

fn parse(text: &str) -> Expr {
    parse_expression(text).unwrap()
}

fn digest(e: &Expr) -> u64 {
    let mut h = std::collections::hash_map::DefaultHasher::new();
    e.hash(&mut h);
    h.finish()
}

fn rule(head: &str, tail: &str) -> Rule {
    Rule { head: parse(head), tail: parse(tail) }
}

#[test]
fn and_binds_tighter_than_or() {
    assert_eq!(parse("A & B | C"), or(and(sym("A"), sym("B")), sym("C")));
    assert_ne!(parse("A & B | C"), and(sym("A"), or(sym("B"), sym("C"))));
}

#[test]
fn negation_binds_tighter_than_and() {
    assert_eq!(parse("~A & B"), and(not(sym("A")), sym("B")));
}

#[test]
fn parentheses_group() {
    assert_eq!(parse("(A | B) & C"), and(or(sym("A"), sym("B")), sym("C")));
}

#[test]
fn operators_group_to_the_left() {
    assert_eq!(parse("A & B & C"), and(and(sym("A"), sym("B")), sym("C")));
    assert_eq!(parse("A | B | C"), or(or(sym("A"), sym("B")), sym("C")));
}

#[test]
fn symbols_are_maximal_letter_runs() {
    assert_eq!(parse("Rain&Wet"), and(sym("Rain"), sym("Wet")));
    assert_eq!(parse("~(~abc)"), not(not(sym("abc"))));
}

#[test]
fn whitespace_is_skipped() {
    assert_eq!(parse("  ~ ( A\t&\nB )  |C "), or(not(and(sym("A"), sym("B"))), sym("C")));
    assert_eq!(parse("A\u{3000}&\u{a0}B"), and(sym("A"), sym("B")));
}

#[test]
fn trailing_input_is_left_unread() {
    assert_eq!(parse("A B"), sym("A"));
    assert_eq!(parse("A & B )"), and(sym("A"), sym("B")));
}

#[test]
fn unclosed_parenthesis_is_an_error() {
    assert_eq!(parse_expression("(A").unwrap_err(), ParseError::UnmatchedParenthesis);
    assert_eq!(parse_expression("((A | B) & C").unwrap_err(), ParseError::UnmatchedParenthesis);
}

#[test]
fn unexpected_symbol_is_an_error() {
    assert_eq!(parse_expression("1A").unwrap_err(), ParseError::UnexpectedSymbol('1'));
    assert_eq!(parse_expression("A & |").unwrap_err(), ParseError::UnexpectedSymbol('|'));
    assert_eq!(parse_expression("é").unwrap_err(), ParseError::UnexpectedSymbol('é'));
}

#[test]
fn unexpected_end_is_an_error() {
    assert_eq!(parse_expression("").unwrap_err(), ParseError::UnexpectedEnd);
    assert_eq!(parse_expression("   ").unwrap_err(), ParseError::UnexpectedEnd);
    assert_eq!(parse_expression("A &").unwrap_err(), ParseError::UnexpectedEnd);
    assert_eq!(parse_expression("(").unwrap_err(), ParseError::UnexpectedEnd);
}

#[test]
fn rendering() {
    assert_eq!(parse("~A & (B | C)").to_text(), "(¬A ∧ (B ∨ C))");
    assert_eq!(parse("Q").to_text(), "Q");
    assert_eq!(rule("~(~A)", "A").to_text(), "¬¬A => A");
}

#[test]
fn shallow_equality_ignores_children() {
    assert!(parse("A & B").shallow_eq(&parse("~C & (D | E)")));
    assert!(parse("~A").shallow_eq(&parse("~(B | C)")));
    assert!(parse("A").shallow_eq(&parse("A")));
    assert!(!parse("A").shallow_eq(&parse("B")));
    assert!(!parse("A | B").shallow_eq(&parse("A & B")));
}

#[test]
fn structural_equality_keeps_child_order() {
    assert_eq!(parse("A & B"), parse("(A&B)"));
    assert_ne!(parse("A & B"), parse("B & A"));
    assert_eq!(parse("~(A | B)").clone(), parse("~(A | B)"));
}

#[test]
fn match_count_is_at_most_node_count() {
    let e = parse("A & (A | ~A)");
    assert_eq!(e.find_match(&rule("A", "A")).len(), 3);
    assert!(e.find_match(&rule("A", "A")).len() <= 6);
    assert_eq!(e.find_match(&rule("X & Y", "X")).len(), 1);
    assert_eq!(e.find_match(&rule("~(~X)", "X")).len(), 0);
}

#[test]
fn double_negation_elimination() {
    let r = rule("~(~A)", "A");
    assert_eq!(parse("~(~X)").apply_rule(&r).unwrap(), sym("X"));
}

#[test]
fn de_morgan() {
    let r = rule("~(A & B)", "~A | ~B");
    let out = parse("~(P & Q)").apply_rule(&r).unwrap();
    assert_eq!(out, or(not(sym("P")), not(sym("Q"))));
    assert_eq!(out, parse("~P | ~Q"));
}

#[test]
fn no_match_is_an_error() {
    let r = rule("~(~A)", "A");
    let e = parse("X & Y");
    match e.apply_rule(&r) {
        Err(ApplyError::NoMatch(rr, ee)) => {
            assert_eq!(rr.head, r.head);
            assert_eq!(rr.tail, r.tail);
            assert_eq!(ee, e);
        }
        other => panic!("expected NoMatch, got {:?}", other),
    }
}

#[test]
fn nested_matches_fold_in_order() {
    let r = rule("~(~A)", "A");
    let e = parse("~(~(~(~Z)))");
    let found = e.find_match(&r);
    assert_eq!(found.len(), 3);
    assert_eq!(found[0].full_expr, e);
    assert_eq!(found[1].full_expr, parse("~(~(~Z))"));
    assert_eq!(found[2].full_expr, parse("~(~Z)"));
    assert_eq!(found[0].binds.get(&"A".to_string()), Some(&parse("~(~Z)")));
    assert_eq!(found[2].binds.get(&"A".to_string()), Some(&sym("Z")));
    assert_eq!(e.apply_rule(&r).unwrap(), sym("Z"));
}

#[test]
fn unbound_variable_is_an_error() {
    let r = rule("A", "A | B");
    match parse("A").apply_rule(&r) {
        Err(ApplyError::UnboundVariable(name)) => assert_eq!(name, "B"),
        other => panic!("expected UnboundVariable, got {:?}", other),
    }
}

#[test]
fn symbol_head_only_matches_the_same_symbol() {
    let r = rule("A", "~A");
    assert_eq!(parse("A & B").apply_rule(&r).unwrap(), parse("~A & B"));
    assert!(matches!(parse("B").apply_rule(&r), Err(ApplyError::NoMatch(_, _))));
}

#[test]
fn repeated_pattern_variable_keeps_first_binding() {
    let r = rule("A & A", "A");
    let found = parse("X & Y").find_match(&r);
    assert_eq!(found.len(), 1);
    assert_eq!(found[0].binds.get(&"A".to_string()), Some(&sym("X")));
    assert_eq!(parse("X & Y").apply_rule(&r).unwrap(), sym("X"));
}

#[test]
fn rewrite_chain() {
    let negation = rule("~(~A)", "A");
    let de_morgans = rule("~(A & B)", "~A | ~B");
    let e = parse("(~((A | D) & ~(~C)))");
    let once = e.apply_rule(&negation).unwrap();
    assert_eq!(once, parse("~((A | D) & C)"));
    let twice = once.apply_rule(&de_morgans).unwrap();
    assert_eq!(twice.to_text(), "(¬(A ∨ D) ∨ ¬C)");
}

#[test]
fn matches_inside_a_replaced_site_still_apply() {
    let r = rule("~(~A)", "A");
    let e = parse("~(~(P & ~(~Q)))");
    assert_eq!(e.find_match(&r).len(), 2);
    assert_eq!(e.apply_rule(&r).unwrap(), parse("P & Q"));
}

#[test]
fn bindings_keep_the_first_value() {
    let mut b = Bindings::new();
    let a = "A".to_string();
    assert_eq!(b.get(&a), None);
    b.insert_if_absent(&a, &sym("X"));
    b.insert_if_absent(&a, &sym("Y"));
    b.insert_if_absent(&"B".to_string(), &sym("Y"));
    assert_eq!(b.get(&a), Some(&sym("X")));
    assert_eq!(b.get(&"B".to_string()), Some(&sym("Y")));
    assert_eq!(b.get(&"C".to_string()), None);
}

#[test]
fn find_impl_binds_pattern_symbols() {
    let mut b = Bindings::new();
    assert!(parse("~(P | Q) & R").find_impl(&parse("~X & Y"), &mut b).is_some());
    assert_eq!(b.get(&"X".to_string()), Some(&parse("P | Q")));
    assert_eq!(b.get(&"Y".to_string()), Some(&sym("R")));
    let mut c = Bindings::new();
    assert!(parse("P | Q").find_impl(&parse("X & Y"), &mut c).is_none());
}

#[test]
fn find_trav_appends_matches() {
    let r = rule("~A", "A");
    let mut mats = Vec::new();
    assert!(parse("~P & ~Q").find_trav(&r, &mut mats).is_some());
    assert_eq!(mats.len(), 2);
    assert!(parse("P").find_trav(&r, &mut mats).is_none());
    assert_eq!(mats.len(), 2);
    assert_eq!(mats[1].full_expr, parse("~Q"));
}

#[test]
fn apply_error_messages() {
    let r = rule("~(~A)", "A");
    let err = parse("X & Y").apply_rule(&r).unwrap_err();
    assert_eq!(err.to_text(), "Unable to find instances of rule [[¬¬A => A]] in [[(X ∧ Y)]]");
    let err = parse("A").apply_rule(&rule("A", "A | B")).unwrap_err();
    assert_eq!(err.to_text(), "Unknown binding: 'B'");
}

#[test]
fn match_rendering() {
    let found = parse("~(~X)").find_match(&rule("~(~A)", "A"));
    assert_eq!(found[0].to_text(), "¬¬A => A\n¬¬X\n    'A' -> X");
    let found = parse("~(P & Q)").find_match(&rule("~(A & B)", "~A | ~B"));
    assert_eq!(found[0].to_text(), "¬(A ∧ B) => (¬A ∨ ¬B)\n¬(P ∧ Q)\n    'A' -> P\n    'B' -> Q");
    assert_eq!(Bindings::new().to_text(), "");
}

#[test]
fn failed_pattern_walk_keeps_existing_bindings() {
    let mut b = Bindings::new();
    b.insert_if_absent(&"Z".to_string(), &sym("W"));
    assert!(parse("P | Q").find_impl(&parse("X & Y"), &mut b).is_none());
    assert_eq!(b.get(&"Z".to_string()), Some(&sym("W")));
    assert_eq!(b.get(&"Y".to_string()), None);
}

#[test]
fn repeated_name_renders_once() {
    let found = parse("X & Y").find_match(&rule("A & A", "A"));
    assert_eq!(found[0].to_text(), "(A ∧ A) => A\n(X ∧ Y)\n    'A' -> X");
}

#[test]
fn expressions_hash_structurally() {
    assert_eq!(digest(&parse("A & ~B")), digest(&parse("(A) & ~(B)")));
    assert_ne!(digest(&parse("A & ~B")), digest(&parse("~B & A")));
}
