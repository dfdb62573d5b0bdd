use boolalg::cnf;
use boolalg::nnf;
use boolalg::nnf_tree;
use boolalg::nnf_tree::Node;
use boolalg::rewrite;
use boolalg::truth_table::generate_truth_table;

fn check_nnf_nodes(n: &Node) {
    let is_value = n.val.is_ascii_alphanumeric();
    assert!(!n.neg || is_value, "In NNF, only values can be negated");
    assert!(
        is_value || matches!(n.val, '&' | '|'),
        "In NNF, only & and | are allowed"
    );
    if let Some((a, b)) = &n.children {
        check_nnf_nodes(a);
        check_nnf_nodes(b);
    }
}

/// Returns the NNF of `formula`, checking that the output is in negation
/// normal form and that its truth table matches the input's.
fn assert_correct_nnf(formula: &str) -> String {
    let nnf_out = nnf_tree::negation_normal_form(formula);
    let parsed_nnf = nnf_tree::parse(&nnf_out).unwrap();
    check_nnf_nodes(&parsed_nnf);
    assert_eq!(
        generate_truth_table(&nnf_out).unwrap(),
        generate_truth_table(formula).unwrap()
    );
    nnf_out
}

#[test]
fn parsing() {
    assert_eq!(nnf_tree::negation_normal_form("A!!"), "A");
    assert_eq!(nnf_tree::negation_normal_form("A!!!"), "A!");
    assert!(nnf_tree::nnf("óë&³&!!!").is_err());
}

#[test]
fn de_morgans_laws() {
    assert_eq!(nnf_tree::negation_normal_form("AB&!"), "A!B!|");
    assert_eq!(nnf_tree::negation_normal_form("AB|!"), "A!B!&");
}

#[test]
fn material_conditions() {
    assert_eq!(nnf_tree::negation_normal_form("AB>"), "A!B|");
}

#[test]
fn equivalence() {
    assert_eq!(assert_correct_nnf("AB="), "A!B|B!A|&");
}

#[test]
fn exclusive_or() {
    assert_eq!(nnf_tree::negation_normal_form("AB^"), "AB|A!B!|&");
    assert_eq!(nnf_tree::negation_normal_form("A!B^"), "A!B|AB!|&");
    assert_eq!(nnf_tree::negation_normal_form("AB!^"), "AB!|A!B|&");
    assert_eq!(nnf_tree::negation_normal_form("A!B!^"), "A!B!|AB|&");
}

#[test]
fn smoke_test() {
    assert_eq!(assert_correct_nnf("AB|C&!"), "A!B!&C!|");
    assert_correct_nnf("A!B&!C&!D!&!E!&!");
    assert_correct_nnf("A!B&!C&!D!&!E!&!A>B>!C>!!!F=G!&");
    assert_correct_nnf("AB=C=A=E=A=A=A=A=D=B=B=B=A^B&!C>");
}

#[test]
fn nnf_on_parsed_trees() {
    assert_eq!(nnf::negation_normal_form("A"), "A");
    assert_eq!(nnf::negation_normal_form("A!"), "A!");
    assert_eq!(nnf::negation_normal_form("A!!"), "A");
    assert_eq!(nnf::negation_normal_form("A!!!"), "A!");
    assert_eq!(nnf::negation_normal_form("AB&!"), "A!B!|");
    assert_eq!(nnf::negation_normal_form("AB|!"), "A!B!&");
    assert_eq!(nnf::negation_normal_form("AB!!|"), "AB|");
    assert_eq!(nnf::negation_normal_form("AB>"), "A!B|");
    assert_eq!(nnf::negation_normal_form("AB="), "AB&A!B!&|");
    assert_eq!(nnf::negation_normal_form("AB>!"), "AB!&");
    assert_eq!(nnf::negation_normal_form("AB=!"), "A!B!|AB|&");
    assert_eq!(nnf::negation_normal_form("AB|C&!"), "A!B!&C!|");
    assert_eq!(nnf::negation_normal_form("ABC||"), "ABC||");
    assert_eq!(nnf::negation_normal_form("ABC||!"), "A!B!C!&&");
    assert_eq!(nnf::negation_normal_form("AB^"), "AB!&A!B&|");
    assert_eq!(nnf::negation_normal_form("ABC&|!"), "A!B!C!|&");
}

#[test]
fn cnf_flattens_chains() {
    assert_eq!(cnf::conjunctive_normal_form("A"), "A");
    assert_eq!(cnf::conjunctive_normal_form("A!"), "A!");
    assert_eq!(cnf::conjunctive_normal_form("AB&!"), "A!B!|");
    assert_eq!(cnf::conjunctive_normal_form("AB|!"), "A!B!&");
    assert_eq!(cnf::conjunctive_normal_form("AB|C&"), "AB|C&");
    assert_eq!(cnf::conjunctive_normal_form("AB|C|D|"), "ABCD|||");
    assert_eq!(cnf::conjunctive_normal_form("AB&C&D&"), "ABCD&&&");
    assert_eq!(cnf::conjunctive_normal_form("AB&!C!|"), "A!B!C!||");
    assert_eq!(cnf::conjunctive_normal_form("AB|!C!&"), "A!B!C!&&");
    assert_eq!(cnf::conjunctive_normal_form("ABC||"), "ABC||");
    assert_eq!(cnf::conjunctive_normal_form("ABC||!"), "A!B!C!&&");
    assert_eq!(cnf::conjunctive_normal_form("ABC|&"), "ABC|&");
    assert_eq!(cnf::conjunctive_normal_form("ABC&|"), "ABC&|");
    assert_eq!(cnf::conjunctive_normal_form("ABC&|!"), "A!B!C!|&");
}

#[test]
fn conjunctive_normal_form_with_negation() {
    assert_eq!(rewrite::conjunctive_normal_form("AB&!"), "A!B!|");
    assert_eq!(rewrite::conjunctive_normal_form("AB|!"), "A!B!&");
}

#[test]
fn conjunctive_normal_form_with_or() {
    assert_eq!(rewrite::conjunctive_normal_form("AB|C&"), "AB|C&");
    assert_eq!(rewrite::conjunctive_normal_form("AB|C|D|"), "DCAB|||");
}

#[test]
fn conjunctive_normal_form_with_and() {
    assert_eq!(rewrite::conjunctive_normal_form("AB&C&D&"), "DCAB&&&");
}

#[test]
fn conjunctive_normal_form_hard_tests() {
    assert_eq!(rewrite::conjunctive_normal_form("AB&!C!|"), "C!A!B!||");
    assert_eq!(rewrite::conjunctive_normal_form("AB|!C!&"), "C!A!B!&&");
    assert_eq!(rewrite::conjunctive_normal_form("ABDE&|&"), "ABD|BE|&&");
}

#[test]
fn conjunctive_normal_form_unique() {
    assert_eq!(rewrite::conjunctive_normal_form("A"), "A");
    assert_eq!(rewrite::conjunctive_normal_form("A!"), "A!");
}

#[test]
fn conjuctive_normal_form_negation_normal_form_already_valid() {
    assert_eq!(rewrite::conjunctive_normal_form("AB|C&"), "AB|C&");
    assert_eq!(rewrite::conjunctive_normal_form("A!B|"), "A!B|");
    assert_eq!(rewrite::conjunctive_normal_form("AB!&"), "AB!&");
}

#[test]
fn negation_normal_form_with_negation() {
    assert_eq!(rewrite::negation_normal_form("AB|!"), "A!B!&");
    assert_eq!(rewrite::negation_normal_form("AB&!"), "A!B!|");
}

#[test]
fn negation_normal_form_with_material() {
    assert_eq!(rewrite::negation_normal_form("AB>"), "A!B|");
}

#[test]
fn negation_normal_form_with_equality() {
    assert_eq!(rewrite::negation_normal_form("AB="), "A!B|B!A|&");
}

#[test]
fn negation_normal_form_with_complex() {
    assert_eq!(rewrite::negation_normal_form("AB|C&!"), "A!B!&C!|");
}

#[test]
fn negation_normal_form_with_exclusive() {
    assert_eq!(rewrite::negation_normal_form("AB^"), "AB!&A!B&|");
}

#[test]
fn negation_normal_form_unique() {
    assert_eq!(rewrite::negation_normal_form("A"), "A");
    assert_eq!(rewrite::negation_normal_form("A!"), "A!");
}

#[test]
fn negation_normal_form_negation_normal_form_already_valid() {
    assert_eq!(rewrite::negation_normal_form("AB|C&"), "AB|C&");
    assert_eq!(rewrite::negation_normal_form("A!B|"), "A!B|");
    assert_eq!(rewrite::negation_normal_form("AB!&"), "AB!&");
}
