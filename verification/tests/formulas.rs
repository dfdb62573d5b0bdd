use boolalg::ast::ast_to_infix_string;
use boolalg::ast::ast_to_postfix_string;
use boolalg::ast::get_ast;
use boolalg::boolean_evaluation;
use boolalg::rpn_eval;
use boolalg::sat::sat;
use boolalg::truth_table::generate_truth_table;

#[test]
fn test_eval_formula() {
    assert_eq!(boolean_evaluation::eval_formula("10&"), false);
    assert_eq!(boolean_evaluation::eval_formula("10|"), true);
    assert_eq!(boolean_evaluation::eval_formula("11>"), true);
    assert_eq!(boolean_evaluation::eval_formula("10="), false);
    assert_eq!(boolean_evaluation::eval_formula("1011||="), true);
}

#[test]
fn eval_formula_test_eval_formula() {
    assert!(!rpn_eval::eval_formula("10&"));
    assert!(rpn_eval::eval_formula("10|"));
    assert!(rpn_eval::eval_formula("101|&"));
    assert!(rpn_eval::eval_formula("1011||="));
    assert!(!rpn_eval::eval_formula("010&1|&"));
    assert!(!rpn_eval::eval_formula("1!"));

    assert!(!rpn_eval::eval_formula("10>"));
    assert!(rpn_eval::eval_formula("11>"));
    assert!(rpn_eval::eval_formula("01>"));

    assert!(rpn_eval::eval_formula("11="));
    assert!(!rpn_eval::eval_formula("01="));

    assert!(!rpn_eval::eval_formula("11^"));
    assert!(rpn_eval::eval_formula("10^"));
}

#[test]
fn test_truth_table() {
    let res = generate_truth_table("AB&C|").unwrap();
    assert_eq!(
        res,
        "| A | B | C | = |\n|---|---|---|---|\n| 0 | 0 | 0 | 0 |\n| 0 | 0 | 1 | 1 |\n| 0 | 1 | 0 | 0 |\n| 0 | 1 | 1 | 1 |\n| 1 | 0 | 0 | 0 |\n| 1 | 0 | 1 | 1 |\n| 1 | 1 | 0 | 1 |\n| 1 | 1 | 1 | 1 |\n"
    );

    assert!(generate_truth_table("AB&C|&").is_err());

    let res = generate_truth_table("A!").unwrap();
    assert_eq!(res, "| A | = |\n|---|---|\n| 0 | 1 |\n| 1 | 0 |\n");

    let res = generate_truth_table("A").unwrap();
    assert_eq!(res, "| A | = |\n|---|---|\n| 0 | 0 |\n| 1 | 1 |\n");

    let res = generate_truth_table("AB|").unwrap();
    assert_eq!(
        res,
        "| A | B | = |\n|---|---|---|\n| 0 | 0 | 0 |\n| 0 | 1 | 1 |\n| 1 | 0 | 1 |\n| 1 | 1 | 1 |\n"
    );

    let res = generate_truth_table("AB&").unwrap();
    assert_eq!(
        res,
        "| A | B | = |\n|---|---|---|\n| 0 | 0 | 0 |\n| 0 | 1 | 0 |\n| 1 | 0 | 0 |\n| 1 | 1 | 1 |\n"
    );

    let res = generate_truth_table("AB^").unwrap();
    assert_eq!(
        res,
        "| A | B | = |\n|---|---|---|\n| 0 | 0 | 0 |\n| 0 | 1 | 1 |\n| 1 | 0 | 1 |\n| 1 | 1 | 0 |\n"
    );

    let res = generate_truth_table("AB>").unwrap();
    assert_eq!(
        res,
        "| A | B | = |\n|---|---|---|\n| 0 | 0 | 1 |\n| 0 | 1 | 1 |\n| 1 | 0 | 0 |\n| 1 | 1 | 1 |\n"
    );

    let res = generate_truth_table("AB=").unwrap();
    assert_eq!(
        res,
        "| A | B | = |\n|---|---|---|\n| 0 | 0 | 1 |\n| 0 | 1 | 0 |\n| 1 | 0 | 0 |\n| 1 | 1 | 1 |\n"
    );

    let res = generate_truth_table("AA=").unwrap();
    assert_eq!(res, "| A | = |\n|---|---|\n| 0 | 1 |\n| 1 | 1 |\n");

    let res = generate_truth_table("ABC==").unwrap();
    assert_eq!(
        res,
        "| A | B | C | = |\n|---|---|---|---|\n| 0 | 0 | 0 | 0 |\n| 0 | 0 | 1 | 1 |\n| 0 | 1 | 0 | 1 |\n| 0 | 1 | 1 | 0 |\n| 1 | 0 | 0 | 1 |\n| 1 | 0 | 1 | 0 |\n| 1 | 1 | 0 | 0 |\n| 1 | 1 | 1 | 1 |\n"
    );

    let res = generate_truth_table("AB>C>").unwrap();
    assert_eq!(
        res,
        "| A | B | C | = |\n|---|---|---|---|\n| 0 | 0 | 0 | 0 |\n| 0 | 0 | 1 | 1 |\n| 0 | 1 | 0 | 0 |\n| 0 | 1 | 1 | 1 |\n| 1 | 0 | 0 | 1 |\n| 1 | 0 | 1 | 1 |\n| 1 | 1 | 0 | 0 |\n| 1 | 1 | 1 | 1 |\n"
    );

    let res = generate_truth_table("AB>A>A>").unwrap();
    assert_eq!(
        res,
        "| A | B | = |\n|---|---|---|\n| 0 | 0 | 1 |\n| 0 | 1 | 1 |\n| 1 | 0 | 1 |\n| 1 | 1 | 1 |\n"
    );
}

#[test]
fn test_sat() {
    assert_eq!(sat("A"), true);
    assert_eq!(sat("A!"), true);
    assert_eq!(sat("AA|"), true);
    assert_eq!(sat("AA&"), true);
    assert_eq!(sat("AA!&"), false);
    assert_eq!(sat("AA^"), false);
    assert_eq!(sat("AB^"), true);
    assert_eq!(sat("AB="), true);
    assert_eq!(sat("AA>"), true);
    assert_eq!(sat("AA!>"), true);
    assert_eq!(sat("ABC||"), true);
    assert_eq!(sat("AB&A!B!&&"), false);
    assert_eq!(sat("ABCDE&&&&"), true);
    assert_eq!(sat("AAA^^"), true);
    assert_eq!(sat("ABCDE^^^^"), true);

    assert_eq!(sat("AB|"), true);
}

#[test]
fn sat_reads_unknown_operands_as_false() {
    assert_eq!(sat("1"), false);
    assert_eq!(sat("0A|"), true);
}

#[test]
fn checked_eval_reports_malformed_formulas() {
    assert!(rpn_eval::checked_eval_formula("").is_err());
    assert!(rpn_eval::checked_eval_formula("1&").is_err());
    assert!(rpn_eval::checked_eval_formula("!").is_err());
    assert!(rpn_eval::checked_eval_formula("12").is_err());
    assert!(rpn_eval::checked_eval_formula("11").is_err());
    assert_eq!(rpn_eval::checked_eval_formula("01|").unwrap(), true);
}

#[test]
fn infix_rendering_respects_precedence() {
    let ast = get_ast("AB&C|").unwrap();
    assert_eq!(ast_to_postfix_string(&ast), "AB&C|");
    assert_eq!(ast_to_infix_string(&ast), "A & B | C");
    let ast = get_ast("AB|C&").unwrap();
    assert_eq!(ast_to_infix_string(&ast), "(A | B) & C");
    let ast = get_ast("A!").unwrap();
    assert_eq!(ast_to_infix_string(&ast), "!A");
}
