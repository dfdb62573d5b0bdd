//! Evaluation of constant postfix boolean formulas through the syntax tree.

use vstd::prelude::*;
use crate::ast::ASTNode;
use crate::ast::ParseError;
use crate::ast::ast_of;
use crate::ast::get_ast;
use crate::ast::valid_formula_chars;

verus! {

pub open spec fn is_binary_op(op: char) -> bool {
    op == '&' || op == '|' || op == '^' || op == '>' || op == '='
}

/// The truth table of one operator application.
pub open spec fn spec_calculate(op: char, left_val: bool, right_val: bool) -> bool {
    if op == '&' {
        left_val && right_val
    } else if op == '|' {
        left_val || right_val
    } else if op == '^' {
        left_val != right_val
    } else if op == '!' {
        !left_val
    } else if op == '>' {
        !left_val || right_val
    } else if op == '=' {
        left_val == right_val
    } else {
        false
    }
}

/// A tree the evaluator accepts: constants at the leaves, `!` ignoring its
/// right slot, and binary operators carrying both operands.
pub open spec fn wf_const(t: ASTNode) -> bool
    decreases t,
{
    match t {
        ASTNode::Operand(c) => c == '0' || c == '1',
        ASTNode::Operator(op, l, ropt) => {
            if op == '!' {
                wf_const(*l)
            } else {
                is_binary_op(op) && match ropt {
                    Some(r) => wf_const(*l) && wf_const(*r),
                    None => false,
                }
            }
        },
    }
}

/// The boolean value of a constant tree.
pub open spec fn eval_const(t: ASTNode) -> bool
    decreases t,
{
    match t {
        ASTNode::Operand(c) => c == '1',
        ASTNode::Operator(op, l, ropt) => {
            if op == '!' {
                !eval_const(*l)
            } else {
                match ropt {
                    Some(r) => spec_calculate(op, eval_const(*l), eval_const(*r)),
                    None => false,
                }
            }
        },
    }
}

/// How an assignment reads a character: absent characters are false.
pub open spec fn env_val(m: Map<char, bool>, c: char) -> bool {
    m.dom().contains(c) && m[c]
}

/// The boolean value of a tree under an assignment of its variables:
/// `0` and `1` are constants, and any other operand reads from the
/// assignment.
pub open spec fn eval_env(t: ASTNode, m: Map<char, bool>) -> bool
    decreases t,
{
    match t {
        ASTNode::Operand(c) => if c == '0' {
            false
        } else if c == '1' {
            true
        } else {
            env_val(m, c)
        },
        ASTNode::Operator(op, l, ropt) => {
            if op == '!' {
                !eval_env(*l, m)
            } else {
                match ropt {
                    Some(r) => spec_calculate(op, eval_env(*l, m), eval_env(*r, m)),
                    None => false,
                }
            }
        },
    }
}

/// A constant formula has the same value under every assignment.
pub proof fn lemma_eval_const_env(t: ASTNode, m: Map<char, bool>)
    requires
        wf_const(t),
    ensures
        eval_env(t, m) == eval_const(t),
    decreases t,
{
    match t {
        ASTNode::Operand(_) => {},
        ASTNode::Operator(op, l, ropt) => {
            lemma_eval_const_env(*l, m);
            if op != '!' {
                match ropt {
                    Some(r) => {
                        lemma_eval_const_env(*r, m);
                    },
                    None => {},
                }
            }
        },
    }
}

/// Applies one boolean operator.
pub fn calculate(op: char, left_val: bool, right_val: bool) -> (r: bool)
    requires
        op == '&' || op == '|' || op == '^' || op == '!' || op == '>' || op == '=',
    ensures
        r == spec_calculate(op, left_val, right_val),
{
    if op == '&' {
        left_val && right_val
    } else if op == '|' {
        left_val || right_val
    } else if op == '^' {
        left_val ^ right_val
    } else if op == '!' {
        !left_val
    } else if op == '>' {
        !left_val || right_val
    } else {
        left_val == right_val
    }
}

/// Evaluates a constant tree.
pub fn evaluate_ast(node: &ASTNode) -> (r: bool)
    requires
        wf_const(*node),
    ensures
        r == eval_const(*node),
    decreases *node,
{
    match node {
        ASTNode::Operand(c) => *c == '1',
        ASTNode::Operator(op, left, right_opt) => {
            if *op == '!' {
                let val = evaluate_ast(left);
                !val
            } else {
                let left_val = evaluate_ast(left);
                let right_val = match right_opt {
                    Some(right) => evaluate_ast(right),
                    None => false,
                };
                calculate(*op, left_val, right_val)
            }
        },
    }
}

/// Parses and evaluates a constant formula, reporting parse failures.
pub fn check_eval_formula(formula: &str) -> (r: Result<bool, ParseError>)
    requires
        valid_formula_chars(formula@),
        ast_of(formula@) matches Ok(t) ==> wf_const(t),
    ensures
        r == match ast_of(formula@) {
            Ok(t) => Ok::<bool, ParseError>(eval_const(t)),
            Err(e) => Err::<bool, ParseError>(e),
        },
{
    match get_ast(formula) {
        Ok(ast) => Ok(evaluate_ast(&ast)),
        Err(e) => Err(e),
    }
}

/// Parses and evaluates a constant formula, which must be valid.
pub fn eval_formula(formula: &str) -> (r: bool)
    requires
        valid_formula_chars(formula@),
        ast_of(formula@) is Ok,
        wf_const(ast_of(formula@).unwrap()),
    ensures
        r == eval_const(ast_of(formula@).unwrap()),
{
    check_eval_formula(formula).unwrap()
}

} // verus!
