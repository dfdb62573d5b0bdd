//! Negation normal form over the parsed syntax tree.
//!
//! Negations are pushed inwards with De Morgan's laws and double negations
//! are cancelled; every other operator is kept and normalised recursively.

use vstd::prelude::*;
use vstd::pervasive::unreached;
use crate::ast::ASTNode;
use crate::ast::clone_ast;
use crate::ast::ast_of;
use crate::ast::get_ast;
use crate::ast::op1;
use crate::ast::op2;
use crate::ast::postfix_str;
use crate::ast::ast_to_postfix_string;
use crate::ast::valid_formula_chars;
use crate::boolean_evaluation::eval_env;

verus! {

/// The negation normal form of a tree.
pub open spec fn nnf_pos(t: ASTNode) -> ASTNode
    decreases t, 0int,
{
    match t {
        ASTNode::Operand(_) => t,
        ASTNode::Operator(op, l, ropt) => {
            if op == '!' {
                nnf_neg(*l)
            } else {
                match ropt {
                    Some(r) => op2(op, nnf_pos(*l), nnf_pos(*r)),
                    None => t,
                }
            }
        },
    }
}

/// The negation normal form of the negation of a tree.
pub open spec fn nnf_neg(t: ASTNode) -> ASTNode
    decreases t, 1int,
{
    match t {
        ASTNode::Operator(op, l, ropt) => {
            if op == '!' {
                nnf_pos(*l)
            } else {
                match ropt {
                    Some(r) => {
                        if op == '&' {
                            op2('|', nnf_neg(*l), nnf_neg(*r))
                        } else if op == '|' {
                            op2('&', nnf_neg(*l), nnf_neg(*r))
                        } else {
                            op1('!', nnf_pos(t))
                        }
                    },
                    None => op1('!', nnf_pos(t)),
                }
            }
        },
        _ => op1('!', nnf_pos(t)),
    }
}

/// Negation normal form preserves the meaning of the formula: under any
/// assignment, the normalised tree has the formula's value and the
/// negatively normalised tree has its negation.
pub proof fn lemma_nnf_preserves_eval(t: ASTNode, m: Map<char, bool>)
    ensures
        eval_env(nnf_pos(t), m) == eval_env(t, m),
        eval_env(nnf_neg(t), m) == !eval_env(t, m),
    decreases t,
{
    match t {
        ASTNode::Operand(_) => {},
        ASTNode::Operator(op, l, ropt) => {
            lemma_nnf_preserves_eval(*l, m);
            match ropt {
                Some(r) => {
                    lemma_nnf_preserves_eval(*r, m);
                },
                None => {},
            }
        },
    }
}

/// Normalises the negation of `left`: cancels a double negation, pushes
/// the negation through `&` and `|`, and wraps anything else in `!`.
pub fn apply_de_morgan(left: &ASTNode) -> (res: ASTNode)
    ensures
        res == nnf_neg(*left),
    decreases *left, 1int,
{
    match left {
        ASTNode::Operator(op, inner, ropt) => {
            if *op == '!' {
                nnf(inner)
            } else {
                match ropt {
                    Some(right_inner) => {
                        if *op == '&' {
                            let nl = apply_de_morgan(inner);
                            let nr = apply_de_morgan(right_inner);
                            ASTNode::Operator('|', Box::new(nl), Some(Box::new(nr)))
                        } else if *op == '|' {
                            let nl = apply_de_morgan(inner);
                            let nr = apply_de_morgan(right_inner);
                            ASTNode::Operator('&', Box::new(nl), Some(Box::new(nr)))
                        } else {
                            ASTNode::Operator('!', Box::new(nnf(left)), None)
                        }
                    },
                    None => ASTNode::Operator('!', Box::new(nnf(left)), None),
                }
            }
        },
        _ => ASTNode::Operator('!', Box::new(nnf(left)), None),
    }
}

/// Normalises both operands underneath a kept binary operator.
pub fn apply_operator(op: char, left: &ASTNode, right: &ASTNode) -> (res: ASTNode)
    ensures
        res == op2(op, nnf_pos(*left), nnf_pos(*right)),
{
    let nl = nnf(left);
    let nr = nnf(right);
    ASTNode::Operator(op, Box::new(nl), Some(Box::new(nr)))
}

/// The negation normal form of a tree.
pub fn nnf(ast: &ASTNode) -> (res: ASTNode)
    ensures
        res == nnf_pos(*ast),
    decreases *ast, 0int,
{
    match ast {
        ASTNode::Operand(c) => ASTNode::Operand(*c),
        ASTNode::Operator(op, left, ropt) => {
            if *op == '!' {
                apply_de_morgan(left)
            } else {
                match ropt {
                    Some(right) => {
                        let nl = nnf(left);
                        let nr = nnf(right);
                        ASTNode::Operator(*op, Box::new(nl), Some(Box::new(nr)))
                    },
                    None => ASTNode::Operator(*op, Box::new(clone_ast(left)), None),
                }
            }
        },
    }
}

/// Parses a postfix formula and renders its negation normal form.
pub fn negation_normal_form(formula: &str) -> (r: String)
    requires
        valid_formula_chars(formula@),
        ast_of(formula@) is Ok,
    ensures
        r@ == postfix_str(nnf_pos(ast_of(formula@).unwrap())),
{
    let ast = match get_ast(formula) {
        Ok(ast) => ast,
        Err(_) => unreached(),
    };
    let nnf_ast = nnf(&ast);
    ast_to_postfix_string(&nnf_ast)
}

} // verus!
