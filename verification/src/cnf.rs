//! Conjunctive-normal-form rewriting by flattening `|` and `&` chains.
//!
//! `|` and `&` spines are flattened into lists of their leaves and rebuilt
//! as right-leaning chains; other operators are normalised recursively and
//! kept in place.

use vstd::prelude::*;
use vstd::pervasive::unreached;
use crate::ast::ASTNode;
use crate::ast::ast_of;
use crate::ast::ast_to_postfix_string;
use crate::ast::clone_ast;
use crate::ast::get_ast;
use crate::ast::op2;
use crate::ast::postfix_str;
use crate::ast::valid_formula_chars;
use crate::boolean_evaluation::eval_env;
use crate::nnf::lemma_nnf_preserves_eval;
use crate::nnf::nnf;
use crate::nnf::nnf_neg;
use crate::nnf::nnf_pos;
use crate::truth_table::parsed_shape;

verus! {

/// The leaves of the `|` spine of a tree, left to right.
pub open spec fn or_leaves(t: ASTNode) -> Seq<ASTNode>
    decreases t,
{
    match t {
        ASTNode::Operator(op, l, ropt) => if op == '|' && ropt is Some {
            or_leaves(*l) + or_leaves(*ropt.unwrap())
        } else {
            seq![t]
        },
        _ => seq![t],
    }
}

/// The leaves of the `&` spine of a tree, left to right.
pub open spec fn and_leaves(t: ASTNode) -> Seq<ASTNode>
    decreases t,
{
    match t {
        ASTNode::Operator(op, l, ropt) => if op == '&' && ropt is Some {
            and_leaves(*l) + and_leaves(*ropt.unwrap())
        } else {
            seq![t]
        },
        _ => seq![t],
    }
}

/// Rebuilds a non-empty list of trees into a right-leaning `op` chain.
pub open spec fn rebuild(op: char, s: Seq<ASTNode>) -> ASTNode
    recommends
        s.len() >= 1,
    decreases s.len(),
{
    if s.len() <= 1 {
        s[0]
    } else {
        op2(op, s[0], rebuild(op, s.drop_first()))
    }
}

/// The number of nodes of a tree.
pub open spec fn ast_size(t: ASTNode) -> nat
    decreases t,
{
    match t {
        ASTNode::Operand(_) => 1,
        ASTNode::Operator(_, l, ropt) => 1 + ast_size(*l) + opt_ast_size(ropt),
    }
}

pub open spec fn opt_ast_size(ropt: Option<Box<ASTNode>>) -> nat
    decreases ropt,
{
    match ropt {
        Some(r) => ast_size(*r),
        None => 0,
    }
}

/// The conjunctive-normal-form pass over a tree.
pub open spec fn cnf_spec(t: ASTNode) -> ASTNode
    decreases ast_size(t), 0int,
{
    match t {
        ASTNode::Operand(_) => t,
        ASTNode::Operator(op, l, ropt) => {
            if op == '|' && ropt is Some {
                rebuild(
                    '|',
                    or_leaves(cnf_spec(*l)) + or_leaves(cnf_spec(*ropt.unwrap())),
                )
            } else if op == '&' {
                rebuild('&', and_leaves(cnf_spec(*l)) + cnf_and_rest(ropt))
            } else {
                let rc = match ropt {
                    Some(r) => Some(Box::new(cnf_spec(*r))),
                    None => None,
                };
                ASTNode::Operator(op, Box::new(cnf_spec(*l)), rc)
            }
        },
    }
}

/// The flattened right operand of an `&` node, if any.
pub open spec fn cnf_and_rest(ropt: Option<Box<ASTNode>>) -> Seq<ASTNode>
    decreases opt_ast_size(ropt), 1int,
{
    match ropt {
        Some(r) => and_leaves(cnf_spec(*r)),
        None => Seq::<ASTNode>::empty(),
    }
}

pub proof fn lemma_or_leaves_len(t: ASTNode)
    ensures
        or_leaves(t).len() >= 1,
    decreases t,
{
    match t {
        ASTNode::Operator(op, l, ropt) => if op == '|' && ropt is Some {
            lemma_or_leaves_len(*l);
        },
        _ => {},
    }
}

pub proof fn lemma_and_leaves_len(t: ASTNode)
    ensures
        and_leaves(t).len() >= 1,
    decreases t,
{
    match t {
        ASTNode::Operator(op, l, ropt) => if op == '&' && ropt is Some {
            lemma_and_leaves_len(*l);
        },
        _ => {},
    }
}

/// The disjunction of the values of a non-empty list of trees.
pub open spec fn fold_or(s: Seq<ASTNode>, m: Map<char, bool>) -> bool
    decreases s.len(),
{
    if s.len() <= 1 {
        eval_env(s[0], m)
    } else {
        eval_env(s[0], m) || fold_or(s.drop_first(), m)
    }
}

/// The conjunction of the values of a non-empty list of trees.
pub open spec fn fold_and(s: Seq<ASTNode>, m: Map<char, bool>) -> bool
    decreases s.len(),
{
    if s.len() <= 1 {
        eval_env(s[0], m)
    } else {
        eval_env(s[0], m) && fold_and(s.drop_first(), m)
    }
}

/// A rebuilt chain means the fold of its pieces.
proof fn lemma_rebuild_eval(op: char, s: Seq<ASTNode>, m: Map<char, bool>)
    requires
        s.len() >= 1,
        op == '|' || op == '&',
    ensures
        op == '|' ==> eval_env(rebuild(op, s), m) == fold_or(s, m),
        op == '&' ==> eval_env(rebuild(op, s), m) == fold_and(s, m),
    decreases s.len(),
{
    if s.len() > 1 {
        lemma_rebuild_eval(op, s.drop_first(), m);
    }
}

proof fn lemma_fold_concat(a: Seq<ASTNode>, b: Seq<ASTNode>, m: Map<char, bool>)
    requires
        a.len() >= 1,
        b.len() >= 1,
    ensures
        fold_or(a + b, m) == (fold_or(a, m) || fold_or(b, m)),
        fold_and(a + b, m) == (fold_and(a, m) && fold_and(b, m)),
    decreases a.len(),
{
    if a.len() == 1 {
        assert((a + b).drop_first() =~= b);
        assert((a + b)[0] == a[0]);
    } else {
        assert((a + b).drop_first() =~= a.drop_first() + b);
        assert((a + b)[0] == a[0]);
        lemma_fold_concat(a.drop_first(), b, m);
    }
}

/// The `|`-spine leaves of a tree disjoin to the tree's value, and the
/// `&`-spine leaves conjoin to it.
proof fn lemma_leaves_eval(t: ASTNode, m: Map<char, bool>)
    ensures
        fold_or(or_leaves(t), m) == eval_env(t, m),
        fold_and(and_leaves(t), m) == eval_env(t, m),
    decreases t,
{
    match t {
        ASTNode::Operator(op, l, ropt) => {
            match ropt {
                Some(r) => {
                    if op == '|' {
                        lemma_leaves_eval(*l, m);
                        lemma_leaves_eval(*r, m);
                        lemma_or_leaves_len(*l);
                        lemma_or_leaves_len(*r);
                        lemma_fold_concat(or_leaves(*l), or_leaves(*r), m);
                        assert(and_leaves(t) =~= seq![t]);
                    } else if op == '&' {
                        lemma_leaves_eval(*l, m);
                        lemma_leaves_eval(*r, m);
                        lemma_and_leaves_len(*l);
                        lemma_and_leaves_len(*r);
                        lemma_fold_concat(and_leaves(*l), and_leaves(*r), m);
                        assert(or_leaves(t) =~= seq![t]);
                    } else {
                        assert(or_leaves(t)[0] == t);
                        assert(and_leaves(t)[0] == t);
                    }
                },
                None => {
                    assert(or_leaves(t)[0] == t);
                    assert(and_leaves(t)[0] == t);
                },
            }
        },
        _ => {
            assert(or_leaves(t)[0] == t);
            assert(and_leaves(t)[0] == t);
        },
    }
}

/// Negation normalisation keeps the parsed shape.
pub proof fn lemma_nnf_preserves_shape(t: ASTNode)
    requires
        parsed_shape(t),
    ensures
        parsed_shape(nnf_pos(t)),
        parsed_shape(nnf_neg(t)),
    decreases t,
{
    match t {
        ASTNode::Operand(_) => {},
        ASTNode::Operator(op, l, ropt) => {
            lemma_nnf_preserves_shape(*l);
            match ropt {
                Some(r) => {
                    lemma_nnf_preserves_shape(*r);
                },
                None => {},
            }
        },
    }
}

/// The spine leaves of a parsed tree keep the parsed shape.
proof fn lemma_leaves_shape(t: ASTNode)
    requires
        parsed_shape(t),
    ensures
        forall|i: int| 0 <= i < or_leaves(t).len() ==> parsed_shape(#[trigger] or_leaves(t)[i]),
        forall|i: int| 0 <= i < and_leaves(t).len() ==> parsed_shape(#[trigger] and_leaves(t)[i]),
    decreases t,
{
    match t {
        ASTNode::Operator(op, l, ropt) => {
            match ropt {
                Some(r) => {
                    lemma_leaves_shape(*l);
                    lemma_leaves_shape(*r);
                    if op == '|' {
                        assert forall|i: int| 0 <= i < or_leaves(t).len() implies parsed_shape(
                            #[trigger] or_leaves(t)[i],
                        ) by {
                            if i < or_leaves(*l).len() {
                                assert(or_leaves(t)[i] == or_leaves(*l)[i]);
                            } else {
                                assert(or_leaves(t)[i] == or_leaves(*r)[i - or_leaves(*l).len()]);
                            }
                        }
                        assert(and_leaves(t)[0] == t);
                    } else if op == '&' {
                        assert forall|i: int| 0 <= i < and_leaves(t).len() implies parsed_shape(
                            #[trigger] and_leaves(t)[i],
                        ) by {
                            if i < and_leaves(*l).len() {
                                assert(and_leaves(t)[i] == and_leaves(*l)[i]);
                            } else {
                                assert(and_leaves(t)[i] == and_leaves(*r)[i - and_leaves(
                                    *l,
                                ).len()]);
                            }
                        }
                        assert(or_leaves(t)[0] == t);
                    } else {
                        assert(or_leaves(t)[0] == t);
                        assert(and_leaves(t)[0] == t);
                    }
                },
                None => {
                    assert(or_leaves(t)[0] == t);
                    assert(and_leaves(t)[0] == t);
                },
            }
        },
        _ => {
            assert(or_leaves(t)[0] == t);
            assert(and_leaves(t)[0] == t);
        },
    }
}

/// A chain rebuilt from parsed-shape pieces keeps the parsed shape.
proof fn lemma_rebuild_shape(op: char, s: Seq<ASTNode>)
    requires
        op == '&' || op == '|',
        s.len() >= 1,
        forall|i: int| 0 <= i < s.len() ==> parsed_shape(#[trigger] s[i]),
    ensures
        parsed_shape(rebuild(op, s)),
    decreases s.len(),
{
    if s.len() > 1 {
        assert(forall|i: int| 0 <= i < s.drop_first().len() ==> s.drop_first()[i] == s[i + 1]);
        lemma_rebuild_shape(op, s.drop_first());
    }
}

/// The CNF pass keeps the parsed shape.
pub proof fn lemma_cnf_preserves_shape(t: ASTNode)
    requires
        parsed_shape(t),
    ensures
        parsed_shape(cnf_spec(t)),
    decreases t,
{
    match t {
        ASTNode::Operand(_) => {},
        ASTNode::Operator(op, l, ropt) => {
            lemma_cnf_preserves_shape(*l);
            if op == '|' && ropt is Some {
                let r = *ropt.unwrap();
                lemma_cnf_preserves_shape(r);
                lemma_leaves_shape(cnf_spec(*l));
                lemma_leaves_shape(cnf_spec(r));
                lemma_or_leaves_len(cnf_spec(*l));
                lemma_rebuild_shape('|', or_leaves(cnf_spec(*l)) + or_leaves(cnf_spec(r)));
            } else if op == '&' {
                let r = *ropt.unwrap();
                lemma_cnf_preserves_shape(r);
                lemma_leaves_shape(cnf_spec(*l));
                lemma_leaves_shape(cnf_spec(r));
                lemma_and_leaves_len(cnf_spec(*l));
                lemma_rebuild_shape('&', and_leaves(cnf_spec(*l)) + cnf_and_rest(ropt));
            } else {
                match ropt {
                    Some(r) => {
                        lemma_cnf_preserves_shape(*r);
                    },
                    None => {},
                }
            }
        },
    }
}

/// The CNF pass preserves the meaning of a parsed tree under every
/// assignment.
pub proof fn lemma_cnf_preserves_eval(t: ASTNode, m: Map<char, bool>)
    requires
        parsed_shape(t),
    ensures
        eval_env(cnf_spec(t), m) == eval_env(t, m),
    decreases ast_size(t),
{
    match t {
        ASTNode::Operand(_) => {},
        ASTNode::Operator(op, l, ropt) => {
            lemma_operator_size(t, *l, ropt);
            lemma_cnf_preserves_eval(*l, m);
            if op == '|' && ropt is Some {
                let r = *ropt.unwrap();
                lemma_cnf_preserves_eval(r, m);
                lemma_leaves_eval(cnf_spec(*l), m);
                lemma_leaves_eval(cnf_spec(r), m);
                lemma_or_leaves_len(cnf_spec(*l));
                lemma_or_leaves_len(cnf_spec(r));
                lemma_fold_concat(or_leaves(cnf_spec(*l)), or_leaves(cnf_spec(r)), m);
                lemma_rebuild_eval('|', or_leaves(cnf_spec(*l)) + or_leaves(cnf_spec(r)), m);
            } else if op == '&' {
                let r = *ropt.unwrap();
                lemma_cnf_preserves_eval(r, m);
                lemma_leaves_eval(cnf_spec(*l), m);
                lemma_leaves_eval(cnf_spec(r), m);
                lemma_and_leaves_len(cnf_spec(*l));
                lemma_and_leaves_len(cnf_spec(r));
                lemma_fold_concat(and_leaves(cnf_spec(*l)), and_leaves(cnf_spec(r)), m);
                lemma_rebuild_eval('&', and_leaves(cnf_spec(*l)) + cnf_and_rest(ropt), m);
            } else {
                match ropt {
                    Some(r) => {
                        lemma_cnf_preserves_eval(*r, m);
                    },
                    None => {},
                }
            }
        },
    }
}

proof fn lemma_operator_size(t: ASTNode, l: ASTNode, ropt: Option<Box<ASTNode>>)
    requires
        t matches ASTNode::Operator(op, lb, rb) && *lb == l && rb == ropt,
    ensures
        ast_size(t) == 1 + ast_size(l) + opt_ast_size(ropt),
        ast_size(l) >= 1,
        ropt matches Some(r) ==> ast_size(*r) >= 1,
{
    lemma_ast_size_pos(l);
    match ropt {
        Some(r) => {
            lemma_ast_size_pos(*r);
        },
        None => {},
    }
}

proof fn lemma_ast_size_pos(t: ASTNode)
    ensures
        ast_size(t) >= 1,
    decreases t,
{
    match t {
        ASTNode::Operand(_) => {},
        ASTNode::Operator(_, l, ropt) => {
            lemma_ast_size_pos(*l);
        },
    }
}

/// Rewriting a parsed formula to negation normal form and then through
/// the CNF pass preserves its meaning under every assignment.
pub proof fn lemma_pipeline_preserves_eval(t: ASTNode, m: Map<char, bool>)
    requires
        parsed_shape(t),
    ensures
        eval_env(cnf_spec(nnf_pos(t)), m) == eval_env(t, m),
{
    lemma_nnf_preserves_shape(t);
    lemma_nnf_preserves_eval(t, m);
    lemma_cnf_preserves_eval(nnf_pos(t), m);
}

/// Appends the `|`-spine leaves of `ast` to `nodes`.
pub fn flatten_or(ast: &ASTNode, nodes: &mut Vec<ASTNode>)
    ensures
        final(nodes)@ == old(nodes)@ + or_leaves(*ast),
    decreases *ast,
{
    match ast {
        ASTNode::Operator(op, left, ropt) => {
            if *op == '|' && ropt.is_some() {
                let right: &Box<ASTNode> = match ropt {
                    Some(r) => r,
                    None => unreached(),
                };
                flatten_or(left, nodes);
                flatten_or(right, nodes);
                proof {
                    assert(nodes@ =~= old(nodes)@ + or_leaves(*ast));
                }
            } else {
                nodes.push(clone_ast(ast));
            }
        },
        _ => {
            nodes.push(clone_ast(ast));
        },
    }
}

/// Appends the `&`-spine leaves of `ast` to `nodes`.
pub fn flatten_and(ast: &ASTNode, nodes: &mut Vec<ASTNode>)
    ensures
        final(nodes)@ == old(nodes)@ + and_leaves(*ast),
    decreases *ast,
{
    match ast {
        ASTNode::Operator(op, left, ropt) => {
            if *op == '&' && ropt.is_some() {
                let right: &Box<ASTNode> = match ropt {
                    Some(r) => r,
                    None => unreached(),
                };
                flatten_and(left, nodes);
                flatten_and(right, nodes);
                proof {
                    assert(nodes@ =~= old(nodes)@ + and_leaves(*ast));
                }
            } else {
                nodes.push(clone_ast(ast));
            }
        },
        _ => {
            nodes.push(clone_ast(ast));
        },
    }
}

/// Rebuilds the collected leaves into a right-leaning chain of `op`.
fn rebuild_chain(op: char, flattened: &mut Vec<ASTNode>) -> (r: ASTNode)
    requires
        old(flattened)@.len() >= 1,
    ensures
        r == rebuild(op, old(flattened)@),
{
    let ghost s = flattened@;
    let mut current_ast = flattened.pop().unwrap();
    while flattened.len() > 0
        invariant
            flattened@ == s.take(flattened@.len() as int),
            flattened@.len() < s.len(),
            current_ast == rebuild(op, s.subrange(flattened@.len() as int, s.len() as int)),
        decreases flattened@.len(),
    {
        let next = flattened.pop().unwrap();
        let ghost k = flattened@.len() as int;
        current_ast = ASTNode::Operator(op, Box::new(next), Some(Box::new(current_ast)));
        proof {
            assert(flattened@ =~= s.take(k));
            assert(s.subrange(k, s.len() as int).drop_first() =~= s.subrange(
                k + 1,
                s.len() as int,
            ));
            assert(s.subrange(k, s.len() as int)[0] == s[k]);
        }
    }
    proof {
        assert(s.subrange(0, s.len() as int) =~= s);
    }
    current_ast
}

/// Flattens and rebuilds the `|` chain rooted at `left | right`.
pub fn cnf_or(left: &ASTNode, right: &ASTNode) -> (r: ASTNode)
    ensures
        r == rebuild('|', or_leaves(cnf_spec(*left)) + or_leaves(cnf_spec(*right))),
    decreases ast_size(*left) + ast_size(*right), 1int,
{
    let mut flattened_ors: Vec<ASTNode> = Vec::new();
    let cl = cnf(left);
    flatten_or(&cl, &mut flattened_ors);
    let cr = cnf(right);
    flatten_or(&cr, &mut flattened_ors);
    proof {
        lemma_or_leaves_len(cnf_spec(*left));
        assert(flattened_ors@ =~= or_leaves(cnf_spec(*left)) + or_leaves(cnf_spec(*right)));
    }
    rebuild_chain('|', &mut flattened_ors)
}

/// Flattens and rebuilds the `&` chain rooted at `left & right?`.
pub fn cnf_and(left: &ASTNode, right_opt: &Option<Box<ASTNode>>) -> (r: ASTNode)
    ensures
        r == rebuild('&', and_leaves(cnf_spec(*left)) + cnf_and_rest(*right_opt)),
    decreases ast_size(*left) + opt_ast_size(*right_opt), 1int,
{
    let mut flattened_ands: Vec<ASTNode> = Vec::new();
    let cl = cnf(left);
    flatten_and(&cl, &mut flattened_ands);
    if let Some(right_node) = right_opt {
        let cr = cnf(right_node);
        flatten_and(&cr, &mut flattened_ands);
    }
    proof {
        lemma_and_leaves_len(cnf_spec(*left));
        assert(flattened_ands@ =~= and_leaves(cnf_spec(*left)) + cnf_and_rest(*right_opt));
    }
    rebuild_chain('&', &mut flattened_ands)
}

/// The conjunctive-normal-form pass over a tree.
pub fn cnf(ast: &ASTNode) -> (r: ASTNode)
    ensures
        r == cnf_spec(*ast),
    decreases ast_size(*ast), 0int,
{
    match ast {
        ASTNode::Operand(c) => ASTNode::Operand(*c),
        ASTNode::Operator(op, left, ropt) => {
            if *op == '|' && ropt.is_some() {
                let right: &Box<ASTNode> = match ropt {
                    Some(r) => r,
                    None => unreached(),
                };
                proof {
                    assert(*ropt == Some(Box::new(**right)));
                    assert(opt_ast_size(*ropt) == ast_size(**right));
                    assert(ast_size(*ast) == 1 + ast_size(**left) + ast_size(**right));
                }
                cnf_or(left, right)
            } else if *op == '&' {
                cnf_and(left, ropt)
            } else {
                let rc: Option<Box<ASTNode>> = match ropt {
                    Some(r) => Some(Box::new(cnf(r))),
                    None => None,
                };
                ASTNode::Operator(*op, Box::new(cnf(left)), rc)
            }
        },
    }
}

/// Parses a formula, normalises negations, and renders its CNF rewriting.
pub fn conjunctive_normal_form(formula: &str) -> (r: String)
    requires
        valid_formula_chars(formula@),
        ast_of(formula@) is Ok,
    ensures
        r@ == postfix_str(cnf_spec(nnf_pos(ast_of(formula@).unwrap()))),
{
    let ast = match get_ast(formula) {
        Ok(ast) => ast,
        Err(_) => unreached(),
    };
    let nnf_ast = nnf(&ast);
    let cnf_ast = cnf(&nnf_ast);
    ast_to_postfix_string(&cnf_ast)
}

} // verus!
