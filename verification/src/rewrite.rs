//! Rewrite-rule normal forms over a postfix-parsed formula tree.
//!
//! `AstNode` is a binary tree whose `item` is either an operator character
//! (`!`, `&`, `|`, `^`, `>`, `=`) or an operand character.  A formula in
//! reverse Polish notation is parsed from the end of its character list.
//! `negation_normal_form` removes `^`, `>` and `=` and pushes negations
//! down to the leaves; `conjunctive_normal_form` additionally applies one
//! round of distribution of `|` over `&` and a child-swapping
//! normalisation of associative chains.

use vstd::prelude::*;
use crate::strutil::contains_char;
use crate::strutil::push_char;
use crate::strutil::str_chars;
use vstd::string::StringExecFns;

verus! {

pub struct AstNode {
    pub item: char,
    pub left_leaf: Option<Box<AstNode>>,
    pub right_leaf: Option<Box<AstNode>>,
}

pub open spec fn is_operator_char(c: char) -> bool {
    c == '!' || c == '&' || c == '|' || c == '^' || c == '>' || c == '='
}

pub open spec fn leaf_spec(c: char) -> AstNode {
    AstNode { item: c, left_leaf: None, right_leaf: None }
}

pub open spec fn unary_spec(c: char, l: AstNode) -> AstNode {
    AstNode { item: c, left_leaf: Some(Box::new(l)), right_leaf: None }
}

pub open spec fn binary_spec(c: char, l: AstNode, r: AstNode) -> AstNode {
    AstNode { item: c, left_leaf: Some(Box::new(l)), right_leaf: Some(Box::new(r)) }
}

/// Well-formedness: `!` has exactly a left child, the binary operators have
/// both children, and operands are childless leaves.
pub open spec fn wf(t: AstNode) -> bool
    decreases t,
{
    if t.item == '!' {
        match (t.left_leaf, t.right_leaf) {
            (Some(l), None) => wf(*l),
            _ => false,
        }
    } else if is_operator_char(t.item) {
        match (t.left_leaf, t.right_leaf) {
            (Some(l), Some(r)) => wf(*l) && wf(*r),
            _ => false,
        }
    } else {
        t.left_leaf is None && t.right_leaf is None
    }
}

/// Parsing a postfix formula from the end of `s`: the parsed tree plus the
/// unread prefix.  The inner length guard never bites (a parse consumes at
/// least one character, see `lemma_parse_consumes`); it is only there to
/// give the recursion an obvious measure.
pub open spec fn parse_spec(s: Seq<char>) -> Option<(AstNode, Seq<char>)>
    decreases s.len(),
{
    if s.len() == 0 {
        None
    } else {
        let c = s.last();
        let rest = s.drop_last();
        if !is_operator_char(c) {
            Some((leaf_spec(c), rest))
        } else if c == '!' {
            match parse_spec(rest) {
                Some(p) => Some((unary_spec('!', p.0), p.1)),
                None => None,
            }
        } else {
            match parse_spec(rest) {
                Some(p) => if p.1.len() < s.len() {
                    match parse_spec(p.1) {
                        Some(q) => Some((binary_spec(c, q.0, p.0), q.1)),
                        None => None,
                    }
                } else {
                    None
                },
                None => None,
            }
        }
    }
}

/// A successful parse consumes at least one character.
pub proof fn lemma_parse_consumes(s: Seq<char>)
    ensures
        parse_spec(s) matches Some(p) ==> p.1.len() < s.len(),
    decreases s.len(),
{
    if s.len() > 0 {
        let rest = s.drop_last();
        lemma_parse_consumes(rest);
        if parse_spec(rest) is Some {
            lemma_parse_consumes(parse_spec(rest).unwrap().1);
        }
    }
}

/// A successful parse yields a well-formed tree.
pub proof fn lemma_parse_wf(s: Seq<char>)
    ensures
        parse_spec(s) matches Some(p) ==> wf(p.0),
    decreases s.len(),
{
    if s.len() > 0 {
        let rest = s.drop_last();
        lemma_parse_consumes(rest);
        lemma_parse_wf(rest);
        if parse_spec(rest) is Some {
            lemma_parse_wf(parse_spec(rest).unwrap().1);
        }
    }
}

/// The postfix rendering of a tree: left subtree, right subtree, own item.
pub open spec fn stringify_spec(t: AstNode) -> Seq<char>
    decreases t,
{
    (match t.left_leaf {
        Some(l) => stringify_spec(*l),
        None => Seq::<char>::empty(),
    }) + (match t.right_leaf {
        Some(r) => stringify_spec(*r),
        None => Seq::<char>::empty(),
    }) + seq![t.item]
}

/// The negation of an already normalised tree: De Morgan through `&` and
/// `|`, a plain `!` on anything else (double negations are kept).
pub open spec fn app_not_spec(t: AstNode) -> AstNode
    decreases t,
{
    match (t.left_leaf, t.right_leaf) {
        (Some(l), Some(r)) => {
            if t.item == '&' {
                binary_spec('|', app_not_spec(*l), app_not_spec(*r))
            } else if t.item == '|' {
                binary_spec('&', app_not_spec(*l), app_not_spec(*r))
            } else {
                unary_spec('!', t)
            }
        },
        _ => unary_spec('!', t),
    }
}

/// Negation normal form: children first, then the operator of the node is
/// eliminated (`>`, `=`, `^`) or pushed down (`!` over `&`/`|`).
pub open spec fn nn_spec(t: AstNode) -> AstNode
    decreases t,
{
    if t.item == '!' {
        match t.left_leaf {
            Some(l) => app_not_spec(nn_spec(*l)),
            None => t,
        }
    } else if is_operator_char(t.item) {
        match (t.left_leaf, t.right_leaf) {
            (Some(l), Some(r)) => {
                let a = nn_spec(*l);
                let b = nn_spec(*r);
                if t.item == '&' || t.item == '|' {
                    binary_spec(t.item, a, b)
                } else if t.item == '>' {
                    binary_spec('|', app_not_spec(a), b)
                } else if t.item == '=' {
                    binary_spec(
                        '&',
                        binary_spec('|', app_not_spec(a), b),
                        binary_spec('|', app_not_spec(b), a),
                    )
                } else {
                    binary_spec(
                        '|',
                        binary_spec('&', a, app_not_spec(b)),
                        binary_spec('&', app_not_spec(a), b),
                    )
                }
            },
            _ => t,
        }
    } else {
        t
    }
}

pub open spec fn ascii_alphanumeric_spec(c: char) -> bool {
    (48 <= c as u32 && c as u32 <= 57) || (65 <= c as u32 && c as u32 <= 90) || (97 <= c as u32
        && c as u32 <= 122)
}

/// A `|` node whose left or right child is an `&` (with at least one child
/// being an `&`/`|` chain) calls for one distribution step.
pub open spec fn needs_distribution(t: AstNode) -> bool {
    t.item == '|' && match (t.left_leaf, t.right_leaf) {
        (Some(l), Some(r)) => (r.item == '&' || l.item == '&') && (r.item == '&' || r.item == '|'
            || l.item == '&' || l.item == '|'),
        _ => false,
    }
}

/// One distribution step: `x | r` becomes `(x | r.left) & (x | r.right)`.
pub open spec fn distribute_spec(t: AstNode) -> AstNode {
    match (t.left_leaf, t.right_leaf) {
        (Some(x), Some(r)) => AstNode {
            item: '&',
            left_leaf: Some(
                Box::new(AstNode { item: '|', left_leaf: Some(x), right_leaf: r.left_leaf }),
            ),
            right_leaf: Some(
                Box::new(AstNode { item: '|', left_leaf: Some(x), right_leaf: r.right_leaf }),
            ),
        },
        _ => t,
    }
}

/// An associative chain hanging off the left child is swapped to the right
/// when the right child is a `!` or a single operand.
pub open spec fn swap_cond(t: AstNode) -> bool {
    &&& t.item == '&' || t.item == '|'
    &&& match t.left_leaf {
        Some(l) => l.item == t.item,
        None => false,
    }
    &&& match t.right_leaf {
        Some(r) => r.item == '!' || ascii_alphanumeric_spec(r.item),
        None => false,
    }
}

pub open spec fn swap_spec(t: AstNode) -> AstNode {
    AstNode { item: t.item, left_leaf: t.right_leaf, right_leaf: t.left_leaf }
}

/// The conjunctive-normal-form pass: children first, then one distribution
/// step where called for, then the chain swap.
pub open spec fn cnf_spec(t: AstNode) -> AstNode
    decreases t,
{
    let t1 = AstNode {
        item: t.item,
        left_leaf: match t.left_leaf {
            Some(l) => Some(Box::new(cnf_spec(*l))),
            None => None,
        },
        right_leaf: match t.right_leaf {
            Some(r) => Some(Box::new(cnf_spec(*r))),
            None => None,
        },
    };
    let t2 = if needs_distribution(t1) {
        distribute_spec(t1)
    } else {
        t1
    };
    if swap_cond(t2) {
        swap_spec(t2)
    } else {
        t2
    }
}

/// The boolean value of a tree under an assignment: operands read from
/// the assignment (absent ones as false), operators apply their truth
/// tables.
pub open spec fn eval_rw(t: AstNode, m: Map<char, bool>) -> bool
    decreases t,
{
    if t.item == '!' {
        match t.left_leaf {
            Some(l) => !eval_rw(*l, m),
            None => false,
        }
    } else if is_operator_char(t.item) {
        match (t.left_leaf, t.right_leaf) {
            (Some(l), Some(r)) => crate::boolean_evaluation::spec_calculate(
                t.item,
                eval_rw(*l, m),
                eval_rw(*r, m),
            ),
            _ => false,
        }
    } else {
        m.dom().contains(t.item) && m[t.item]
    }
}

/// The normal form preserves the meaning of the formula, and negating a
/// tree negates its value, under every assignment.
pub proof fn lemma_rewrite_nnf_preserves_eval(t: AstNode, m: Map<char, bool>)
    ensures
        eval_rw(nn_spec(t), m) == eval_rw(t, m),
        eval_rw(app_not_spec(t), m) == !eval_rw(t, m),
    decreases t,
{
    match (t.left_leaf, t.right_leaf) {
        (Some(l), Some(r)) => {
            lemma_rewrite_nnf_preserves_eval(*l, m);
            lemma_rewrite_nnf_preserves_eval(*r, m);
            if t.item == '!' {
                lemma_app_not_eval(nn_spec(*l), m);
            } else if is_operator_char(t.item) {
                let a = nn_spec(*l);
                let b = nn_spec(*r);
                lemma_app_not_eval(a, m);
                lemma_app_not_eval(b, m);
                if t.item == '=' {
                    assert(eval_rw(binary_spec('|', app_not_spec(a), b), m) == (!eval_rw(a, m)
                        || eval_rw(b, m)));
                    assert(eval_rw(binary_spec('|', app_not_spec(b), a), m) == (!eval_rw(b, m)
                        || eval_rw(a, m)));
                } else if t.item == '^' {
                    assert(eval_rw(binary_spec('&', a, app_not_spec(b)), m) == (eval_rw(a, m)
                        && !eval_rw(b, m)));
                    assert(eval_rw(binary_spec('&', app_not_spec(a), b), m) == (!eval_rw(a, m)
                        && eval_rw(b, m)));
                }
            }
        },
        (Some(l), None) => {
            lemma_rewrite_nnf_preserves_eval(*l, m);
            if t.item == '!' {
                lemma_app_not_eval(nn_spec(*l), m);
            }
        },
        _ => {},
    }
}

/// Negation through `app_not_spec` always flips the value.
pub proof fn lemma_app_not_eval(t: AstNode, m: Map<char, bool>)
    ensures
        eval_rw(app_not_spec(t), m) == !eval_rw(t, m),
    decreases t,
{
    match (t.left_leaf, t.right_leaf) {
        (Some(l), Some(r)) => {
            if t.item == '&' || t.item == '|' {
                lemma_app_not_eval(*l, m);
                lemma_app_not_eval(*r, m);
            }
        },
        _ => {},
    }
}

/// Distributing `|` over a well-formed `&` on the right keeps the
/// tree's meaning.
pub proof fn lemma_distribute_eval(t: AstNode, m: Map<char, bool>)
    requires
        t.item == '|',
        t.left_leaf is Some,
        t.right_leaf matches Some(r) && r.item == '&' && r.left_leaf is Some && r.right_leaf
            is Some,
    ensures
        eval_rw(distribute_spec(t), m) == eval_rw(t, m),
{
    match (t.left_leaf, t.right_leaf) {
        (Some(x), Some(r)) => {
            match (r.left_leaf, r.right_leaf) {
                (Some(a), Some(b)) => {
                    let ex = eval_rw(*x, m);
                    let ea = eval_rw(*a, m);
                    let eb = eval_rw(*b, m);
                    assert(eval_rw(
                        AstNode { item: '|', left_leaf: Some(x), right_leaf: r.left_leaf },
                        m,
                    ) == (ex || ea));
                    assert(eval_rw(
                        AstNode { item: '|', left_leaf: Some(x), right_leaf: r.right_leaf },
                        m,
                    ) == (ex || eb));
                    assert(eval_rw(*r, m) == (ea && eb));
                },
                _ => {},
            }
        },
        _ => {},
    }
}

/// What a tree in negation normal form looks like: `&`/`|` over normal
/// children, and negations only as chains over single operands.
pub open spec fn nnf_shape(t: AstNode) -> bool
    decreases t,
{
    if t.item == '&' || t.item == '|' {
        match (t.left_leaf, t.right_leaf) {
            (Some(l), Some(r)) => nnf_shape(*l) && nnf_shape(*r),
            _ => false,
        }
    } else if t.item == '!' {
        match (t.left_leaf, t.right_leaf) {
            (Some(l), None) => bang_chain(*l),
            _ => false,
        }
    } else {
        t.left_leaf is None && t.right_leaf is None && !is_operator_char(t.item)
    }
}

/// A chain of `!` ending in a single operand.
pub open spec fn bang_chain(t: AstNode) -> bool
    decreases t,
{
    if t.item == '!' {
        match (t.left_leaf, t.right_leaf) {
            (Some(l), None) => bang_chain(*l),
            _ => false,
        }
    } else {
        t.left_leaf is None && t.right_leaf is None && !is_operator_char(t.item)
    }
}

/// Normalising a well-formed tree puts it into negation normal form.
pub proof fn lemma_nn_shape(t: AstNode)
    requires
        wf(t),
    ensures
        nnf_shape(nn_spec(t)),
    decreases t,
{
    if t.item == '!' {
        match t.left_leaf {
            Some(l) => {
                lemma_nn_shape(*l);
                lemma_app_not_shape(nn_spec(*l));
            },
            None => {},
        }
    } else if is_operator_char(t.item) {
        match (t.left_leaf, t.right_leaf) {
            (Some(l), Some(r)) => {
                lemma_nn_shape(*l);
                lemma_nn_shape(*r);
                lemma_app_not_shape(nn_spec(*l));
                lemma_app_not_shape(nn_spec(*r));
                let a = nn_spec(*l);
                let b = nn_spec(*r);
                if t.item == '=' {
                    assert(nnf_shape(binary_spec('|', app_not_spec(a), b)));
                    assert(nnf_shape(binary_spec('|', app_not_spec(b), a)));
                } else if t.item == '^' {
                    assert(nnf_shape(binary_spec('&', a, app_not_spec(b))));
                    assert(nnf_shape(binary_spec('&', app_not_spec(a), b)));
                }
            },
            _ => {},
        }
    }
}

/// Negating a tree in normal form keeps it in normal form.
pub proof fn lemma_app_not_shape(t: AstNode)
    requires
        nnf_shape(t),
    ensures
        nnf_shape(app_not_spec(t)),
    decreases t,
{
    match (t.left_leaf, t.right_leaf) {
        (Some(l), Some(r)) => {
            if t.item == '&' || t.item == '|' {
                lemma_app_not_shape(*l);
                lemma_app_not_shape(*r);
            }
        },
        _ => {},
    }
}

/// Negating a well-formed tree yields a well-formed tree.
pub proof fn lemma_app_not_wf(t: AstNode)
    requires
        wf(t),
    ensures
        wf(app_not_spec(t)),
    decreases t,
{
    match (t.left_leaf, t.right_leaf) {
        (Some(l), Some(r)) => {
            if t.item == '&' || t.item == '|' {
                lemma_app_not_wf(*l);
                lemma_app_not_wf(*r);
            }
        },
        _ => {},
    }
}

/// Normalising a well-formed tree yields a well-formed tree.
pub proof fn lemma_nn_wf(t: AstNode)
    requires
        wf(t),
    ensures
        wf(nn_spec(t)),
    decreases t,
{
    if t.item == '!' {
        match t.left_leaf {
            Some(l) => {
                lemma_nn_wf(*l);
                lemma_app_not_wf(nn_spec(*l));
            },
            None => {},
        }
    } else if is_operator_char(t.item) {
        match (t.left_leaf, t.right_leaf) {
            (Some(l), Some(r)) => {
                lemma_nn_wf(*l);
                lemma_nn_wf(*r);
                lemma_app_not_wf(nn_spec(*l));
                lemma_app_not_wf(nn_spec(*r));
                let a = nn_spec(*l);
                let b = nn_spec(*r);
                if t.item == '=' {
                    assert(wf(binary_spec('|', app_not_spec(a), b)));
                    assert(wf(binary_spec('|', app_not_spec(b), a)));
                } else if t.item == '^' {
                    assert(wf(binary_spec('&', a, app_not_spec(b))));
                    assert(wf(binary_spec('&', app_not_spec(a), b)));
                }
            },
            _ => {},
        }
    }
}

fn clone_node(t: &AstNode) -> (r: AstNode)
    ensures
        r == *t,
    decreases *t,
{
    AstNode {
        item: t.item,
        left_leaf: match &t.left_leaf {
            Some(l) => Some(Box::new(clone_node(l))),
            None => None,
        },
        right_leaf: match &t.right_leaf {
            Some(r2) => Some(Box::new(clone_node(r2))),
            None => None,
        },
    }
}

fn ascii_alphanumeric(c: char) -> (b: bool)
    ensures
        b == ascii_alphanumeric_spec(c),
{
    let u = c as u32;
    (48 <= u && u <= 57) || (65 <= u && u <= 90) || (97 <= u && u <= 122)
}

/// The negation-normal-form computation on an owned tree.
fn nnf_node(t: AstNode) -> (r: AstNode)
    requires
        wf(t),
    ensures
        r == nn_spec(t),
    decreases t,
{
    let AstNode { item, left_leaf, right_leaf } = t;
    if item == '!' {
        let l = nnf_node(*left_leaf.unwrap());
        negate_node(l)
    } else if item == '&' || item == '|' || item == '^' || item == '>' || item == '=' {
        let a = nnf_node(*left_leaf.unwrap());
        let b = nnf_node(*right_leaf.unwrap());
        if item == '&' || item == '|' {
            AstNode { item, left_leaf: Some(Box::new(a)), right_leaf: Some(Box::new(b)) }
        } else if item == '>' {
            let na = negate_node(a);
            AstNode { item: '|', left_leaf: Some(Box::new(na)), right_leaf: Some(Box::new(b)) }
        } else if item == '=' {
            let a2 = clone_node(&a);
            let b2 = clone_node(&b);
            let na = negate_node(a);
            let nb = negate_node(b);
            let lhs = AstNode {
                item: '|',
                left_leaf: Some(Box::new(na)),
                right_leaf: Some(Box::new(b2)),
            };
            let rhs = AstNode {
                item: '|',
                left_leaf: Some(Box::new(nb)),
                right_leaf: Some(Box::new(a2)),
            };
            AstNode { item: '&', left_leaf: Some(Box::new(lhs)), right_leaf: Some(Box::new(rhs)) }
        } else {
            let a2 = clone_node(&a);
            let b2 = clone_node(&b);
            let na = negate_node(a2);
            let nb = negate_node(b2);
            let lhs = AstNode {
                item: '&',
                left_leaf: Some(Box::new(a)),
                right_leaf: Some(Box::new(nb)),
            };
            let rhs = AstNode {
                item: '&',
                left_leaf: Some(Box::new(na)),
                right_leaf: Some(Box::new(b)),
            };
            AstNode { item: '|', left_leaf: Some(Box::new(lhs)), right_leaf: Some(Box::new(rhs)) }
        }
    } else {
        AstNode { item, left_leaf, right_leaf }
    }
}

/// Negation of an owned, already normalised tree.
fn negate_node(t: AstNode) -> (r: AstNode)
    ensures
        r == app_not_spec(t),
    decreases t,
{
    let and_node = t.item == '&';
    let or_node = t.item == '|';
    let both = t.left_leaf.is_some() && t.right_leaf.is_some();
    if (and_node || or_node) && both {
        let AstNode { item, left_leaf, right_leaf } = t;
        let nl = negate_node(*left_leaf.unwrap());
        let nr = negate_node(*right_leaf.unwrap());
        AstNode {
            item: if and_node {
                '|'
            } else {
                '&'
            },
            left_leaf: Some(Box::new(nl)),
            right_leaf: Some(Box::new(nr)),
        }
    } else {
        AstNode { item: '!', left_leaf: Some(Box::new(t)), right_leaf: None }
    }
}

/// The conjunctive-normal-form computation on an owned tree.
fn cnf_node(t: AstNode) -> (res: AstNode)
    requires
        wf(t),
    ensures
        res == cnf_spec(t),
    decreases t,
{
    let AstNode { item, left_leaf, right_leaf } = t;
    let l1: Option<Box<AstNode>> = match left_leaf {
        Some(lb) => Some(Box::new(cnf_node(*lb))),
        None => None,
    };
    let r1: Option<Box<AstNode>> = match right_leaf {
        Some(rb) => Some(Box::new(cnf_node(*rb))),
        None => None,
    };
    let mut node = AstNode { item, left_leaf: l1, right_leaf: r1 };
    if !node.is_conjunctive() {
        let x_opt = node.left_leaf.take();
        let r_box = node.right_leaf.take().unwrap();
        let AstNode { item: _, left_leaf: a_opt, right_leaf: b_opt } = *r_box;
        let x2: Option<Box<AstNode>> = match &x_opt {
            Some(xb) => Some(Box::new(clone_node(xb))),
            None => None,
        };
        node.item = '&';
        node.left_leaf = Some(
            Box::new(AstNode { item: '|', left_leaf: x_opt, right_leaf: a_opt }),
        );
        node.right_leaf = Some(
            Box::new(AstNode { item: '|', left_leaf: x2, right_leaf: b_opt }),
        );
    }
    if node.item == '&' || node.item == '|' {
        let same_left = match &node.left_leaf {
            Some(l) => l.item == node.item,
            None => false,
        };
        if same_left {
            let right_ok = match &node.right_leaf {
                Some(r2) => r2.item == '!' || ascii_alphanumeric(r2.item),
                None => false,
            };
            if right_ok {
                let l = node.left_leaf.take();
                let r = node.right_leaf.take();
                node.left_leaf = r;
                node.right_leaf = l;
            }
        }
    }
    node
}

impl AstNode {
    pub fn new(item: char) -> (r: AstNode)
        ensures
            r == leaf_spec(item),
    {
        AstNode { item, left_leaf: None, right_leaf: None }
    }

    /// Parses the postfix formula held at the end of `formula` into `self`,
    /// consuming the characters it reads.
    pub fn parse_formula(&mut self, formula: &mut Vec<char>)
        requires
            parse_spec(old(formula)@) is Some,
            old(self).left_leaf is None,
            old(self).right_leaf is None,
        ensures
            parse_spec(old(formula)@) matches Some(p) && *final(self) == p.0 && final(formula)@
                == p.1,
        decreases old(formula)@.len(),
    {
        proof {
            lemma_parse_consumes(formula@);
            lemma_parse_consumes(formula@.drop_last());
        }
        let c = formula.pop().unwrap();
        self.item = c;
        if c == '!' || c == '&' || c == '|' || c == '^' || c == '>' || c == '=' {
            if c != '!' {
                let mut rnode = AstNode::new('0');
                rnode.parse_formula(formula);
                self.right_leaf = Some(Box::new(rnode));
            }
            let mut lnode = AstNode::new('0');
            lnode.parse_formula(formula);
            self.left_leaf = Some(Box::new(lnode));
        }
    }

    /// Whether `self.item` occurs among the characters of `haystack`.
    pub fn is_in(&self, haystack: &str) -> (b: bool)
        ensures
            b == contains_char(haystack@, self.item),
    {
        let cs = str_chars(haystack);
        let mut i: usize = 0;
        while i < cs.len()
            invariant
                0 <= i <= cs@.len(),
                cs@ == haystack@,
                forall|j: int| 0 <= j < i ==> cs@[j] != self.item,
            decreases cs@.len() - i,
        {
            if cs[i] == self.item {
                return true;
            }
            i += 1;
        }
        false
    }

    /// Rewrites `self` into negation normal form.
    pub fn negation_normal_form(&mut self)
        requires
            wf(*old(self)),
        ensures
            *final(self) == nn_spec(*old(self)),
    {
        let t = AstNode {
            item: self.item,
            left_leaf: self.left_leaf.take(),
            right_leaf: self.right_leaf.take(),
        };
        *self = nnf_node(t);
    }

    /// Whether no distribution step applies at this node.
    pub fn is_conjunctive(&self) -> (b: bool)
        ensures
            b == !needs_distribution(*self),
    {
        if self.item == '|' {
            let r_and = match &self.right_leaf {
                Some(r) => r.item == '&',
                None => false,
            };
            let l_and = match &self.left_leaf {
                Some(l) => l.item == '&',
                None => false,
            };
            let r_in = match &self.right_leaf {
                Some(r) => r.item == '&' || r.item == '|',
                None => false,
            };
            let l_in = match &self.left_leaf {
                Some(l) => l.item == '&' || l.item == '|',
                None => false,
            };
            if (r_and || l_and) && (r_in || l_in) {
                if self.left_leaf.is_some() && self.right_leaf.is_some() {
                    return false;
                }
            }
        }
        true
    }

    /// Rewrites `self` (expected in negation normal form) towards
    /// conjunctive normal form.
    pub fn conjunctive_normal_form(&mut self)
        requires
            wf(*old(self)),
        ensures
            *final(self) == cnf_spec(*old(self)),
    {
        let t = AstNode {
            item: self.item,
            left_leaf: self.left_leaf.take(),
            right_leaf: self.right_leaf.take(),
        };
        *self = cnf_node(t);
    }

    /// Renders the tree back into a postfix string.
    pub fn stringify(&self) -> (r: String)
        ensures
            r@ == stringify_spec(*self),
        decreases *self,
    {
        let mut expr = String::new();
        if let Some(l) = &self.left_leaf {
            let ls = l.stringify();
            expr.append(ls.as_str());
        }
        if let Some(r2) = &self.right_leaf {
            let rs = r2.stringify();
            expr.append(rs.as_str());
        }
        push_char(&mut expr, self.item);
        proof {
            assert(expr@ =~= stringify_spec(*self));
        }
        expr
    }
}

/// The negation normal form of a postfix formula, as a postfix string.
pub fn negation_normal_form(formula: &str) -> (r: String)
    requires
        parse_spec(formula@) is Some,
    ensures
        parse_spec(formula@) matches Some(p) && r@ == stringify_spec(nn_spec(p.0)),
{
    let mut formula_stack: Vec<char> = str_chars(formula);
    let mut root = AstNode::new('0');
    proof {
        lemma_parse_wf(formula@);
    }
    root.parse_formula(&mut formula_stack);
    root.negation_normal_form();
    root.stringify()
}

/// The conjunctive normal form of a postfix formula, as a postfix string.
pub fn conjunctive_normal_form(formula: &str) -> (r: String)
    requires
        parse_spec(formula@) is Some,
    ensures
        parse_spec(formula@) matches Some(p) && r@ == stringify_spec(cnf_spec(nn_spec(p.0))),
{
    let mut formula_stack: Vec<char> = str_chars(formula);
    let mut root = AstNode::new('0');
    proof {
        lemma_parse_wf(formula@);
        if parse_spec(formula@) is Some {
            lemma_nn_wf(parse_spec(formula@).unwrap().0);
        }
    }
    root.parse_formula(&mut formula_stack);
    root.negation_normal_form();
    root.conjunctive_normal_form();
    root.stringify()
}

} // verus!
