//! Negation normal form over a tree with negation flags.
//!
//! Here a formula tree keeps negation as a boolean flag on each node
//! rather than as a `!` node: `A!B&!` parses to an `&` node marked
//! negated.  Rewriting eliminates `^`, `=` and `>` at each node and then
//! pushes the negation flag down through `&` and `|`, working from the
//! root towards the leaves.  Since a rewrite can enlarge the children
//! before the recursion descends into them, termination is measured by a
//! weighted potential rather than by the tree structure.

use vstd::prelude::*;
use crate::strutil::push_char;
use crate::strutil::str_chars;
use vstd::string::StringExecFns;

verus! {

pub struct Node {
    pub children: Option<(Box<Node>, Box<Node>)>,
    pub neg: bool,
    pub val: char,
}

#[derive(Debug)]
pub enum TreeError {
    /// A `!` with nothing in front of it.
    InvalidNegation,
    /// A character that is neither an operator nor an upper-case letter.
    InvalidChar(char),
}

/// How one attempt at parsing ends: crashing on an empty slice, failing
/// cleanly, or producing a node plus the unread prefix.
pub enum PResult {
    Panic,
    Fail(TreeError),
    Parsed(Node, Seq<char>),
}

pub open spec fn is_tree_op(c: char) -> bool {
    c == '&' || c == '^' || c == '|' || c == '>' || c == '='
}

pub open spec fn is_upper(c: char) -> bool {
    65 <= c as u32 && c as u32 <= 90
}

/// Parsing one node from the end of `s`: reading the last character
/// panics on an empty slice, so that case is singled out.
pub open spec fn inner_parse_spec(s: Seq<char>) -> PResult
    decreases s.len(), 0int,
{
    if s.len() == 0 {
        PResult::Panic
    } else {
        after_val(s.drop_last(), s.last(), false)
    }
}

/// Parsing once the node's character `val` has been read and `neg`
/// negations have been folded away.  The inner length guard never bites
/// (see `lemma_inner_consumes`).
pub open spec fn after_val(s: Seq<char>, val: char, neg: bool) -> PResult
    decreases s.len(), 1int,
{
    if val == '!' {
        if s.len() == 0 {
            PResult::Fail(TreeError::InvalidNegation)
        } else {
            after_val(s.drop_last(), s.last(), !neg)
        }
    } else if is_tree_op(val) {
        match inner_parse_spec(s) {
            PResult::Panic => PResult::Panic,
            PResult::Fail(e) => PResult::Fail(e),
            PResult::Parsed(rnode, rest) => {
                if rest.len() < s.len() {
                    match inner_parse_spec(rest) {
                        PResult::Panic => PResult::Panic,
                        PResult::Fail(e) => PResult::Fail(e),
                        PResult::Parsed(lnode, rest2) => PResult::Parsed(
                            Node {
                                children: Some((Box::new(lnode), Box::new(rnode))),
                                neg,
                                val,
                            },
                            rest2,
                        ),
                    }
                } else {
                    PResult::Panic
                }
            },
        }
    } else if is_upper(val) {
        PResult::Parsed(Node { children: None, neg, val }, s)
    } else {
        PResult::Fail(TreeError::InvalidChar(val))
    }
}

/// A parse consumes at least the node's own character, and what remains
/// is a prefix of the input.
pub proof fn lemma_inner_consumes(s: Seq<char>)
    ensures
        inner_parse_spec(s) matches PResult::Parsed(n, rest) ==> rest.len() < s.len() && rest
            == s.take(rest.len() as int),
        forall|val: char, neg: bool|
            #[trigger] after_val(s, val, neg) matches PResult::Parsed(n, rest) ==> rest.len()
                <= s.len() && rest == s.take(rest.len() as int),
    decreases s.len(),
{
    if s.len() > 0 {
        lemma_inner_consumes(s.drop_last());
        assert forall|k: int| 0 <= k < s.len() implies s.drop_last().take(k) =~= s.take(k) by {}
    }
    assert forall|val: char, neg: bool|
        #[trigger] after_val(s, val, neg) matches PResult::Parsed(n, rest) ==> rest.len() <= s.len()
            && rest == s.take(rest.len() as int) by {
        if val == '!' && s.len() > 0 {
            assert(after_val(s, '!', neg) == after_val(s.drop_last(), s.last(), !neg));
            match after_val(s.drop_last(), s.last(), !neg) {
                PResult::Parsed(n2, rest) => {
                    assert(rest == s.drop_last().take(rest.len() as int));
                    assert(rest.len() <= s.drop_last().len());
                    assert(rest == s.take(rest.len() as int));
                },
                _ => {},
            }
        } else if !(val == '!') && !is_tree_op(val) && is_upper(val) {
            assert(s.take(s.len() as int) =~= s);
        } else if is_tree_op(val) && s.len() > 0 {
            assert(inner_parse_spec(s) == after_val(s.drop_last(), s.last(), false));
            match inner_parse_spec(s) {
                PResult::Parsed(rnode, rest1) => {
                    assert(rest1 == s.drop_last().take(rest1.len() as int));
                    assert(rest1.len() <= s.drop_last().len());
                    assert(rest1 == s.take(rest1.len() as int));
                    if rest1.len() < s.len() {
                        lemma_inner_consumes(rest1);
                        match inner_parse_spec(rest1) {
                            PResult::Parsed(lnode, rest2) => {
                                assert(rest1.take(rest2.len() as int) =~= s.take(
                                    rest2.len() as int,
                                ));
                            },
                            _ => {},
                        }
                    }
                },
                _ => {},
            }
        }
    }
}

/// The potential of a tree: eliminated operators weigh more, and a
/// pending negation doubles the weight.  Every local rewrite keeps the
/// potential from growing, and every child of a rewritten node weighs
/// strictly less than the node did on entry.
pub open spec fn phi(t: Node) -> nat
    decreases t,
{
    let base: nat = match t.children {
        None => 1,
        Some((a, b)) => {
            if t.val == '>' {
                2 * phi(*a) + phi(*b) + 2
            } else if t.val == '^' {
                3 * phi(*a) + 3 * phi(*b) + 4
            } else if t.val == '=' {
                3 * phi(*a) + 3 * phi(*b) + 6
            } else {
                phi(*a) + phi(*b) + 1
            }
        },
    };
    if t.neg {
        2 * base
    } else {
        base
    }
}

pub proof fn lemma_phi_pos(t: Node)
    ensures
        phi(t) >= 1,
    decreases t,
{
    match t.children {
        Some((a, b)) => {
            lemma_phi_pos(*a);
            lemma_phi_pos(*b);
        },
        None => {},
    }
}

/// Flipping the negation flag at most doubles the potential.
pub proof fn lemma_phi_flip(t: Node)
    ensures
        phi(Node { neg: !t.neg, ..t }) <= 2 * phi(t),
        phi(t) <= 2 * phi(Node { neg: !t.neg, ..t }),
{
    lemma_phi_pos(t);
}

/// `^` at a node: `a ^ b` becomes `(a | b) & !(a & b)`.
pub open spec fn rm_xor_spec(t: Node) -> Node {
    match t.children {
        Some((a, b)) => if t.val == '^' {
            Node {
                children: Some(
                    (
                        Box::new(
                            Node {
                                children: Some((a, b)),
                                neg: false,
                                val: '|',
                            },
                        ),
                        Box::new(
                            Node {
                                children: Some((a, b)),
                                neg: true,
                                val: '&',
                            },
                        ),
                    ),
                ),
                neg: t.neg,
                val: '&',
            }
        } else {
            t
        },
        None => t,
    }
}

/// `=` at a node: `a = b` becomes `(a > b) & (b > a)`.
pub open spec fn rm_eqv_spec(t: Node) -> Node {
    match t.children {
        Some((a, b)) => if t.val == '=' {
            Node {
                children: Some(
                    (
                        Box::new(
                            Node {
                                children: Some((a, b)),
                                neg: false,
                                val: '>',
                            },
                        ),
                        Box::new(
                            Node {
                                children: Some((b, a)),
                                neg: false,
                                val: '>',
                            },
                        ),
                    ),
                ),
                neg: t.neg,
                val: '&',
            }
        } else {
            t
        },
        None => t,
    }
}

/// `>` at a node: `a > b` becomes `!a | b`.
pub open spec fn rm_mat_spec(t: Node) -> Node {
    match t.children {
        Some((a, b)) => if t.val == '>' {
            Node {
                children: Some((Box::new(Node { neg: !a.neg, ..*a }), b)),
                neg: t.neg,
                val: '|',
            }
        } else {
            t
        },
        None => t,
    }
}

/// A pending negation over `&` or `|`: De Morgan pushes it to the children.
pub open spec fn rm_neg_spec(t: Node) -> Node {
    match t.children {
        Some((a, b)) => if t.neg && (t.val == '&' || t.val == '|') {
            Node {
                children: Some(
                    (
                        Box::new(Node { neg: !a.neg, ..*a }),
                        Box::new(Node { neg: !b.neg, ..*b }),
                    ),
                ),
                neg: false,
                val: if t.val == '&' {
                    '|'
                } else {
                    '&'
                },
            }
        } else {
            t
        },
        None => t,
    }
}

/// All four local rewrites, in the order they are applied.
pub open spec fn rewrite_at(t: Node) -> Node {
    rm_neg_spec(rm_mat_spec(rm_eqv_spec(rm_xor_spec(t))))
}

/// No local rewrite increases the potential.
pub proof fn lemma_rewrite_phi(t: Node)
    ensures
        phi(rewrite_at(t)) <= phi(t),
{
    match t.children {
        Some((a, b)) => {
            lemma_phi_pos(*a);
            lemma_phi_pos(*b);
            lemma_phi_flip(*a);
            lemma_phi_flip(*b);
            let t1 = rm_xor_spec(t);
            match t1.children {
                Some((a1, b1)) => {
                    lemma_phi_pos(*a1);
                    lemma_phi_pos(*b1);
                    lemma_phi_flip(*a1);
                    lemma_phi_flip(*b1);
                    let t2 = rm_eqv_spec(t1);
                    match t2.children {
                        Some((a2, b2)) => {
                            lemma_phi_pos(*a2);
                            lemma_phi_pos(*b2);
                            lemma_phi_flip(*a2);
                            lemma_phi_flip(*b2);
                            let t3 = rm_mat_spec(t2);
                            match t3.children {
                                Some((a3, b3)) => {
                                    lemma_phi_pos(*a3);
                                    lemma_phi_pos(*b3);
                                    lemma_phi_flip(*a3);
                                    lemma_phi_flip(*b3);
                                },
                                None => {},
                            }
                        },
                        None => {},
                    }
                },
                None => {},
            }
        },
        None => {},
    }
}

/// After the rewrites, each child weighs strictly less than the node
/// weighed on entry.
pub proof fn lemma_rewrite_children_phi(t: Node)
    ensures
        rewrite_at(t).children matches Some(p) ==> phi(*p.0) < phi(t) && phi(*p.1) < phi(t),
{
    lemma_rewrite_phi(t);
    let t4 = rewrite_at(t);
    match t4.children {
        Some((a, b)) => {
            lemma_phi_pos(*a);
            lemma_phi_pos(*b);
        },
        None => {},
    }
}

/// The whole pass: rewrite at the node, then recurse into the children.
pub open spec fn dd_spec(t: Node) -> Node
    decreases phi(t),
    via dd_spec_decreases
{
    let t4 = rewrite_at(t);
    match t4.children {
        Some((a, b)) => Node {
            children: Some((Box::new(dd_spec(*a)), Box::new(dd_spec(*b)))),
            neg: t4.neg,
            val: t4.val,
        },
        None => t4,
    }
}

#[via_fn]
proof fn dd_spec_decreases(t: Node) {
    lemma_rewrite_children_phi(t);
}

/// The rendering: children, own character, then `!` if negated.
pub open spec fn render_spec(t: Node) -> Seq<char>
    decreases t,
{
    (match t.children {
        Some((a, b)) => render_spec(*a) + render_spec(*b),
        None => Seq::<char>::empty(),
    }) + seq![t.val] + (if t.neg {
        seq!['!']
    } else {
        Seq::<char>::empty()
    })
}

/// The boolean value of a tree under an assignment: operators apply
/// their truth tables, leaves read from the assignment (absent ones as
/// false), and the negation flag flips the result.
pub open spec fn eval_tree(t: Node, m: Map<char, bool>) -> bool
    decreases t,
{
    let base = match t.children {
        Some((a, b)) => crate::boolean_evaluation::spec_calculate(
            t.val,
            eval_tree(*a, m),
            eval_tree(*b, m),
        ),
        None => m.dom().contains(t.val) && m[t.val],
    };
    if t.neg {
        !base
    } else {
        base
    }
}

/// Well-formedness of a parsed tree: inner nodes carry operators, leaves
/// do not.
pub open spec fn wfn(t: Node) -> bool
    decreases t,
{
    match t.children {
        Some((a, b)) => is_tree_op(t.val) && wfn(*a) && wfn(*b),
        None => !is_tree_op(t.val),
    }
}

/// Negation normal form for these trees: every inner node is an
/// unnegated `&` or `|`; only leaves may carry the negation flag.
pub open spec fn tree_nnf_shape(t: Node) -> bool
    decreases t,
{
    match t.children {
        Some((a, b)) => (t.val == '&' || t.val == '|') && !t.neg && tree_nnf_shape(*a)
            && tree_nnf_shape(*b),
        None => true,
    }
}

/// Flipping the negation flag negates the value and keeps
/// well-formedness.
proof fn lemma_flip_eval(t: Node, m: Map<char, bool>)
    ensures
        eval_tree(Node { neg: !t.neg, ..t }, m) == !eval_tree(t, m),
        wfn(Node { neg: !t.neg, ..t }) == wfn(t),
{
    let f = Node { neg: !t.neg, ..t };
    match t.children {
        Some((a, b)) => {
            assert(f.children == Some((a, b)));
        },
        None => {},
    }
}

/// Each local rewrite keeps the tree's meaning and its well-formedness,
/// and leaves an operator node as an unnegated `&` or `|`.
pub proof fn lemma_rewrite_at_eval(t: Node, m: Map<char, bool>)
    requires
        wfn(t),
    ensures
        wfn(rewrite_at(t)),
        eval_tree(rewrite_at(t), m) == eval_tree(t, m),
        rewrite_at(t).children is Some ==> (rewrite_at(t).val == '&' || rewrite_at(t).val == '|')
            && !rewrite_at(t).neg,
        rewrite_at(t).children is None ==> rewrite_at(t) == t,
{
    let t1 = rm_xor_spec(t);
    let t2 = rm_eqv_spec(t1);
    let t3 = rm_mat_spec(t2);
    let t4 = rm_neg_spec(t3);
    match t.children {
        Some((a, b)) => {
            let ea = eval_tree(*a, m);
            let eb = eval_tree(*b, m);
            lemma_flip_eval(*a, m);
            lemma_flip_eval(*b, m);
            if t.val == '^' {
                assert(eval_tree(Node { children: Some((a, b)), neg: false, val: '|' }, m) == (ea
                    || eb));
                assert(eval_tree(Node { children: Some((a, b)), neg: true, val: '&' }, m) == !(ea
                    && eb));
                assert(wfn(Node { children: Some((a, b)), neg: false, val: '|' }));
                assert(wfn(Node { children: Some((a, b)), neg: true, val: '&' }));
                assert(eval_tree(t1, m) == eval_tree(t, m));
                assert(t3 == t1);
            } else if t.val == '=' {
                assert(t1 == t);
                assert(eval_tree(Node { children: Some((a, b)), neg: false, val: '>' }, m) == (!ea
                    || eb));
                assert(eval_tree(Node { children: Some((b, a)), neg: false, val: '>' }, m) == (!eb
                    || ea));
                assert(wfn(Node { children: Some((a, b)), neg: false, val: '>' }));
                assert(wfn(Node { children: Some((b, a)), neg: false, val: '>' }));
                assert(eval_tree(t2, m) == eval_tree(t, m));
                assert(t3 == t2);
            } else if t.val == '>' {
                assert(t2 == t);
                assert(eval_tree(t3, m) == eval_tree(t, m));
            } else {
                assert(t3 == t);
            }
            assert(wfn(t3));
            assert(t3.children is Some);
            match t3.children {
                Some((a3, b3)) => {
                    lemma_flip_eval(*a3, m);
                    lemma_flip_eval(*b3, m);
                    assert(eval_tree(t4, m) == eval_tree(t3, m));
                    assert(wfn(t4));
                },
                None => {},
            }
        },
        None => {
            assert(t1 == t);
            assert(t2 == t);
            assert(t3 == t);
            assert(t4 == t);
        },
    }
}

/// The whole pass keeps the meaning of the tree under every assignment.
pub proof fn lemma_dd_preserves_eval(t: Node, m: Map<char, bool>)
    requires
        wfn(t),
    ensures
        wfn(dd_spec(t)),
        eval_tree(dd_spec(t), m) == eval_tree(t, m),
    decreases phi(t),
{
    lemma_rewrite_at_eval(t, m);
    lemma_rewrite_children_phi(t);
    let t4 = rewrite_at(t);
    match t4.children {
        Some((a, b)) => {
            lemma_dd_preserves_eval(*a, m);
            lemma_dd_preserves_eval(*b, m);
        },
        None => {},
    }
}

/// The whole pass produces negation normal form.
pub proof fn lemma_dd_shape(t: Node)
    requires
        wfn(t),
    ensures
        tree_nnf_shape(dd_spec(t)),
    decreases phi(t),
{
    lemma_rewrite_at_eval(t, Map::<char, bool>::empty());
    lemma_rewrite_children_phi(t);
    let t4 = rewrite_at(t);
    match t4.children {
        Some((a, b)) => {
            lemma_dd_shape(*a);
            lemma_dd_shape(*b);
        },
        None => {},
    }
}

/// A parsed node is well formed.
pub proof fn lemma_parse_wfn(s: Seq<char>)
    ensures
        inner_parse_spec(s) matches PResult::Parsed(n, rest) ==> wfn(n),
        forall|val: char, neg: bool|
            #[trigger] after_val(s, val, neg) matches PResult::Parsed(n, rest) ==> wfn(n),
    decreases s.len(),
{
    if s.len() > 0 {
        lemma_parse_wfn(s.drop_last());
    }
    assert forall|val: char, neg: bool|
        #[trigger] after_val(s, val, neg) matches PResult::Parsed(n, rest) ==> wfn(n) by {
        if val == '!' && s.len() > 0 {
            assert(after_val(s, '!', neg) == after_val(s.drop_last(), s.last(), !neg));
        } else if is_tree_op(val) && s.len() > 0 {
            lemma_inner_consumes(s);
            assert(inner_parse_spec(s) == after_val(s.drop_last(), s.last(), false));
            match inner_parse_spec(s) {
                PResult::Parsed(rnode, rest1) => {
                    assert(wfn(rnode));
                    if rest1.len() < s.len() {
                        lemma_parse_wfn(rest1);
                        match inner_parse_spec(rest1) {
                            PResult::Parsed(lnode, rest2) => {
                                assert(wfn(lnode));
                                assert(wfn(
                                    Node {
                                        children: Some((Box::new(lnode), Box::new(rnode))),
                                        neg,
                                        val,
                                    },
                                ));
                            },
                            _ => {},
                        }
                    }
                },
                _ => {},
            }
        } else if is_upper(val) {
            assert(!is_tree_op(val));
        }
    }
}

impl Node {
    pub fn new(children: Option<(Box<Node>, Box<Node>)>, neg: bool, val: char) -> (r: Node)
        ensures
            r == (Node { children, neg, val }),
    {
        Node { children, neg, val }
    }

    /// Renders the tree back into a postfix string.
    pub fn stringify(&self) -> (r: String)
        ensures
            r@ == render_spec(*self),
        decreases *self,
    {
        let mut out = String::new();
        if let Some((a, b)) = &self.children {
            let sa = a.stringify();
            out.append(sa.as_str());
            let sb = b.stringify();
            out.append(sb.as_str());
        }
        push_char(&mut out, self.val);
        if self.neg {
            push_char(&mut out, '!');
        }
        proof {
            assert(out@ =~= render_spec(*self));
        }
        out
    }
}

fn clone_tree(t: &Node) -> (r: Node)
    ensures
        r == *t,
    decreases *t,
{
    Node {
        children: match &t.children {
            Some((a, b)) => Some((Box::new(clone_tree(a)), Box::new(clone_tree(b)))),
            None => None,
        },
        neg: t.neg,
        val: t.val,
    }
}

/// Applies the `^` rewrite at this node, if it is an `^` node.
pub fn rm_exclusive_or(n: &mut Node)
    ensures
        *final(n) == rm_xor_spec(*old(n)),
{
    if n.val == '^' && n.children.is_some() {
        let (a, b) = n.children.take().unwrap();
        let a2 = clone_tree(&a);
        let b2 = clone_tree(&b);
        n.val = '&';
        n.children = Some(
            (
                Box::new(Node { children: Some((a, b)), neg: false, val: '|' }),
                Box::new(
                    Node {
                        children: Some((Box::new(a2), Box::new(b2))),
                        neg: true,
                        val: '&',
                    },
                ),
            ),
        );
    }
}

/// Applies the `=` rewrite at this node, if it is an `=` node.
pub fn rm_equivalence(n: &mut Node)
    ensures
        *final(n) == rm_eqv_spec(*old(n)),
{
    if n.val == '=' && n.children.is_some() {
        let (a, b) = n.children.take().unwrap();
        let a2 = clone_tree(&a);
        let b2 = clone_tree(&b);
        n.val = '&';
        n.children = Some(
            (
                Box::new(Node { children: Some((a, b)), neg: false, val: '>' }),
                Box::new(
                    Node {
                        children: Some((Box::new(b2), Box::new(a2))),
                        neg: false,
                        val: '>',
                    },
                ),
            ),
        );
    }
}

/// Applies the `>` rewrite at this node, if it is a `>` node.
pub fn rm_material_conditions(n: &mut Node)
    ensures
        *final(n) == rm_mat_spec(*old(n)),
{
    if n.val == '>' && n.children.is_some() {
        let (a, b) = n.children.take().unwrap();
        let mut a_owned = *a;
        a_owned.neg = !a_owned.neg;
        n.val = '|';
        n.children = Some((Box::new(a_owned), b));
    }
}

/// Pushes a pending negation through an `&` or `|` at this node.
pub fn rm_negation(n: &mut Node)
    ensures
        *final(n) == rm_neg_spec(*old(n)),
{
    if n.neg && n.children.is_some() && (n.val == '&' || n.val == '|') {
        let (a, b) = n.children.take().unwrap();
        let mut a_owned = *a;
        let mut b_owned = *b;
        a_owned.neg = !a_owned.neg;
        b_owned.neg = !b_owned.neg;
        n.val = if n.val == '&' {
            '|'
        } else {
            '&'
        };
        n.neg = false;
        n.children = Some((Box::new(a_owned), Box::new(b_owned)));
    }
}

/// Normalises the whole tree: rewrites at the node, then descends.
pub fn recurse_tree_nnf(n: &mut Node)
    ensures
        *final(n) == dd_spec(*old(n)),
    decreases phi(*old(n)),
{
    proof {
        lemma_rewrite_children_phi(*n);
    }
    rm_exclusive_or(n);
    rm_equivalence(n);
    rm_material_conditions(n);
    rm_negation(n);
    if n.children.is_some() {
        let (a, b) = n.children.take().unwrap();
        let mut a_owned = *a;
        let mut b_owned = *b;
        recurse_tree_nnf(&mut a_owned);
        recurse_tree_nnf(&mut b_owned);
        n.children = Some((Box::new(a_owned), Box::new(b_owned)));
    }
}

/// Parses a formula and renders its negation normal form, reporting
/// malformed input.
pub fn nnf(formula: &str) -> (r: Result<String, TreeError>)
    requires
        !(inner_parse_spec(formula@) is Panic),
        inner_parse_spec(formula@) matches PResult::Parsed(n, rest) ==> rest.len() == 0,
    ensures
        match inner_parse_spec(formula@) {
            PResult::Panic => false,
            PResult::Fail(e) => r == Err::<String, TreeError>(e),
            PResult::Parsed(n, rest) => r matches Ok(out) && out@ == render_spec(dd_spec(n)),
        },
{
    let mut tree = match parse(formula) {
        Ok(t) => t,
        Err(e) => {
            return Err(e);
        },
    };
    recurse_tree_nnf(&mut tree);
    Ok(tree.stringify())
}

/// Parses a formula and renders its negation normal form; the formula
/// must be well formed.
pub fn negation_normal_form(formula: &str) -> (r: String)
    requires
        inner_parse_spec(formula@) matches PResult::Parsed(n, rest) && rest.len() == 0,
    ensures
        inner_parse_spec(formula@) matches PResult::Parsed(n, rest) && r@ == render_spec(
            dd_spec(n),
        ),
{
    nnf(formula).unwrap()
}

/// Parses one node from `s[..end]`, reading from the end.
pub fn inner_parse(s: &Vec<char>, end: usize) -> (r: Result<(Node, usize), TreeError>)
    requires
        end <= s@.len(),
        !(inner_parse_spec(s@.take(end as int)) is Panic),
    ensures
        match inner_parse_spec(s@.take(end as int)) {
            PResult::Panic => false,
            PResult::Fail(e) => r == Err::<(Node, usize), TreeError>(e),
            PResult::Parsed(n, rest) => r matches Ok(p) && p.0 == n && p.1 == rest.len() && rest
                == s@.take(p.1 as int),
        },
    decreases end,
{
    proof {
        lemma_inner_consumes(s@.take(end as int));
    }
    let ghost whole = s@.take(end as int);
    let mut end2 = end - 1;
    let mut val = s[end2];
    let mut neg = false;
    proof {
        assert(whole.drop_last() =~= s@.take(end2 as int));
    }
    while val == '!'
        invariant
            end2 <= s@.len(),
            end2 < end <= s@.len(),
            val == s@[end2 as int],
            inner_parse_spec(whole) == after_val(s@.take(end2 as int), val, neg),
            whole == s@.take(end as int),
            !(inner_parse_spec(whole) is Panic),
        decreases end2,
    {
        if end2 == 0 {
            proof {
                assert(s@.take(0int).len() == 0);
            }
            return Err(TreeError::InvalidNegation);
        }
        end2 = end2 - 1;
        val = s[end2];
        neg = !neg;
        proof {
            assert(s@.take(end2 + 1).drop_last() =~= s@.take(end2 as int));
            assert(s@.take(end2 + 1).last() == s@[end2 as int]);
        }
    }
    let u = val as u32;
    if val == '&' || val == '^' || val == '|' || val == '>' || val == '=' {
        proof {
            lemma_inner_consumes(s@.take(end2 as int));
        }
        let (rnode, rest1) = match inner_parse(s, end2) {
            Ok(p) => p,
            Err(e) => {
                return Err(e);
            },
        };
        let (lnode, rest2) = match inner_parse(s, rest1) {
            Ok(p) => p,
            Err(e) => {
                return Err(e);
            },
        };
        Ok((Node { children: Some((Box::new(lnode), Box::new(rnode))), neg, val }, rest2))
    } else if 65 <= u && u <= 90 {
        Ok((Node { children: None, neg, val }, end2))
    } else {
        Err(TreeError::InvalidChar(val))
    }
}

/// Parses a whole formula, which must leave nothing unread.
pub fn parse(s: &str) -> (r: Result<Node, TreeError>)
    requires
        !(inner_parse_spec(s@) is Panic),
        inner_parse_spec(s@) matches PResult::Parsed(n, rest) ==> rest.len() == 0,
    ensures
        match inner_parse_spec(s@) {
            PResult::Panic => false,
            PResult::Fail(e) => r == Err::<Node, TreeError>(e),
            PResult::Parsed(n, rest) => r == Ok::<Node, TreeError>(n),
        },
{
    let cs = str_chars(s);
    proof {
        assert(cs@.take(cs@.len() as int) =~= s@);
    }
    match inner_parse(&cs, cs.len()) {
        Ok(p) => Ok(p.0),
        Err(e) => Err(e),
    }
}

} // verus!
