//! Set-theoretic evaluation of postfix formulas: each variable `A`,
//! `B`, ... names one of the given sets, `&` intersects, `|` unites, and
//! `!` complements against the union of all given sets.  Every
//! intermediate result is sorted.

use vstd::prelude::*;
use crate::ast::ASTNode;
use crate::ast::Token;
use crate::ast::ast_of;
use crate::ast::get_ast;
use crate::ast::op1;
use crate::ast::op2;
use crate::ast::spec_token;
use crate::ast::stack_after;
use crate::ast::tokens_of;
use crate::ast::valid_formula_chars;
use crate::cnf::and_leaves;
use crate::cnf::cnf;
use crate::cnf::cnf_and_rest;
use crate::cnf::cnf_spec;
use crate::cnf::lemma_and_leaves_len;
use crate::cnf::lemma_or_leaves_len;
use crate::cnf::or_leaves;
use crate::cnf::rebuild;
use crate::nnf::nnf;
use crate::nnf::nnf_neg;
use crate::nnf::nnf_pos;

verus! {

/// Every operand character of the tree is at or above `A`.
pub open spec fn ops_ge_a(t: ASTNode) -> bool
    decreases t,
{
    match t {
        ASTNode::Operand(c) => c as u32 >= 65,
        ASTNode::Operator(_, l, ropt) => ops_ge_a(*l) && match ropt {
            Some(r) => ops_ge_a(*r),
            None => true,
        },
    }
}

/// Every character that tokenizes as an operand is at or above `A`.
pub open spec fn operand_chars_ge(s: Seq<char>) -> bool {
    forall|i: int|
        0 <= i < s.len() ==> ((#[trigger] spec_token(s[i])) matches Token::Operand(c) ==> c as u32
            >= 65)
}

/// Every tree on the parsing stack keeps its operands at or above `A`.
pub proof fn lemma_stack_ops(tokens: Seq<Token>)
    requires
        forall|i: int|
            0 <= i < tokens.len() ==> ((#[trigger] tokens[i]) matches Token::Operand(c) ==> c
                as u32 >= 65),
    ensures
        stack_after(tokens) matches Ok(st) ==> forall|i: int|
            0 <= i < st.len() ==> ops_ge_a(#[trigger] st[i]),
    decreases tokens.len(),
{
    if tokens.len() > 0 {
        assert(forall|i: int|
            0 <= i < tokens.drop_last().len() ==> tokens.drop_last()[i] == tokens[i]);
        lemma_stack_ops(tokens.drop_last());
        match stack_after(tokens.drop_last()) {
            Ok(st) => {
                let tok = tokens.last();
                assert(tokens[tokens.len() - 1] == tok);
                match tok {
                    Token::Operand(c) => {},
                    Token::Operator(op) => {
                        if op != '!' && (op == '&' || op == '|' || op == '>' || op == '=' || op
                            == '^') && st.len() >= 2 {
                            let r = st.last();
                            let l = st.drop_last().last();
                            assert(ops_ge_a(r));
                            assert(ops_ge_a(l));
                            assert(ops_ge_a(op1('!', l)));
                            assert(ops_ge_a(op1('!', r)));
                            assert(ops_ge_a(op2('&', l, r)));
                            assert(ops_ge_a(op2('&', op1('!', l), op1('!', r))));
                            assert(ops_ge_a(op2('&', l, op1('!', r))));
                            assert(ops_ge_a(op2('&', op1('!', l), r)));
                        } else if op == '!' && st.len() >= 1 {
                            assert(ops_ge_a(st.last()));
                            assert(ops_ge_a(op1('!', st.last())));
                        }
                    },
                }
            },
            Err(_) => {},
        }
    }
}

/// Negation normalisation keeps operands at or above `A`.
pub proof fn lemma_nnf_ops(t: ASTNode)
    requires
        ops_ge_a(t),
    ensures
        ops_ge_a(nnf_pos(t)),
        ops_ge_a(nnf_neg(t)),
    decreases t,
{
    match t {
        ASTNode::Operand(c) => {},
        ASTNode::Operator(op, l, ropt) => {
            lemma_nnf_ops(*l);
            match ropt {
                Some(r) => {
                    lemma_nnf_ops(*r);
                },
                None => {},
            }
        },
    }
}

/// The spine leaves keep operands at or above `A`.
pub proof fn lemma_leaves_ops(t: ASTNode)
    requires
        ops_ge_a(t),
    ensures
        forall|i: int| 0 <= i < or_leaves(t).len() ==> ops_ge_a(#[trigger] or_leaves(t)[i]),
        forall|i: int| 0 <= i < and_leaves(t).len() ==> ops_ge_a(#[trigger] and_leaves(t)[i]),
    decreases t,
{
    match t {
        ASTNode::Operator(op, l, ropt) => {
            match ropt {
                Some(r) => {
                    lemma_leaves_ops(*l);
                    lemma_leaves_ops(*r);
                    if op == '|' {
                        assert forall|i: int| 0 <= i < or_leaves(t).len() implies ops_ge_a(
                            #[trigger] or_leaves(t)[i],
                        ) by {
                            if i < or_leaves(*l).len() {
                                assert(or_leaves(t)[i] == or_leaves(*l)[i]);
                            } else {
                                assert(or_leaves(t)[i] == or_leaves(*r)[i - or_leaves(*l).len()]);
                            }
                        }
                        assert(and_leaves(t) =~= seq![t]);
                        assert(and_leaves(t)[0] == t);
                    } else if op == '&' {
                        assert forall|i: int| 0 <= i < and_leaves(t).len() implies ops_ge_a(
                            #[trigger] and_leaves(t)[i],
                        ) by {
                            if i < and_leaves(*l).len() {
                                assert(and_leaves(t)[i] == and_leaves(*l)[i]);
                            } else {
                                assert(and_leaves(t)[i] == and_leaves(*r)[i - and_leaves(
                                    *l,
                                ).len()]);
                            }
                        }
                        assert(or_leaves(t) =~= seq![t]);
                        assert(or_leaves(t)[0] == t);
                    } else {
                        assert(or_leaves(t)[0] == t);
                        assert(and_leaves(t)[0] == t);
                    }
                },
                None => {
                    assert(or_leaves(t)[0] == t);
                    assert(and_leaves(t)[0] == t);
                },
            }
        },
        _ => {
            assert(or_leaves(t)[0] == t);
            assert(and_leaves(t)[0] == t);
        },
    }
}

/// A chain rebuilt from such leaves keeps its operands at or above `A`.
pub proof fn lemma_rebuild_ops(op: char, s: Seq<ASTNode>)
    requires
        s.len() >= 1,
        forall|i: int| 0 <= i < s.len() ==> ops_ge_a(#[trigger] s[i]),
    ensures
        ops_ge_a(rebuild(op, s)),
    decreases s.len(),
{
    if s.len() > 1 {
        assert(forall|i: int| 0 <= i < s.drop_first().len() ==> s.drop_first()[i] == s[i + 1]);
        lemma_rebuild_ops(op, s.drop_first());
    }
}

/// The CNF pass keeps operands at or above `A`.
pub proof fn lemma_cnf_ops(t: ASTNode)
    requires
        ops_ge_a(t),
    ensures
        ops_ge_a(cnf_spec(t)),
    decreases t,
{
    match t {
        ASTNode::Operand(_) => {},
        ASTNode::Operator(op, l, ropt) => {
            lemma_cnf_ops(*l);
            if op == '|' && ropt is Some {
                lemma_cnf_ops(*ropt.unwrap());
                lemma_leaves_ops(cnf_spec(*l));
                lemma_leaves_ops(cnf_spec(*ropt.unwrap()));
                lemma_or_leaves_len(cnf_spec(*l));
                let s = or_leaves(cnf_spec(*l)) + or_leaves(cnf_spec(*ropt.unwrap()));
                lemma_rebuild_ops('|', s);
            } else if op == '&' {
                lemma_leaves_ops(cnf_spec(*l));
                lemma_and_leaves_len(cnf_spec(*l));
                match ropt {
                    Some(r) => {
                        lemma_cnf_ops(*r);
                        lemma_leaves_ops(cnf_spec(*r));
                    },
                    None => {},
                }
                let s = and_leaves(cnf_spec(*l)) + cnf_and_rest(ropt);
                lemma_rebuild_ops('&', s);
            } else {
                match ropt {
                    Some(r) => {
                        lemma_cnf_ops(*r);
                    },
                    None => {},
                }
            }
        },
    }
}

/// `acc` extended with the not-yet-present elements of `s[..j]`.
pub open spec fn dedup_upto(acc: Seq<i32>, s: Seq<i32>, j: nat) -> Seq<i32>
    decreases j,
{
    if j == 0 {
        acc
    } else {
        let a = dedup_upto(acc, s, (j - 1) as nat);
        if a.contains(s[j - 1]) {
            a
        } else {
            a.push(s[j - 1])
        }
    }
}

/// The elements of `s1[..j]` that are in `s2`, first occurrences only.
pub open spec fn inter_upto(s1: Seq<i32>, s2: Seq<i32>, j: nat) -> Seq<i32>
    decreases j,
{
    if j == 0 {
        Seq::<i32>::empty()
    } else {
        let a = inter_upto(s1, s2, (j - 1) as nat);
        if s2.contains(s1[j - 1]) && !a.contains(s1[j - 1]) {
            a.push(s1[j - 1])
        } else {
            a
        }
    }
}

/// The elements of `u[..j]` that are not in `s`.
pub open spec fn compl_upto(u: Seq<i32>, s: Seq<i32>, j: nat) -> Seq<i32>
    decreases j,
{
    if j == 0 {
        Seq::<i32>::empty()
    } else {
        let a = compl_upto(u, s, (j - 1) as nat);
        if !s.contains(u[j - 1]) {
            a.push(u[j - 1])
        } else {
            a
        }
    }
}

/// Inserting a number into a sorted run of numbers.
pub open spec fn insert_sorted_i32(s: Seq<i32>, x: i32) -> Seq<i32>
    decreases s.len(),
{
    if s.len() == 0 {
        seq![x]
    } else if x <= s[0] {
        seq![x] + s
    } else {
        seq![s[0]] + insert_sorted_i32(s.drop_first(), x)
    }
}

/// Insertion sort for numbers.
pub open spec fn sort_i32(s: Seq<i32>) -> Seq<i32>
    decreases s.len(),
{
    if s.len() == 0 {
        Seq::<i32>::empty()
    } else {
        insert_sorted_i32(sort_i32(s.drop_last()), s.last())
    }
}

/// What de-duplication holds: the members of the accumulator plus those
/// of the consumed prefix.
pub proof fn lemma_dedup_upto_contains(acc: Seq<i32>, s: Seq<i32>, j: nat, y: i32)
    requires
        j <= s.len(),
    ensures
        dedup_upto(acc, s, j).contains(y) <==> (acc.contains(y) || s.take(j as int).contains(y)),
    decreases j,
{
    if j == 0 {
        assert(!s.take(0int).contains(y));
    } else {
        lemma_dedup_upto_contains(acc, s, (j - 1) as nat, y);
        let a = dedup_upto(acc, s, (j - 1) as nat);
        assert(s.take(j as int)[j - 1] == s[j - 1]);
        if !a.contains(s[j - 1]) {
            assert(a.push(s[j - 1]).contains(y) <==> (a.contains(y) || y == s[j - 1])) by {
                if a.push(s[j - 1]).contains(y) {
                    let i = a.push(s[j - 1]).index_of(y);
                    if i < a.len() {
                        assert(a[i] == y);
                    }
                }
                if a.contains(y) {
                    assert(a.push(s[j - 1])[a.index_of(y)] == y);
                }
                if y == s[j - 1] {
                    assert(a.push(s[j - 1]).last() == y);
                }
            }
        }
        assert(s.take(j as int).contains(y) <==> (s.take(j - 1).contains(y) || y == s[j - 1])) by {
            if s.take(j as int).contains(y) {
                let i = s.take(j as int).index_of(y);
                if i < j - 1 {
                    assert(s.take(j - 1)[i] == y);
                }
            }
            if s.take(j - 1).contains(y) {
                assert(s.take(j as int)[s.take(j - 1).index_of(y)] == y);
            }
        }
    }
}

/// What the intersection holds: the members of the consumed prefix of
/// the first run that also lie in the second.
pub proof fn lemma_inter_upto_contains(s1: Seq<i32>, s2: Seq<i32>, j: nat, y: i32)
    requires
        j <= s1.len(),
    ensures
        inter_upto(s1, s2, j).contains(y) <==> (s1.take(j as int).contains(y) && s2.contains(y)),
    decreases j,
{
    if j == 0 {
        assert(!s1.take(0int).contains(y));
    } else {
        lemma_inter_upto_contains(s1, s2, (j - 1) as nat, y);
        let a = inter_upto(s1, s2, (j - 1) as nat);
        assert(s1.take(j as int)[j - 1] == s1[j - 1]);
        if s2.contains(s1[j - 1]) && !a.contains(s1[j - 1]) {
            assert(a.push(s1[j - 1]).contains(y) <==> (a.contains(y) || y == s1[j - 1])) by {
                if a.push(s1[j - 1]).contains(y) {
                    let i = a.push(s1[j - 1]).index_of(y);
                    if i < a.len() {
                        assert(a[i] == y);
                    }
                }
                if a.contains(y) {
                    assert(a.push(s1[j - 1])[a.index_of(y)] == y);
                }
                if y == s1[j - 1] {
                    assert(a.push(s1[j - 1]).last() == y);
                }
            }
        }
        assert(s1.take(j as int).contains(y) <==> (s1.take(j - 1).contains(y) || y == s1[j
            - 1])) by {
            if s1.take(j as int).contains(y) {
                let i = s1.take(j as int).index_of(y);
                if i < j - 1 {
                    assert(s1.take(j - 1)[i] == y);
                }
            }
            if s1.take(j - 1).contains(y) {
                assert(s1.take(j as int)[s1.take(j - 1).index_of(y)] == y);
            }
        }
    }
}

/// What the complement holds: the members of the consumed prefix of the
/// universe that lie outside the given run.
pub proof fn lemma_compl_upto_contains(u: Seq<i32>, s: Seq<i32>, j: nat, y: i32)
    requires
        j <= u.len(),
    ensures
        compl_upto(u, s, j).contains(y) <==> (u.take(j as int).contains(y) && !s.contains(y)),
    decreases j,
{
    if j == 0 {
        assert(!u.take(0int).contains(y));
    } else {
        lemma_compl_upto_contains(u, s, (j - 1) as nat, y);
        let a = compl_upto(u, s, (j - 1) as nat);
        assert(u.take(j as int)[j - 1] == u[j - 1]);
        if !s.contains(u[j - 1]) {
            assert(a.push(u[j - 1]).contains(y) <==> (a.contains(y) || y == u[j - 1])) by {
                if a.push(u[j - 1]).contains(y) {
                    let i = a.push(u[j - 1]).index_of(y);
                    if i < a.len() {
                        assert(a[i] == y);
                    }
                }
                if a.contains(y) {
                    assert(a.push(u[j - 1])[a.index_of(y)] == y);
                }
                if y == u[j - 1] {
                    assert(a.push(u[j - 1]).last() == y);
                }
            }
        }
        assert(u.take(j as int).contains(y) <==> (u.take(j - 1).contains(y) || y == u[j - 1])) by {
            if u.take(j as int).contains(y) {
                let i = u.take(j as int).index_of(y);
                if i < j - 1 {
                    assert(u.take(j - 1)[i] == y);
                }
            }
            if u.take(j - 1).contains(y) {
                assert(u.take(j as int)[u.take(j - 1).index_of(y)] == y);
            }
        }
    }
}

/// A run of numbers in non-decreasing order.
pub open spec fn sorted_run(s: Seq<i32>) -> bool {
    forall|i: int, j: int| 0 <= i < j < s.len() ==> s[i] <= s[j]
}

/// Insertion into a sorted run keeps it sorted and only adds the new
/// member.
pub proof fn lemma_insert_sorted_i32_props(s: Seq<i32>, x: i32)
    requires
        sorted_run(s),
    ensures
        sorted_run(insert_sorted_i32(s, x)),
        forall|y: i32| #[trigger] insert_sorted_i32(s, x).contains(y) <==> (y == x || s.contains(
            y,
        )),
    decreases s.len(),
{
    let r = insert_sorted_i32(s, x);
    if s.len() == 0 {
        assert(r[0] == x);
        assert forall|y: i32| r.contains(y) <==> (y == x || s.contains(y)) by {
            if y == x {
                assert(r[0] == y);
            }
        }
    } else if x <= s[0] {
        assert(r[0] == x);
        assert(forall|i: int| 0 <= i < s.len() ==> r[i + 1] == s[i]);
        assert forall|y: i32| r.contains(y) implies (y == x || s.contains(y)) by {
            let i = r.index_of(y);
            if i > 0 {
                assert(s[i - 1] == y);
            }
        }
        assert forall|y: i32| (y == x || s.contains(y)) implies r.contains(y) by {
            if y == x {
                assert(r[0] == y);
            } else {
                assert(r[s.index_of(y) + 1] == y);
            }
        }
    } else {
        assert(forall|i: int|
            0 <= i < s.drop_first().len() ==> s.drop_first()[i] == s[i + 1]);
        lemma_insert_sorted_i32_props(s.drop_first(), x);
        let tail = insert_sorted_i32(s.drop_first(), x);
        assert(r[0] == s[0]);
        assert(forall|i: int| 0 <= i < tail.len() ==> r[i + 1] == tail[i]);
        assert forall|i: int, j: int| 0 <= i < j < r.len() implies r[i] <= r[j] by {
            if i == 0 {
                let v = tail[j - 1];
                assert(tail.contains(v));
                if v != x {
                    assert(s.drop_first().contains(v));
                    let k = s.drop_first().index_of(v);
                    assert(s.drop_first()[k] == v);
                    assert(s[k + 1] == v);
                }
            } else {
                assert(r[i] == tail[i - 1] && r[j] == tail[j - 1]);
            }
        }
        assert forall|y: i32| r.contains(y) implies (y == x || s.contains(y)) by {
            let i = r.index_of(y);
            if i > 0 {
                assert(tail[i - 1] == y);
                assert(tail.contains(y));
                if y != x {
                    assert(s.drop_first().contains(y));
                    let k = s.drop_first().index_of(y);
                    assert(s.drop_first()[k] == y);
                    assert(s[k + 1] == y);
                }
            }
        }
        assert forall|y: i32| (y == x || s.contains(y)) implies r.contains(y) by {
            if y == s[0] {
                assert(r[0] == y);
            } else if y == x {
                assert(tail.contains(y));
                let k = tail.index_of(y);
                assert(tail[k] == y);
                assert(r[k + 1] == y);
            } else {
                assert(s[s.index_of(y)] == y);
                assert(s.drop_first()[s.index_of(y) - 1] == y);
                assert(s.drop_first().contains(y));
                assert(tail.contains(y));
                let k = tail.index_of(y);
                assert(tail[k] == y);
                assert(r[k + 1] == y);
            }
        }
    }
}

/// Sorting yields a non-decreasing run with exactly the members of the
/// input, so every set produced by the evaluator is ordered.
pub proof fn lemma_sort_i32_props(s: Seq<i32>)
    ensures
        sorted_run(sort_i32(s)),
        forall|y: i32| #[trigger] sort_i32(s).contains(y) <==> s.contains(y),
    decreases s.len(),
{
    if s.len() > 0 {
        lemma_sort_i32_props(s.drop_last());
        lemma_insert_sorted_i32_props(sort_i32(s.drop_last()), s.last());
        assert(sort_i32(s) == insert_sorted_i32(sort_i32(s.drop_last()), s.last()));
        assert forall|y: i32| sort_i32(s).contains(y) <==> s.contains(y) by {
            if s.contains(y) {
                let i = s.index_of(y);
                assert(s[i] == y);
                if i < s.len() - 1 {
                    assert(s.drop_last()[i] == y);
                    assert(s.drop_last().contains(y));
                    assert(sort_i32(s.drop_last()).contains(y));
                } else {
                    assert(y == s.last());
                }
            }
            if sort_i32(s).contains(y) {
                if y != s.last() {
                    assert(sort_i32(s.drop_last()).contains(y));
                    assert(s.drop_last().contains(y));
                    let i = s.drop_last().index_of(y);
                    assert(s.drop_last()[i] == y);
                    assert(s[i] == y);
                }
            }
        }
    }
}

/// The unsorted value of one operator application over already sorted
/// operand results.
pub open spec fn raw_set(t: ASTNode, sets: Seq<Seq<i32>>, u: Seq<i32>) -> Seq<i32>
    decreases t, 0int,
{
    match t {
        ASTNode::Operand(c) => {
            if c as u32 >= 65 && ((c as u32 - 65) as int) < sets.len() {
                sets[(c as u32 - 65) as int]
            } else {
                Seq::<i32>::empty()
            }
        },
        ASTNode::Operator(op, l, ropt) => {
            if op == '&' && ropt is Some {
                let a = eval_set_spec(*l, sets, u);
                let b = eval_set_spec(*ropt.unwrap(), sets, u);
                inter_upto(a, b, a.len())
            } else if op == '|' && ropt is Some {
                let a = eval_set_spec(*l, sets, u);
                let b = eval_set_spec(*ropt.unwrap(), sets, u);
                dedup_upto(dedup_upto(Seq::<i32>::empty(), a, a.len()), b, b.len())
            } else if op == '!' && ropt is None {
                let a = eval_set_spec(*l, sets, u);
                compl_upto(u, a, u.len())
            } else {
                Seq::<i32>::empty()
            }
        },
    }
}

/// The sorted value of a tree.
pub open spec fn eval_set_spec(t: ASTNode, sets: Seq<Seq<i32>>, u: Seq<i32>) -> Seq<i32>
    decreases t, 1int,
{
    sort_i32(raw_set(t, sets, u))
}

/// The set-algebra reading of a tree: variables name the given sets,
/// `&` intersects, `|` unites, `!` complements against the universe.
pub open spec fn abstract_set(t: ASTNode, sets: Seq<Seq<i32>>, u: Seq<i32>) -> Set<i32>
    decreases t,
{
    match t {
        ASTNode::Operand(c) => {
            if c as u32 >= 65 && ((c as u32 - 65) as int) < sets.len() {
                sets[(c as u32 - 65) as int].to_set()
            } else {
                Set::<i32>::empty()
            }
        },
        ASTNode::Operator(op, l, ropt) => {
            if op == '&' && ropt is Some {
                abstract_set(*l, sets, u).intersect(abstract_set(*ropt.unwrap(), sets, u))
            } else if op == '|' && ropt is Some {
                abstract_set(*l, sets, u).union(abstract_set(*ropt.unwrap(), sets, u))
            } else if op == '!' && ropt is None {
                u.to_set().difference(abstract_set(*l, sets, u))
            } else {
                Set::<i32>::empty()
            }
        },
    }
}

/// The evaluator computes exactly the set-algebra reading of the tree:
/// its result holds an element exactly when the abstract set does.
pub proof fn lemma_eval_set_abstract(t: ASTNode, sets: Seq<Seq<i32>>, u: Seq<i32>, y: i32)
    ensures
        eval_set_spec(t, sets, u).contains(y) <==> abstract_set(t, sets, u).contains(y),
    decreases t,
{
    lemma_sort_i32_props(raw_set(t, sets, u));
    match t {
        ASTNode::Operand(_) => {},
        ASTNode::Operator(op, l, ropt) => {
            lemma_eval_set_abstract(*l, sets, u, y);
            let a = eval_set_spec(*l, sets, u);
            if op == '&' && ropt is Some {
                lemma_eval_set_abstract(*ropt.unwrap(), sets, u, y);
                let b = eval_set_spec(*ropt.unwrap(), sets, u);
                lemma_inter_upto_contains(a, b, a.len(), y);
                assert(a.take(a.len() as int) =~= a);
            } else if op == '|' && ropt is Some {
                lemma_eval_set_abstract(*ropt.unwrap(), sets, u, y);
                let b = eval_set_spec(*ropt.unwrap(), sets, u);
                lemma_dedup_upto_contains(Seq::<i32>::empty(), a, a.len(), y);
                lemma_dedup_upto_contains(
                    dedup_upto(Seq::<i32>::empty(), a, a.len() as nat),
                    b,
                    b.len(),
                    y,
                );
                assert(a.take(a.len() as int) =~= a);
                assert(b.take(b.len() as int) =~= b);
            } else if op == '!' && ropt is None {
                lemma_compl_upto_contains(u, a, u.len(), y);
                assert(u.take(u.len() as int) =~= u);
            }
        },
    }
}

/// The union of the first `j` given sets, without duplicates.
pub open spec fn univ_upto(sets: Seq<Seq<i32>>, j: nat) -> Seq<i32>
    decreases j,
{
    if j == 0 {
        Seq::<i32>::empty()
    } else {
        let prev = univ_upto(sets, (j - 1) as nat);
        dedup_upto(prev, sets[j - 1], sets[j - 1].len() as nat)
    }
}

fn vec_contains(v: &Vec<i32>, x: i32) -> (b: bool)
    ensures
        b == v@.contains(x),
{
    let mut k: usize = 0;
    while k < v.len()
        invariant
            0 <= k <= v@.len(),
            !v@.take(k as int).contains(x),
        decreases v@.len() - k,
    {
        if v[k] == x {
            return true;
        }
        proof {
            assert(!v@.take(k + 1).contains(x)) by {
                if v@.take(k + 1).contains(x) {
                    let idx = v@.take(k + 1).index_of(x);
                    assert(v@.take(k + 1)[idx] == x);
                    if idx < k {
                        assert(v@.take(k as int)[idx] == x);
                    } else {
                        assert(v@.take(k + 1)[k as int] == v@[k as int]);
                    }
                }
            }
        }
        k += 1;
    }
    proof {
        assert(v@.take(v@.len() as int) =~= v@);
    }
    false
}

fn copy_row(v: &Vec<i32>) -> (r: Vec<i32>)
    ensures
        r@ == v@,
{
    let mut r: Vec<i32> = Vec::new();
    let mut i: usize = 0;
    while i < v.len()
        invariant
            0 <= i <= v@.len(),
            r@ == v@.take(i as int),
        decreases v@.len() - i,
    {
        r.push(v[i]);
        i += 1;
        proof {
            assert(r@ =~= v@.take(i as int));
        }
    }
    proof {
        assert(v@.take(v@.len() as int) =~= v@);
    }
    r
}

/// Appends the not-yet-present elements of `src` to `dst`.
fn dedup_append(dst: &mut Vec<i32>, src: &Vec<i32>)
    ensures
        final(dst)@ == dedup_upto(old(dst)@, src@, src@.len() as nat),
{
    let mut j: usize = 0;
    while j < src.len()
        invariant
            0 <= j <= src@.len(),
            dst@ == dedup_upto(old(dst)@, src@, j as nat),
        decreases src@.len() - j,
    {
        if !vec_contains(dst, src[j]) {
            let x = src[j];
            dst.push(x);
        }
        j += 1;
    }
}

/// The intersection of two sorted runs, first occurrences of `set1`.
pub fn intersection(set1: &Vec<i32>, set2: &Vec<i32>) -> (r: Vec<i32>)
    ensures
        r@ == inter_upto(set1@, set2@, set1@.len() as nat),
{
    let mut r: Vec<i32> = Vec::new();
    let mut j: usize = 0;
    while j < set1.len()
        invariant
            0 <= j <= set1@.len(),
            r@ == inter_upto(set1@, set2@, j as nat),
        decreases set1@.len() - j,
    {
        let x = set1[j];
        if vec_contains(set2, x) && !vec_contains(&r, x) {
            r.push(x);
        }
        j += 1;
    }
    r
}

/// The union of two runs, duplicates removed.
pub fn union(set1: &Vec<i32>, set2: &Vec<i32>) -> (r: Vec<i32>)
    ensures
        r@ == dedup_upto(
            dedup_upto(Seq::<i32>::empty(), set1@, set1@.len() as nat),
            set2@,
            set2@.len() as nat,
        ),
{
    let mut r: Vec<i32> = Vec::new();
    dedup_append(&mut r, set1);
    dedup_append(&mut r, set2);
    r
}

/// The elements of the universe that are outside `set`.
pub fn complement(set: &Vec<i32>, universal_set: &Vec<i32>) -> (r: Vec<i32>)
    ensures
        r@ == compl_upto(universal_set@, set@, universal_set@.len() as nat),
{
    let mut r: Vec<i32> = Vec::new();
    let mut j: usize = 0;
    while j < universal_set.len()
        invariant
            0 <= j <= universal_set@.len(),
            r@ == compl_upto(universal_set@, set@, j as nat),
        decreases universal_set@.len() - j,
    {
        let x = universal_set[j];
        if !vec_contains(set, x) {
            r.push(x);
        }
        j += 1;
    }
    r
}

/// How an insertion splits a sorted run: everything smaller first.
proof fn lemma_insert_split_i32(s: Seq<i32>, x: i32, k: int)
    requires
        0 <= k <= s.len(),
        forall|idx: int| 0 <= idx < k ==> (#[trigger] s[idx]) < x,
        k < s.len() ==> x <= s[k],
    ensures
        insert_sorted_i32(s, x) == s.take(k) + seq![x] + s.skip(k),
    decreases k,
{
    if k == 0 {
        assert(insert_sorted_i32(s, x) =~= s.take(0) + seq![x] + s.skip(0));
    } else {
        lemma_insert_split_i32(s.drop_first(), x, k - 1);
        assert(s.drop_first().take(k - 1) =~= s.take(k).drop_first());
        assert(s.drop_first().skip(k - 1) =~= s.skip(k));
        assert(insert_sorted_i32(s, x) =~= s.take(k) + seq![x] + s.skip(k));
    }
}

fn insert_i32(out: &mut Vec<i32>, x: i32)
    ensures
        final(out)@ == insert_sorted_i32(old(out)@, x),
{
    let mut k: usize = 0;
    while k < out.len() && out[k] < x
        invariant
            0 <= k <= out@.len(),
            forall|idx: int| 0 <= idx < k ==> (#[trigger] out@[idx]) < x,
        decreases out@.len() - k,
    {
        k += 1;
    }
    proof {
        lemma_insert_split_i32(out@, x, k as int);
    }
    out.insert(k, x);
    proof {
        assert(out@ =~= old(out)@.take(k as int) + seq![x] + old(out)@.skip(k as int));
    }
}

/// Sorts a run of numbers.
fn sort_vec(v: Vec<i32>) -> (r: Vec<i32>)
    ensures
        r@ == sort_i32(v@),
{
    let mut sorted: Vec<i32> = Vec::new();
    let mut idx: usize = 0;
    while idx < v.len()
        invariant
            0 <= idx <= v@.len(),
            sorted@ == sort_i32(v@.take(idx as int)),
        decreases v@.len() - idx,
    {
        insert_i32(&mut sorted, v[idx]);
        idx += 1;
        proof {
            assert(v@.take(idx as int).drop_last() =~= v@.take(idx - 1));
        }
    }
    proof {
        assert(v@.take(v@.len() as int) =~= v@);
    }
    sorted
}

/// Evaluates the tree over the given sets, sorting every intermediate
/// result.
pub fn eval_cnf_set(ast: &ASTNode, sets: &Vec<Vec<i32>>, universal_set: &Vec<i32>) -> (r: Vec<
    i32,
>)
    requires
        ops_ge_a(*ast),
    ensures
        r@ == eval_set_spec(*ast, sets.deep_view(), universal_set@),
    decreases *ast,
{
    let result: Vec<i32> = match ast {
        ASTNode::Operand(var) => {
            let code = *var as u32;
            let idx = (code - 65) as usize;
            if idx < sets.len() {
                let row = copy_row(&sets[idx]);
                proof {
                    assert(sets.deep_view()[idx as int] == sets@[idx as int]@);
                }
                row
            } else {
                Vec::new()
            }
        },
        ASTNode::Operator(op, left, ropt) => {
            if *op == '&' && ropt.is_some() {
                let right: &Box<ASTNode> = match ropt {
                    Some(r) => r,
                    None => vstd::pervasive::unreached(),
                };
                let left_set = eval_cnf_set(left, sets, universal_set);
                let right_set = eval_cnf_set(right, sets, universal_set);
                intersection(&left_set, &right_set)
            } else if *op == '|' && ropt.is_some() {
                let right: &Box<ASTNode> = match ropt {
                    Some(r) => r,
                    None => vstd::pervasive::unreached(),
                };
                let left_set = eval_cnf_set(left, sets, universal_set);
                let right_set = eval_cnf_set(right, sets, universal_set);
                union(&left_set, &right_set)
            } else if *op == '!' && ropt.is_none() {
                let inner = eval_cnf_set(left, sets, universal_set);
                complement(&inner, universal_set)
            } else {
                Vec::new()
            }
        },
    };
    sort_vec(result)
}

/// Evaluates a postfix set formula over the given sets; a formula that
/// does not parse yields the empty set.
pub fn eval_set(formula: &str, sets: &Vec<Vec<i32>>) -> (r: Vec<i32>)
    requires
        valid_formula_chars(formula@),
        operand_chars_ge(formula@),
    ensures
        ast_of(formula@) is Err ==> r@ == Seq::<i32>::empty(),
        ast_of(formula@) matches Ok(t) ==> r@ == eval_set_spec(
            cnf_spec(nnf_pos(t)),
            sets.deep_view(),
            univ_upto(sets.deep_view(), sets.deep_view().len() as nat),
        ),
{
    let ast = match get_ast(formula) {
        Ok(a) => a,
        Err(_) => {
            return Vec::new();
        },
    };
    let nnf_ast = nnf(&ast);
    let cnf_ast = cnf(&nnf_ast);
    let mut universal_set: Vec<i32> = Vec::new();
    let mut j: usize = 0;
    while j < sets.len()
        invariant
            0 <= j <= sets@.len(),
            universal_set@ == univ_upto(sets.deep_view(), j as nat),
        decreases sets@.len() - j,
    {
        proof {
            assert(sets.deep_view()[j as int] == sets@[j as int]@);
        }
        dedup_append(&mut universal_set, &sets[j]);
        j += 1;
    }
    proof {
        assert(forall|i: int|
            0 <= i < tokens_of(formula@).len() ==> #[trigger] tokens_of(formula@)[i] == spec_token(
                formula@[i],
            ));
        lemma_stack_ops(tokens_of(formula@));
        let t0 = ast_of(formula@).unwrap();
        lemma_nnf_ops(t0);
        lemma_cnf_ops(nnf_pos(t0));
    }
    eval_cnf_set(&cnf_ast, sets, &universal_set)
}

} // verus!
