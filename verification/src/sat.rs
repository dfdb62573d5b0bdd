//! Brute-force satisfiability of postfix boolean formulas.
//!
//! The formula is parsed, normalised and rewritten towards CNF exactly as
//! the printing pipeline does, its variables are collected, and every
//! assignment of the variables is tried.  The contract states full
//! completeness: the answer is `true` exactly when some assignment of the
//! collected variables (with every other character reading as false)
//! satisfies the rewritten tree.

use vstd::prelude::*;
use crate::ast::ASTNode;
use crate::ast::ast_of;
use crate::ast::get_ast;
use crate::ast::valid_formula_chars;
use crate::cnf::cnf;
use crate::cnf::cnf_spec;
use crate::nnf::nnf;
use crate::nnf::nnf_pos;
use crate::boolean_evaluation::env_val;
use crate::truth_table::extract_spec;
use crate::truth_table::extract_vars;
use crate::truth_table::lookup;
use crate::truth_table::map_of;

verus! {

/// The value of a tree under an assignment, with `&`, `|` and `!` read
/// structurally and anything else reading as false.
pub open spec fn eval_sat(t: ASTNode, m: Map<char, bool>) -> bool
    decreases t,
{
    match t {
        ASTNode::Operand(c) => env_val(m, c),
        ASTNode::Operator(op, l, ropt) => {
            if op == '&' && ropt is Some {
                eval_sat(*l, m) && eval_sat(*ropt.unwrap(), m)
            } else if op == '|' && ropt is Some {
                eval_sat(*l, m) || eval_sat(*ropt.unwrap(), m)
            } else if op == '!' && ropt is None {
                !eval_sat(*l, m)
            } else {
                false
            }
        },
    }
}

/// The tree rewritten the way the solver sees it.
pub open spec fn solver_tree(t: ASTNode) -> ASTNode {
    cnf_spec(nnf_pos(t))
}

/// The variables the solver enumerates.
pub open spec fn solver_vars(t: ASTNode) -> Seq<char> {
    extract_spec(solver_tree(t), Seq::<char>::empty())
}

/// The assignment encoded by the bits of `i`, least significant first.
pub open spec fn bits_of(i: usize, n: nat) -> Seq<bool> {
    Seq::new(n, |j: int| (i & (1usize << (j as usize))) != 0)
}

/// On a parsed tree whose operands are all real variables, the solver's
/// structural evaluation agrees with the boolean semantics.
proof fn lemma_eval_sat_env(t: ASTNode, m: Map<char, bool>)
    requires
        crate::truth_table::parsed_shape(t),
        crate::set_evaluation::ops_ge_a(t),
    ensures
        eval_sat(t, m) == crate::boolean_evaluation::eval_env(t, m),
    decreases t,
{
    match t {
        ASTNode::Operand(_) => {},
        ASTNode::Operator(op, l, ropt) => {
            lemma_eval_sat_env(*l, m);
            if op != '!' {
                match ropt {
                    Some(r) => {
                        lemma_eval_sat_env(*r, m);
                    },
                    None => {},
                }
            }
        },
    }
}

/// What the solver decides about the rewritten tree is exactly the
/// boolean meaning of the parsed formula, for formulas whose operands
/// are all real variables.
pub proof fn lemma_sat_matches_semantics(t: ASTNode, m: Map<char, bool>)
    requires
        crate::truth_table::parsed_shape(t),
        crate::set_evaluation::ops_ge_a(t),
    ensures
        eval_sat(solver_tree(t), m) == crate::boolean_evaluation::eval_env(t, m),
{
    crate::cnf::lemma_nnf_preserves_shape(t);
    crate::set_evaluation::lemma_nnf_ops(t);
    crate::cnf::lemma_cnf_preserves_shape(nnf_pos(t));
    crate::set_evaluation::lemma_cnf_ops(nnf_pos(t));
    crate::cnf::lemma_pipeline_preserves_eval(t, m);
    lemma_eval_sat_env(solver_tree(t), m);
}

/// Evaluation only depends on how the assignment reads each character.
proof fn lemma_eval_env_agree(t: ASTNode, m1: Map<char, bool>, m2: Map<char, bool>)
    requires
        forall|c: char| #[trigger] env_val(m1, c) == env_val(m2, c),
    ensures
        eval_sat(t, m1) == eval_sat(t, m2),
    decreases t,
{
    match t {
        ASTNode::Operand(c) => {},
        ASTNode::Operator(op, l, ropt) => {
            lemma_eval_env_agree(*l, m1, m2);
            match ropt {
                Some(r) => {
                    lemma_eval_env_agree(*r, m1, m2);
                },
                None => {},
            }
        },
    }
}

/// Looking a listed variable up gives its pointwise value.
proof fn lemma_lookup_pointwise(
    vars: Seq<char>,
    vals: Seq<bool>,
    c: char,
    m: Map<char, bool>,
)
    requires
        vars.len() == vals.len(),
        forall|j: int| 0 <= j < vars.len() ==> vals[j] == env_val(m, #[trigger] vars[j]),
        vars.contains(c),
    ensures
        lookup(vars, vals, c) == env_val(m, c),
    decreases vars.len(),
{
    if vars.len() > 0 {
        if vars[0] == c {
        } else {
            let i = vars.index_of(c);
            assert(vars.drop_first()[i - 1] == c);
            assert(forall|j: int|
                0 <= j < vars.drop_first().len() ==> vars.drop_first()[j] == vars[j + 1]
                    && vals.drop_first()[j] == vals[j + 1]);
            lemma_lookup_pointwise(vars.drop_first(), vals.drop_first(), c, m);
        }
    }
}

/// Every boolean sequence of length `n` is the bit pattern of some
/// counter value below `2^n`.
proof fn lemma_bits_surjective(bs: Seq<bool>, n: nat)
    requires
        bs.len() == n,
        n < 31,
    ensures
        exists|i: usize| i < (1usize << (n as usize)) && bits_of(i, n) =~= bs,
    decreases n,
{
    if n == 0 {
        let i0: usize = 0;
        assert(0usize < (1usize << 0usize)) by (bit_vector);
        assert(bits_of(i0, 0nat) =~= bs);
        assert(i0 < (1usize << (n as usize)) && bits_of(i0, n) =~= bs);
    } else {
        let m = (n - 1) as nat;
        lemma_bits_surjective(bs.drop_last(), m);
        let i0 = choose|i: usize| i < (1usize << (m as usize)) && bits_of(i, m) =~= bs.drop_last();
        let hi: usize = if bs.last() {
            1usize << (m as usize)
        } else {
            0usize
        };
        let i = (i0 + hi) as usize;
        let mu = m as usize;
        assert(i0 + hi < (1usize << ((mu + 1) as usize)) && ((i0 + hi) as usize) == i0 + hi)
            by (bit_vector)
            requires
                i0 < (1usize << mu),
                hi == 0usize || hi == (1usize << mu),
                mu < 31usize,
        ;
        assert forall|j: int| 0 <= j < n implies bits_of(i, n)[j] == bs[j] by {
            if j < m {
                let ju = j as usize;
                assert((((i0 + hi) as usize) & (1usize << ju)) == (i0 & (1usize << ju)))
                    by (bit_vector)
                    requires
                        i0 < (1usize << mu),
                        hi == 0usize || hi == (1usize << mu),
                        mu < 31usize,
                        ju < mu,
                ;
                assert(bits_of(i0, m)[j] == bs.drop_last()[j]);
            } else {
                assert((((i0 + hi) as usize) & (1usize << mu)) != 0 <==> hi == (1usize << mu))
                    by (bit_vector)
                    requires
                        i0 < (1usize << mu),
                        hi == 0usize || hi == (1usize << mu),
                        mu < 31usize,
                ;
                assert((1usize << mu) != 0usize) by (bit_vector)
                    requires
                        mu < 31usize,
                ;
            }
        }
        assert(i < (1usize << (n as usize)) && bits_of(i, n) =~= bs);
    }
}

/// Evaluates the tree under parallel variable/value lists, reading
/// unlisted characters as false.
pub fn solve_cnf(ast: &ASTNode, vars: &Vec<char>, vals: &Vec<bool>) -> (r: bool)
    requires
        vars@.len() == vals@.len(),
    ensures
        r == eval_sat(*ast, map_of(vars@, vals@)),
    decreases *ast,
{
    match ast {
        ASTNode::Operand(c) => {
            let mut k: usize = 0;
            proof {
                assert(vars@.skip(0int) =~= vars@);
                assert(vals@.skip(0int) =~= vals@);
            }
            while k < vars.len()
                invariant
                    0 <= k <= vars@.len(),
                    vars@.len() == vals@.len(),
                    *ast == ASTNode::Operand(*c),
                    lookup(vars@, vals@, *c) == lookup(
                        vars@.skip(k as int),
                        vals@.skip(k as int),
                        *c,
                    ),
                    vars@.contains(*c) <==> vars@.skip(k as int).contains(*c),
                decreases vars@.len() - k,
            {
                if vars[k] == *c {
                    proof {
                        assert(vars@.skip(k as int)[0] == vars@[k as int]);
                        assert(vals@.skip(k as int)[0] == vals@[k as int]);
                        assert(vars@.skip(k as int).contains(*c));
                        assert(vars@.contains(*c));
                        assert(map_of(vars@, vals@).dom().contains(*c));
                        assert(lookup(vars@.skip(k as int), vals@.skip(k as int), *c) == vals@[k as int]);
                        assert(map_of(vars@, vals@)[*c] == vals@[k as int]);
                    }
                    return vals[k];
                }
                proof {
                    assert(vars@.skip(k as int)[0] == vars@[k as int]);
                    assert(vars@.skip(k as int).drop_first() =~= vars@.skip(k + 1));
                    assert(vals@.skip(k as int).drop_first() =~= vals@.skip(k + 1));
                    assert(vars@.skip(k as int).contains(*c) <==> vars@.skip(k + 1).contains(
                        *c,
                    )) by {
                        if vars@.skip(k + 1).contains(*c) {
                            let idx = vars@.skip(k + 1).index_of(*c);
                            assert(vars@.skip(k as int)[idx + 1] == *c);
                        }
                        if vars@.skip(k as int).contains(*c) {
                            let idx = vars@.skip(k as int).index_of(*c);
                            assert(idx != 0);
                            assert(vars@.skip(k + 1)[idx - 1] == *c);
                        }
                    }
                }
                k += 1;
            }
            proof {
                assert(vars@.skip(vars@.len() as int) =~= Seq::<char>::empty());
            }
            false
        },
        ASTNode::Operator(op, left, ropt) => {
            if *op == '&' && ropt.is_some() {
                let right: &Box<ASTNode> = match ropt {
                    Some(r) => r,
                    None => vstd::pervasive::unreached(),
                };
                solve_cnf(left, vars, vals) && solve_cnf(right, vars, vals)
            } else if *op == '|' && ropt.is_some() {
                let right: &Box<ASTNode> = match ropt {
                    Some(r) => r,
                    None => vstd::pervasive::unreached(),
                };
                solve_cnf(left, vars, vals) || solve_cnf(right, vars, vals)
            } else if *op == '!' && ropt.is_none() {
                !solve_cnf(left, vars, vals)
            } else {
                false
            }
        },
    }
}

/// Whether some assignment of the formula's variables satisfies it.
pub fn sat(formula: &str) -> (r: bool)
    requires
        valid_formula_chars(formula@),
        ast_of(formula@) matches Ok(t) ==> solver_vars(t).len() < 31,
    ensures
        ast_of(formula@) is Err ==> r == false,
        ast_of(formula@) matches Ok(t) ==> r == exists|m: Map<char, bool>|
            m.dom() <= solver_vars(t).to_set() && eval_sat(solver_tree(t), m),
{
    let ast = match get_ast(formula) {
        Ok(a) => a,
        Err(_) => {
            return false;
        },
    };
    let nnf_ast = nnf(&ast);
    let cnf_ast = cnf(&nnf_ast);
    let mut variables: Vec<char> = Vec::new();
    extract_vars(&cnf_ast, &mut variables);
    let n = variables.len();
    let num_combinations: usize = 1usize << n;
    let mut i: usize = 0;
    let ghost t0 = ast_of(formula@).unwrap();
    while i < num_combinations
        invariant
            0 <= i <= num_combinations,
            n == variables@.len(),
            n < 31,
            num_combinations == 1usize << n,
            cnf_ast == solver_tree(t0),
            variables@ == solver_vars(t0),
            ast_of(formula@) matches Ok(tt) && tt == t0,
            forall|j: usize|
                j < i ==> !eval_sat(solver_tree(t0), map_of(variables@, #[trigger] bits_of(j, n as nat))),
        decreases num_combinations - i,
    {
        let mut assignments: Vec<bool> = Vec::new();
        let mut j: usize = 0;
        while j < n
            invariant
                0 <= j <= n,
                n < 31,
                assignments@ =~= bits_of(i, j as nat).take(j as int),
                assignments@.len() == j,
                forall|q: int|
                    0 <= q < j ==> assignments@[q] == ((i & (1usize << (q as usize))) != 0),
            decreases n - j,
        {
            let value = (i & (1usize << j)) != 0;
            assignments.push(value);
            j += 1;
        }
        proof {
            assert(assignments@ =~= bits_of(i, n as nat));
        }
        if solve_cnf(&cnf_ast, &variables, &assignments) {
            proof {
                let m = map_of(variables@, assignments@);
                assert(m.dom() <= solver_vars(t0).to_set()) by {
                    assert forall|c: char| m.dom().contains(c) implies solver_vars(
                        t0,
                    ).to_set().contains(c) by {
                        assert(variables@.contains(c));
                    }
                }
                assert(eval_sat(solver_tree(t0), m));
                assert(exists|m2: Map<char, bool>|
                    m2.dom() <= solver_vars(t0).to_set() && eval_sat(solver_tree(t0), m2));
            }
            return true;
        }
        i += 1;
    }
    proof {
        if exists|m: Map<char, bool>|
            m.dom() <= solver_vars(t0).to_set() && eval_sat(solver_tree(t0), m) {
            let m = choose|m: Map<char, bool>|
                m.dom() <= solver_vars(t0).to_set() && eval_sat(solver_tree(t0), m);
            let vs = variables@;
            let bs = Seq::new(vs.len(), |j: int| env_val(m, vs[j]));
            lemma_bits_surjective(bs, n as nat);
            let iw = choose|iw: usize|
                iw < (1usize << ((n as nat) as usize)) && bits_of(iw, n as nat) =~= bs;
            let m2 = map_of(vs, bits_of(iw, n as nat));
            assert forall|c: char| #[trigger] env_val(m2, c) == env_val(m, c) by {
                if vs.contains(c) {
                    lemma_lookup_pointwise(vs, bits_of(iw, n as nat), c, m);
                } else {
                    assert(!m.dom().contains(c));
                }
            }
            lemma_eval_env_agree(solver_tree(t0), m2, m);
            assert(!eval_sat(solver_tree(t0), map_of(vs, bits_of(iw, n as nat))));
            assert(false);
        }
    }
    false
}

} // verus!
