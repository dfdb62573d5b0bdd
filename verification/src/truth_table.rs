//! Markdown truth tables for postfix boolean formulas.
//!
//! The variables of a formula are its alphabetic operands, collected in
//! first-occurrence order, de-duplicated, and sorted; each row of the
//! table assigns them the bits of a counter, most significant bit first.

use vstd::prelude::*;
use crate::ast::ASTNode;
use crate::ast::ParseError;
use crate::ast::ast_of;
use crate::ast::get_ast;
use crate::ast::Token;
use crate::ast::stack_after;
use crate::ast::tokens_of;
use crate::ast::valid_formula_chars;
use crate::boolean_evaluation::is_binary_op;
use crate::boolean_evaluation::spec_calculate;
use crate::boolean_evaluation::calculate;
use crate::strutil::alphabetic;
use crate::strutil::is_alphabetic;
use crate::strutil::push_char;
use vstd::pervasive::unreached;
use vstd::string::StringExecFns;

verus! {

/// The shape that every successfully parsed tree has: `!` keeps only a
/// left child and every other operator is a binary `&` or `|`.
pub open spec fn parsed_shape(t: ASTNode) -> bool
    decreases t,
{
    match t {
        ASTNode::Operand(c) => c == '0' || c == '1' || alphabetic(c),
        ASTNode::Operator(op, l, ropt) => {
            if op == '!' {
                ropt is None && parsed_shape(*l)
            } else {
                (op == '&' || op == '|') && match ropt {
                    Some(r) => parsed_shape(*l) && parsed_shape(*r),
                    None => false,
                }
            }
        },
    }
}

/// Every tree on the parsing stack has the parsed shape.
pub proof fn lemma_stack_shape(tokens: Seq<Token>)
    requires
        forall|i: int|
            0 <= i < tokens.len() ==> ((#[trigger] tokens[i]) matches Token::Operand(c) ==> c
                == '0' || c == '1' || alphabetic(c)),
    ensures
        stack_after(tokens) matches Ok(st) ==> forall|i: int|
            0 <= i < st.len() ==> parsed_shape(#[trigger] st[i]),
    decreases tokens.len(),
{
    if tokens.len() > 0 {
        assert(forall|i: int|
            0 <= i < tokens.drop_last().len() ==> tokens.drop_last()[i] == tokens[i]);
        lemma_stack_shape(tokens.drop_last());
        match stack_after(tokens.drop_last()) {
            Ok(st) => {
                let tok = tokens.last();
                assert(tokens[tokens.len() - 1] == tok);
                match tok {
                    Token::Operand(c) => {
                        assert(parsed_shape(ASTNode::Operand(c)));
                    },
                    Token::Operator(op) => {
                        if op == '!' && st.len() >= 1 {
                            assert(parsed_shape(st.last()));
                            assert(parsed_shape(crate::ast::op1('!', st.last())));
                        } else if (op == '&' || op == '|' || op == '>' || op == '=' || op == '^')
                            && st.len() >= 2 {
                            let r = st.last();
                            let l = st.drop_last().last();
                            assert(parsed_shape(r));
                            assert(parsed_shape(l));
                            assert(parsed_shape(crate::ast::op1('!', l)));
                            assert(parsed_shape(crate::ast::op1('!', r)));
                            if op == '&' || op == '|' {
                                assert(parsed_shape(crate::ast::op2(op, l, r)));
                            } else if op == '>' {
                                assert(parsed_shape(
                                    crate::ast::op2('|', crate::ast::op1('!', l), r),
                                ));
                            } else if op == '=' {
                                assert(parsed_shape(crate::ast::op2('&', l, r)));
                                assert(parsed_shape(
                                    crate::ast::op2(
                                        '&',
                                        crate::ast::op1('!', l),
                                        crate::ast::op1('!', r),
                                    ),
                                ));
                                assert(parsed_shape(
                                    crate::ast::op2(
                                        '|',
                                        crate::ast::op2('&', l, r),
                                        crate::ast::op2(
                                            '&',
                                            crate::ast::op1('!', l),
                                            crate::ast::op1('!', r),
                                        ),
                                    ),
                                ));
                            } else {
                                assert(parsed_shape(
                                    crate::ast::op2('&', l, crate::ast::op1('!', r)),
                                ));
                                assert(parsed_shape(
                                    crate::ast::op2('&', crate::ast::op1('!', l), r),
                                ));
                                assert(parsed_shape(
                                    crate::ast::op2(
                                        '|',
                                        crate::ast::op2('&', l, crate::ast::op1('!', r)),
                                        crate::ast::op2('&', crate::ast::op1('!', l), r),
                                    ),
                                ));
                            }
                        }
                    },
                }
            },
            Err(_) => {},
        }
    }
}

/// A parsed formula has the parsed shape.
pub proof fn lemma_ast_of_shape(s: Seq<char>)
    ensures
        ast_of(s) matches Ok(t) ==> parsed_shape(t),
{
    assert(forall|i: int|
        0 <= i < tokens_of(s).len() ==> #[trigger] tokens_of(s)[i] == crate::ast::spec_token(
            s[i],
        ));
    lemma_stack_shape(tokens_of(s));
}

/// The variables collected so far, extended by a walk of the tree:
/// alphabetic operands are appended when not yet present.
pub open spec fn extract_spec(t: ASTNode, acc: Seq<char>) -> Seq<char>
    decreases t,
{
    match t {
        ASTNode::Operand(c) => if alphabetic(c) && !acc.contains(c) {
            acc.push(c)
        } else {
            acc
        },
        ASTNode::Operator(_, l, ropt) => {
            let acc1 = extract_spec(*l, acc);
            match ropt {
                Some(r) => extract_spec(*r, acc1),
                None => acc1,
            }
        },
    }
}

/// Inserting a character into a sorted run of characters.
pub open spec fn insert_sorted(s: Seq<char>, c: char) -> Seq<char>
    decreases s.len(),
{
    if s.len() == 0 {
        seq![c]
    } else if c as u32 <= s[0] as u32 {
        seq![c] + s
    } else {
        seq![s[0]] + insert_sorted(s.drop_first(), c)
    }
}

/// Insertion sort by character code.
pub open spec fn sort_chars(s: Seq<char>) -> Seq<char>
    decreases s.len(),
{
    if s.len() == 0 {
        Seq::<char>::empty()
    } else {
        insert_sorted(sort_chars(s.drop_last()), s.last())
    }
}

/// The sorted list of variables of a formula.
pub open spec fn sorted_vars(t: ASTNode) -> Seq<char> {
    sort_chars(extract_spec(t, Seq::<char>::empty()))
}

/// The value of variable `c` under parallel variable/value lists.
pub open spec fn lookup(vars: Seq<char>, vals: Seq<bool>, c: char) -> bool
    decreases vars.len(),
{
    if vars.len() == 0 {
        false
    } else if vars[0] == c {
        vals[0]
    } else {
        lookup(vars.drop_first(), vals.drop_first(), c)
    }
}

/// The assignment carried by parallel variable/value lists.
pub open spec fn map_of(vars: Seq<char>, vals: Seq<bool>) -> Map<char, bool> {
    Map::new(|c: char| vars.contains(c), |c: char| lookup(vars, vals, c))
}

/// A tree the row evaluator accepts, given the available variables.
pub open spec fn wf_tt(t: ASTNode, vars: Seq<char>) -> bool
    decreases t,
{
    match t {
        ASTNode::Operand(c) => c == '0' || c == '1' || (alphabetic(c) && vars.contains(c)),
        ASTNode::Operator(op, l, ropt) => {
            if op == '!' {
                wf_tt(*l, vars)
            } else {
                is_binary_op(op) && wf_tt(*l, vars) && match ropt {
                    Some(r) => wf_tt(*r, vars),
                    None => true,
                }
            }
        },
    }
}

/// The value of a tree under an assignment of the variables.
pub open spec fn eval_tt(t: ASTNode, vars: Seq<char>, vals: Seq<bool>) -> bool
    decreases t,
{
    match t {
        ASTNode::Operand(c) => if c == '0' {
            false
        } else if c == '1' {
            true
        } else {
            lookup(vars, vals, c)
        },
        ASTNode::Operator(op, l, ropt) => {
            if op == '!' {
                !eval_tt(*l, vars, vals)
            } else {
                let rv = match ropt {
                    Some(r) => eval_tt(*r, vars, vals),
                    None => false,
                };
                spec_calculate(op, eval_tt(*l, vars, vals), rv)
            }
        },
    }
}

/// The header cells, one ` V |` per variable.
pub open spec fn header_cells(vars: Seq<char>) -> Seq<char>
    decreases vars.len(),
{
    if vars.len() == 0 {
        Seq::<char>::empty()
    } else {
        header_cells(vars.drop_last()) + seq![' ', vars.last(), ' ', '|']
    }
}

/// `k` repetitions of `---|`.
pub open spec fn dashes(k: nat) -> Seq<char>
    decreases k,
{
    if k == 0 {
        Seq::<char>::empty()
    } else {
        dashes((k - 1) as nat) + seq!['-', '-', '-', '|']
    }
}

/// The two header lines of the table.
pub open spec fn header_spec(vars: Seq<char>) -> Seq<char> {
    seq!['|'] + header_cells(vars) + seq![' ', '=', ' ', '|', '\n', '|'] + dashes(
        (vars.len() + 1) as nat,
    ) + seq!['\n']
}

/// The bit of row `i` assigned to variable `j`: the variables read the
/// counter most significant bit first.
pub open spec fn row_bit(i: usize, n: nat, j: int) -> bool {
    (i >> (((n - 1 - j)) as usize)) & 1usize == 1usize
}

/// The first `j` cells of row `i`.
pub open spec fn row_cells(i: usize, n: nat, j: nat) -> Seq<char>
    decreases j,
{
    if j == 0 {
        Seq::<char>::empty()
    } else {
        row_cells(i, n, (j - 1) as nat) + seq![
            ' ',
            if row_bit(i, n, j - 1) {
                '1'
            } else {
                '0'
            },
            ' ',
            '|',
        ]
    }
}

/// The first `j` values of row `i`.
pub open spec fn row_vals(i: usize, n: nat, j: nat) -> Seq<bool>
    decreases j,
{
    if j == 0 {
        Seq::<bool>::empty()
    } else {
        row_vals(i, n, (j - 1) as nat).push(row_bit(i, n, j - 1))
    }
}

pub proof fn lemma_row_vals_len(i: usize, n: nat, j: nat)
    ensures
        row_vals(i, n, j).len() == j,
    decreases j,
{
    if j > 0 {
        lemma_row_vals_len(i, n, (j - 1) as nat);
    }
}

/// One full row of the table.
pub open spec fn row_spec(t: ASTNode, vars: Seq<char>, i: usize) -> Seq<char> {
    seq!['|'] + row_cells(i, vars.len(), vars.len()) + seq![
        ' ',
        if eval_tt(t, vars, row_vals(i, vars.len(), vars.len())) {
            '1'
        } else {
            '0'
        },
        ' ',
        '|',
        '\n',
    ]
}

/// The first `k` rows of the table.
pub open spec fn rows_upto(t: ASTNode, vars: Seq<char>, k: nat) -> Seq<char>
    decreases k,
{
    if k == 0 {
        Seq::<char>::empty()
    } else {
        rows_upto(t, vars, (k - 1) as nat) + row_spec(t, vars, ((k - 1) as nat) as usize)
    }
}

/// The whole table of a parsed formula.
pub open spec fn table_spec(t: ASTNode) -> Seq<char> {
    let vars = sorted_vars(t);
    header_spec(vars) + rows_upto(t, vars, (1usize << vars.len() as usize) as nat)
}

/// Collects the alphabetic operands of the tree that are not yet listed.
pub fn extract_vars(node: &ASTNode, vars: &mut Vec<char>)
    ensures
        final(vars)@ == extract_spec(*node, old(vars)@),
    decreases *node,
{
    match node {
        ASTNode::Operand(c) => {
            if is_alphabetic(*c) {
                let mut found = false;
                let mut k: usize = 0;
                while k < vars.len()
                    invariant
                        0 <= k <= vars@.len(),
                        found == vars@.take(k as int).contains(*c),
                    decreases vars@.len() - k,
                {
                    proof {
                        assert(vars@.take(k + 1) =~= vars@.take(k as int).push(vars@[k as int]));
                        if vars@[k as int] != *c {
                            assert(vars@.take(k + 1).contains(*c) ==> vars@.take(
                                k as int,
                            ).contains(*c)) by {
                                if vars@.take(k + 1).contains(*c) {
                                    let idx = vars@.take(k + 1).index_of(*c);
                                    assert(vars@.take(k as int)[idx] == *c);
                                }
                            }
                        } else {
                            assert(vars@.take(k + 1).last() == *c);
                        }
                    }
                    if vars[k] == *c {
                        found = true;
                    }
                    k += 1;
                }
                proof {
                    assert(vars@.take(vars@.len() as int) =~= vars@);
                }
                if !found {
                    vars.push(*c);
                }
            }
        },
        ASTNode::Operator(_, left, right_opt) => {
            extract_vars(left, vars);
            if let Some(right) = right_opt {
                extract_vars(right, vars);
            }
        },
    }
}

/// How an insertion splits a sorted run: everything smaller first.
proof fn lemma_insert_split(s: Seq<char>, c: char, k: int)
    requires
        0 <= k <= s.len(),
        forall|idx: int| 0 <= idx < k ==> ((#[trigger] s[idx]) as u32) < (c as u32),
        k < s.len() ==> (c as u32) <= (s[k] as u32),
    ensures
        insert_sorted(s, c) == s.take(k) + seq![c] + s.skip(k),
    decreases k,
{
    if k == 0 {
        if s.len() == 0 {
            assert(insert_sorted(s, c) =~= s.take(0) + seq![c] + s.skip(0));
        } else {
            assert(insert_sorted(s, c) =~= s.take(0) + seq![c] + s.skip(0));
        }
    } else {
        lemma_insert_split(s.drop_first(), c, k - 1);
        assert(s.drop_first().take(k - 1) =~= s.take(k).drop_first());
        assert(s.drop_first().skip(k - 1) =~= s.skip(k));
        assert(insert_sorted(s, c) =~= s.take(k) + seq![c] + s.skip(k));
    }
}

/// Inserts `c` into the sorted vector `out`.
fn insert_char(out: &mut Vec<char>, c: char)
    ensures
        final(out)@ == insert_sorted(old(out)@, c),
{
    let mut k: usize = 0;
    while k < out.len() && (out[k] as u32) < (c as u32)
        invariant
            0 <= k <= out@.len(),
            forall|idx: int| 0 <= idx < k ==> ((#[trigger] out@[idx]) as u32) < (c as u32),
        decreases out@.len() - k,
    {
        k += 1;
    }
    proof {
        lemma_insert_split(out@, c, k as int);
    }
    out.insert(k, c);
    proof {
        assert(final(out)@ =~= old(out)@.take(k as int) + seq![c] + old(out)@.skip(k as int));
    }
}

/// The variables of the tree, sorted by character code.
pub fn extract_and_sort_vars_from_ast(ast: &ASTNode) -> (r: Vec<char>)
    ensures
        r@ == sorted_vars(*ast),
{
    let mut vars: Vec<char> = Vec::new();
    extract_vars(ast, &mut vars);
    let ghost collected = vars@;
    let mut sorted: Vec<char> = Vec::new();
    let mut idx: usize = 0;
    while idx < vars.len()
        invariant
            0 <= idx <= vars@.len(),
            vars@ == collected,
            sorted@ == sort_chars(collected.take(idx as int)),
        decreases vars@.len() - idx,
    {
        insert_char(&mut sorted, vars[idx]);
        idx += 1;
        proof {
            assert(collected.take(idx as int).drop_last() =~= collected.take(idx - 1));
        }
    }
    proof {
        assert(collected.take(collected.len() as int) =~= collected);
    }
    sorted
}

/// Builds the two header lines.
pub fn create_truth_table_header(vars: &Vec<char>) -> (r: String)
    requires
        vars@.len() < usize::MAX,
    ensures
        r@ == header_spec(vars@),
{
    let mut header = String::new();
    push_char(&mut header, '|');
    let mut j: usize = 0;
    while j < vars.len()
        invariant
            0 <= j <= vars@.len(),
            header@ == seq!['|'] + header_cells(vars@.take(j as int)),
        decreases vars@.len() - j,
    {
        push_char(&mut header, ' ');
        push_char(&mut header, vars[j]);
        push_char(&mut header, ' ');
        push_char(&mut header, '|');
        j += 1;
        proof {
            assert(vars@.take(j as int).drop_last() =~= vars@.take(j - 1));
            assert(vars@.take(j as int).last() == vars@[j - 1]);
            assert(header@ =~= seq!['|'] + header_cells(vars@.take(j as int)));
        }
    }
    proof {
        assert(vars@.take(vars@.len() as int) =~= vars@);
    }
    push_char(&mut header, ' ');
    push_char(&mut header, '=');
    push_char(&mut header, ' ');
    push_char(&mut header, '|');
    push_char(&mut header, '\n');
    push_char(&mut header, '|');
    let mut k: usize = 0;
    let reps = vars.len() + 1;
    let ghost before = header@;
    while k < reps
        invariant
            0 <= k <= reps,
            header@ == before + dashes(k as nat),
        decreases reps - k,
    {
        push_char(&mut header, '-');
        push_char(&mut header, '-');
        push_char(&mut header, '-');
        push_char(&mut header, '|');
        k += 1;
        proof {
            assert(header@ =~= before + dashes(k as nat));
        }
    }
    push_char(&mut header, '\n');
    proof {
        assert(header@ =~= header_spec(vars@));
    }
    header
}

/// Evaluates the tree under parallel variable/value lists.
pub fn evaluate_ast(node: &ASTNode, vars: &Vec<char>, vals: &Vec<bool>) -> (r: bool)
    requires
        wf_tt(*node, vars@),
        vars@.len() == vals@.len(),
    ensures
        r == eval_tt(*node, vars@, vals@),
    decreases *node,
{
    match node {
        ASTNode::Operand(c) => {
            if *c == '0' {
                false
            } else if *c == '1' {
                true
            } else {
                let mut k: usize = 0;
                proof {
                    assert(vars@.skip(0int) =~= vars@);
                    assert(vals@.skip(0int) =~= vals@);
                    assert(vars@.take(0int) =~= Seq::<char>::empty());
                }
                while k < vars.len()
                    invariant
                        0 <= k <= vars@.len(),
                        vars@.len() == vals@.len(),
                        wf_tt(*node, vars@),
                        node matches ASTNode::Operand(cc) && cc == *c,
                        *c != '0' && *c != '1',
                        !vars@.take(k as int).contains(*c),
                        eval_tt(*node, vars@, vals@) == lookup(
                            vars@.skip(k as int),
                            vals@.skip(k as int),
                            *c,
                        ),
                    decreases vars@.len() - k,
                {
                    if vars[k] == *c {
                        proof {
                            assert(vars@.skip(k as int)[0] == vars@[k as int]);
                        }
                        return vals[k];
                    }
                    proof {
                        assert(vars@.skip(k as int)[0] == vars@[k as int]);
                        assert(vars@.skip(k as int).drop_first() =~= vars@.skip(k + 1));
                        assert(vals@.skip(k as int).drop_first() =~= vals@.skip(k + 1));
                        assert(vars@.take(k + 1) =~= vars@.take(k as int).push(vars@[k as int]));
                        assert(!vars@.take(k + 1).contains(*c)) by {
                            if vars@.take(k + 1).contains(*c) {
                                let idx = vars@.take(k + 1).index_of(*c);
                                assert(vars@.take(k as int)[idx] == *c);
                            }
                        }
                    }
                    k += 1;
                }
                proof {
                    assert(vars@.take(k as int) =~= vars@);
                    assert(false);
                }
                unreached()
            }
        },
        ASTNode::Operator(op, left, right_opt) => {
            if *op == '!' {
                let val = evaluate_ast(left, vars, vals);
                !val
            } else {
                let left_val = evaluate_ast(left, vars, vals);
                let right_val = match right_opt {
                    Some(right) => evaluate_ast(right, vars, vals),
                    None => false,
                };
                calculate(*op, left_val, right_val)
            }
        },
    }
}

/// Builds every row of the table.
pub fn evaluate_combinations(ast: &ASTNode, vars: &Vec<char>) -> (r: Result<String, ParseError>)
    requires
        wf_tt(*ast, vars@),
        vars@.len() < 31,
    ensures
        r matches Ok(out) && out@ == rows_upto(
            *ast,
            vars@,
            (1usize << vars@.len() as usize) as nat,
        ),
{
    let mut output = String::new();
    let num_vars = vars.len();
    let total: usize = 1usize << num_vars;
    let mut i: usize = 0;
    while i < total
        invariant
            0 <= i <= total,
            total == 1usize << vars@.len() as usize,
            num_vars == vars@.len(),
            vars@.len() < 31,
            wf_tt(*ast, vars@),
            output@ == rows_upto(*ast, vars@, i as nat),
        decreases total - i,
    {
        push_char(&mut output, '|');
        let mut eval_vals: Vec<bool> = Vec::new();
        let mut j: usize = 0;
        let ghost row_start = output@;
        while j < num_vars
            invariant
                0 <= j <= num_vars,
                num_vars == vars@.len(),
                vars@.len() < 31,
                output@ == row_start + row_cells(i, vars@.len(), j as nat),
                eval_vals@ == row_vals(i, vars@.len(), j as nat),
            decreases num_vars - j,
        {
            let shift = num_vars - j - 1;
            let value = (i >> shift) & 1 == 1;
            eval_vals.push(value);
            push_char(&mut output, ' ');
            push_char(&mut output, if value { '1' } else { '0' });
            push_char(&mut output, ' ');
            push_char(&mut output, '|');
            j += 1;
            proof {
                assert(output@ =~= row_start + row_cells(i, vars@.len(), j as nat));
            }
        }
        proof {
            lemma_row_vals_len(i, vars@.len(), vars@.len());
        }
        let result = evaluate_ast(ast, vars, &eval_vals);
        push_char(&mut output, ' ');
        push_char(&mut output, if result { '1' } else { '0' });
        push_char(&mut output, ' ');
        push_char(&mut output, '|');
        push_char(&mut output, '\n');
        i += 1;
        proof {
            assert(output@ =~= rows_upto(*ast, vars@, i as nat));
        }
    }
    Ok(output)
}

/// The full truth table of a formula, or its parse error.
pub fn generate_truth_table(formula: &str) -> (r: Result<String, ParseError>)
    requires
        valid_formula_chars(formula@),
        ast_of(formula@) matches Ok(t) ==> sorted_vars(t).len() < 31,
    ensures
        ast_of(formula@) matches Ok(t) ==> r matches Ok(out) && out@ == table_spec(t),
        ast_of(formula@) matches Err(e) ==> r == Err::<String, ParseError>(e),
{
    let ast = match get_ast(formula) {
        Ok(a) => a,
        Err(e) => {
            return Err(e);
        },
    };
    proof {
        lemma_ast_of_shape(formula@);
        lemma_parsed_shape_wf(ast);
    }
    let vars = extract_and_sort_vars_from_ast(&ast);
    let mut output = create_truth_table_header(&vars);
    let rows = match evaluate_combinations(&ast, &vars) {
        Ok(rws) => rws,
        Err(_) => unreached(),
    };
    output.append(rows.as_str());
    proof {
        assert(output@ =~= table_spec(ast));
    }
    Ok(output)
}

/// Extraction only ever appends.
proof fn lemma_extract_keeps(t: ASTNode, acc: Seq<char>, x: char)
    requires
        acc.contains(x),
    ensures
        extract_spec(t, acc).contains(x),
    decreases t,
{
    match t {
        ASTNode::Operand(c) => {
            if alphabetic(c) && !acc.contains(c) {
                assert(acc.push(c)[acc.index_of(x)] == x);
            }
        },
        ASTNode::Operator(_, l, ropt) => {
            lemma_extract_keeps(*l, acc, x);
            match ropt {
                Some(r) => {
                    lemma_extract_keeps(*r, extract_spec(*l, acc), x);
                },
                None => {},
            }
        },
    }
}

/// Fitness for row evaluation only grows with the variable list.
proof fn lemma_wf_tt_monotone(t: ASTNode, vs: Seq<char>, vs2: Seq<char>)
    requires
        wf_tt(t, vs),
        forall|c: char| vs.contains(c) ==> vs2.contains(c),
    ensures
        wf_tt(t, vs2),
    decreases t,
{
    match t {
        ASTNode::Operand(c) => {},
        ASTNode::Operator(op, l, ropt) => {
            lemma_wf_tt_monotone(*l, vs, vs2);
            if op != '!' {
                match ropt {
                    Some(r) => {
                        lemma_wf_tt_monotone(*r, vs, vs2);
                    },
                    None => {},
                }
            }
        },
    }
}

/// A parsed tree is fit for evaluation against its own extracted variables.
proof fn lemma_shape_wf_extract(t: ASTNode, acc: Seq<char>)
    requires
        parsed_shape(t),
    ensures
        wf_tt(t, extract_spec(t, acc)),
    decreases t,
{
    match t {
        ASTNode::Operand(c) => {
            if alphabetic(c) && !acc.contains(c) {
                assert(acc.push(c).last() == c);
            }
        },
        ASTNode::Operator(op, l, ropt) => {
            match ropt {
                Some(r) => {
                    if op != '!' {
                        let acc1 = extract_spec(*l, acc);
                        lemma_shape_wf_extract(*l, acc);
                        assert forall|c: char| acc1.contains(c) implies extract_spec(
                            *r,
                            acc1,
                        ).contains(c) by {
                            lemma_extract_keeps(*r, acc1, c);
                        }
                        lemma_wf_tt_monotone(*l, acc1, extract_spec(*r, acc1));
                        lemma_shape_wf_extract(*r, acc1);
                    }
                },
                None => {
                    lemma_shape_wf_extract(*l, acc);
                },
            }
        },
    }
}

/// Insertion keeps exactly the members, plus the inserted one.
proof fn lemma_insert_sorted_contains(s: Seq<char>, c: char, x: char)
    ensures
        insert_sorted(s, c).contains(x) <==> (x == c || s.contains(x)),
    decreases s.len(),
{
    if s.len() == 0 {
        assert(insert_sorted(s, c)[0] == c);
    } else if c as u32 <= s[0] as u32 {
        let r = seq![c] + s;
        assert(r[0] == c);
        assert forall|i: int| 0 <= i < s.len() implies r[i + 1] == s[i] by {}
        if r.contains(x) {
            let i = r.index_of(x);
            if i > 0 {
                assert(s[i - 1] == x);
            }
        }
        if s.contains(x) {
            assert(r[s.index_of(x) + 1] == x);
        }
    } else {
        lemma_insert_sorted_contains(s.drop_first(), c, x);
        let tail = insert_sorted(s.drop_first(), c);
        let r = seq![s[0]] + tail;
        assert(r[0] == s[0]);
        assert forall|i: int| 0 <= i < tail.len() implies r[i + 1] == tail[i] by {}
        if r.contains(x) {
            let i = r.index_of(x);
            if i > 0 {
                assert(tail[i - 1] == x);
            }
        }
        if x == c || s.contains(x) {
            if x == s[0] {
            } else if x == c {
                assert(r[tail.index_of(x) + 1] == x);
            } else {
                assert(s.drop_first()[s.index_of(x) - 1] == x);
                assert(r[tail.index_of(x) + 1] == x);
            }
        }
    }
}

/// Sorting keeps exactly the members.
proof fn lemma_sort_contains(s: Seq<char>, x: char)
    ensures
        sort_chars(s).contains(x) <==> s.contains(x),
    decreases s.len(),
{
    if s.len() > 0 {
        lemma_sort_contains(s.drop_last(), x);
        lemma_insert_sorted_contains(sort_chars(s.drop_last()), s.last(), x);
        if s.contains(x) {
            let i = s.index_of(x);
            if i < s.len() - 1 {
                assert(s.drop_last()[i] == x);
            }
        }
        if s.drop_last().contains(x) {
            let i = s.drop_last().index_of(x);
            assert(s[i] == x);
        }
    }
}

/// An unlisted variable reads as false.
proof fn lemma_lookup_absent(vars: Seq<char>, vals: Seq<bool>, c: char)
    requires
        !vars.contains(c),
    ensures
        lookup(vars, vals, c) == false,
    decreases vars.len(),
{
    if vars.len() > 0 {
        assert(vars[0] != c);
        assert forall|j: int| 0 <= j < vars.drop_first().len() implies vars.drop_first()[j]
            == vars[j + 1] by {}
        lemma_lookup_absent(vars.drop_first(), vals.drop_first(), c);
    }
}

/// Row evaluation is the boolean semantics of the formula under the
/// assignment that the parallel variable/value lists carry.
pub proof fn lemma_eval_tt_is_eval_env(t: ASTNode, vars: Seq<char>, vals: Seq<bool>)
    requires
        parsed_shape(t),
    ensures
        eval_tt(t, vars, vals) == crate::boolean_evaluation::eval_env(t, map_of(vars, vals)),
    decreases t,
{
    match t {
        ASTNode::Operand(c) => {
            if c != '0' && c != '1' {
                if !vars.contains(c) {
                    lemma_lookup_absent(vars, vals, c);
                }
            }
        },
        ASTNode::Operator(op, l, ropt) => {
            lemma_eval_tt_is_eval_env(*l, vars, vals);
            if op != '!' {
                match ropt {
                    Some(r) => {
                        lemma_eval_tt_is_eval_env(*r, vars, vals);
                    },
                    None => {},
                }
            }
        },
    }
}

/// A parsed tree is fit for evaluation against its sorted variables.
proof fn lemma_parsed_shape_wf(t: ASTNode)
    requires
        parsed_shape(t),
    ensures
        wf_tt(t, sorted_vars(t)),
{
    let collected = extract_spec(t, Seq::<char>::empty());
    lemma_shape_wf_extract(t, Seq::<char>::empty());
    assert forall|c: char| collected.contains(c) implies sorted_vars(t).contains(c) by {
        lemma_sort_contains(collected, c);
    }
    lemma_wf_tt_monotone(t, collected, sorted_vars(t));
}

} // verus!
