//! Postfix boolean formulas parsed into an abstract syntax tree.
//!
//! Operands are single characters (letters, `0`, `1`); operators are `!`,
//! `&`, `|`, `^`, `>` and `=`.  Parsing eliminates `>`, `=` and `^` on the
//! fly, rewriting them into combinations of `&`, `|` and `!`, so a
//! successfully parsed tree only ever holds those three operators.

use vstd::prelude::*;
use crate::strutil::alphabetic;
use crate::strutil::is_alphabetic;
use crate::strutil::push_char;
use crate::strutil::str_chars;
use vstd::string::StringExecFns;

verus! {

#[derive(Clone, Copy)]
pub enum Token {
    Operand(char),
    Operator(char),
}

pub enum ASTNode {
    Operand(char),
    Operator(char, Box<ASTNode>, Option<Box<ASTNode>>),
}

#[derive(Debug)]
pub enum ParseError {
    /// `!` found nothing on the stack to negate.
    MissingNotOperand,
    /// A binary operator found no right operand on the stack.
    MissingRightOperand,
    /// A binary operator found no left operand on the stack.
    MissingLeftOperand,
    /// An operator character outside the recognised set.
    UnexpectedOperator(char),
    /// The expression did not reduce to exactly one tree.
    Unbalanced,
}

pub open spec fn is_op_char(c: char) -> bool {
    c == '!' || c == '&' || c == '|' || c == '^' || c == '>' || c == '='
}

/// A character the tokenizer accepts: a letter, a constant, or an operator.
pub open spec fn valid_char(c: char) -> bool {
    alphabetic(c) || c == '0' || c == '1' || is_op_char(c)
}

pub open spec fn valid_formula_chars(s: Seq<char>) -> bool {
    forall|i: int| 0 <= i < s.len() ==> valid_char(#[trigger] s[i])
}

/// The token a character turns into (operand classification first, exactly
/// as the tokenizer checks it).
pub open spec fn spec_token(c: char) -> Token {
    if alphabetic(c) || c == '0' || c == '1' {
        Token::Operand(c)
    } else {
        Token::Operator(c)
    }
}

pub open spec fn tokens_of(s: Seq<char>) -> Seq<Token> {
    s.map_values(|c: char| spec_token(c))
}

pub open spec fn op1(c: char, l: ASTNode) -> ASTNode {
    ASTNode::Operator(c, Box::new(l), None)
}

pub open spec fn op2(c: char, l: ASTNode, r: ASTNode) -> ASTNode {
    ASTNode::Operator(c, Box::new(l), Some(Box::new(r)))
}

/// One step of the postfix stack machine.
pub open spec fn stack_step(st: Seq<ASTNode>, tok: Token) -> Result<Seq<ASTNode>, ParseError> {
    match tok {
        Token::Operand(c) => Ok(st.push(ASTNode::Operand(c))),
        Token::Operator(op) => {
            if op == '!' {
                if st.len() < 1 {
                    Err(ParseError::MissingNotOperand)
                } else {
                    Ok(st.drop_last().push(op1('!', st.last())))
                }
            } else if op == '&' || op == '|' || op == '>' || op == '=' || op == '^' {
                if st.len() < 1 {
                    Err(ParseError::MissingRightOperand)
                } else if st.len() < 2 {
                    Err(ParseError::MissingLeftOperand)
                } else {
                    let r = st.last();
                    let l = st.drop_last().last();
                    let rest = st.drop_last().drop_last();
                    if op == '&' || op == '|' {
                        Ok(rest.push(op2(op, l, r)))
                    } else if op == '>' {
                        Ok(rest.push(op2('|', op1('!', l), r)))
                    } else if op == '=' {
                        Ok(rest.push(op2('|', op2('&', l, r), op2('&', op1('!', l), op1('!', r)))))
                    } else {
                        Ok(rest.push(op2('|', op2('&', l, op1('!', r)), op2('&', op1('!', l), r))))
                    }
                }
            } else {
                Err(ParseError::UnexpectedOperator(op))
            }
        },
    }
}

/// The stack after consuming all of `tokens`, or the first error hit.
pub open spec fn stack_after(tokens: Seq<Token>) -> Result<Seq<ASTNode>, ParseError>
    decreases tokens.len(),
{
    if tokens.len() == 0 {
        Ok(Seq::<ASTNode>::empty())
    } else {
        match stack_after(tokens.drop_last()) {
            Ok(st) => stack_step(st, tokens.last()),
            Err(e) => Err(e),
        }
    }
}

/// What parsing a whole formula yields.
pub open spec fn ast_of(s: Seq<char>) -> Result<ASTNode, ParseError> {
    match stack_after(tokens_of(s)) {
        Ok(st) => if st.len() == 1 {
            Ok(st[0])
        } else {
            Err(ParseError::Unbalanced)
        },
        Err(e) => Err(e),
    }
}

/// An error in a token prefix decides the whole run.
pub proof fn lemma_err_propagates(tokens: Seq<Token>, i: int)
    requires
        0 <= i <= tokens.len(),
        stack_after(tokens.take(i)) is Err,
    ensures
        stack_after(tokens) == stack_after(tokens.take(i)),
    decreases tokens.len() - i,
{
    if i == tokens.len() {
        assert(tokens.take(i) =~= tokens);
    } else {
        assert(tokens.take(i + 1).drop_last() =~= tokens.take(i));
        lemma_err_propagates(tokens, i + 1);
    }
}

pub(crate) fn clone_ast(t: &ASTNode) -> (r: ASTNode)
    ensures
        r == *t,
    decreases *t,
{
    match t {
        ASTNode::Operand(c) => ASTNode::Operand(*c),
        ASTNode::Operator(op, l, ropt) => {
            let rc: Option<Box<ASTNode>> = match ropt {
                Some(rb) => Some(Box::new(clone_ast(rb))),
                None => None,
            };
            ASTNode::Operator(*op, Box::new(clone_ast(l)), rc)
        },
    }
}

/// Turns a formula into its token list.  The caller must hand over only
/// recognised characters: letters, constants and operators.
pub fn tokenize(expression: &str) -> (tokens: Vec<Token>)
    requires
        valid_formula_chars(expression@),
    ensures
        tokens@ == tokens_of(expression@),
{
    let cs = str_chars(expression);
    let mut tokens: Vec<Token> = Vec::new();
    let mut i: usize = 0;
    while i < cs.len()
        invariant
            0 <= i <= cs@.len(),
            cs@ == expression@,
            valid_formula_chars(expression@),
            tokens@ == tokens_of(expression@.take(i as int)),
        decreases cs@.len() - i,
    {
        let c = cs[i];
        if is_alphabetic(c) || c == '0' || c == '1' {
            tokens.push(Token::Operand(c));
        } else {
            tokens.push(Token::Operator(c));
        }
        proof {
            assert(expression@.take(i + 1) =~= expression@.take(i as int).push(cs@[i as int]));
            assert(tokens@ =~= tokens_of(expression@.take(i as int)).push(spec_token(c)));
            assert(tokens@ =~= tokens_of(expression@.take(i + 1)));
        }
        i += 1;
    }
    proof {
        assert(expression@.take(cs@.len() as int) =~= expression@);
    }
    tokens
}

/// Runs the postfix stack machine over `tokens` and returns the single
/// resulting tree, or the first error.
pub fn postfix_to_ast(tokens: &Vec<Token>) -> (r: Result<ASTNode, ParseError>)
    ensures
        r == match stack_after(tokens@) {
            Ok(st) => if st.len() == 1 {
                Ok::<ASTNode, ParseError>(st[0])
            } else {
                Err::<ASTNode, ParseError>(ParseError::Unbalanced)
            },
            Err(e) => Err::<ASTNode, ParseError>(e),
        },
{
    let mut stack: Vec<ASTNode> = Vec::new();
    let n = tokens.len();
    let mut i: usize = 0;
    while i < n
        invariant
            0 <= i <= tokens@.len(),
            n == tokens@.len(),
            stack_after(tokens@.take(i as int)) == Ok::<Seq<ASTNode>, ParseError>(stack@),
        decreases n - i,
    {
        proof {
            assert(tokens@.take(i + 1 as int).drop_last() =~= tokens@.take(i as int));
            assert(tokens@.take(i + 1 as int).last() == tokens@[i as int]);
        }
        match tokens[i] {
            Token::Operand(value) => {
                stack.push(ASTNode::Operand(value));
            },
            Token::Operator(op) => {
                if op == '!' {
                    if stack.len() < 1 {
                        proof {
                            lemma_err_propagates(tokens@, i + 1 as int);
                        }
                        return Err(ParseError::MissingNotOperand);
                    }
                    let operand = stack.pop().unwrap();
                    stack.push(ASTNode::Operator('!', Box::new(operand), None));
                } else if op == '&' || op == '|' || op == '>' || op == '=' || op == '^' {
                    if stack.len() < 1 {
                        proof {
                            lemma_err_propagates(tokens@, i + 1 as int);
                        }
                        return Err(ParseError::MissingRightOperand);
                    }
                    let right = stack.pop().unwrap();
                    if stack.len() < 1 {
                        proof {
                            lemma_err_propagates(tokens@, i + 1 as int);
                        }
                        return Err(ParseError::MissingLeftOperand);
                    }
                    let left = stack.pop().unwrap();
                    if op == '&' || op == '|' {
                        stack.push(ASTNode::Operator(op, Box::new(left), Some(Box::new(right))));
                    } else if op == '>' {
                        let not_left = ASTNode::Operator('!', Box::new(left), None);
                        stack.push(
                            ASTNode::Operator('|', Box::new(not_left), Some(Box::new(right))),
                        );
                    } else if op == '=' {
                        let left_and_right = ASTNode::Operator(
                            '&',
                            Box::new(clone_ast(&left)),
                            Some(Box::new(clone_ast(&right))),
                        );
                        let not_left = ASTNode::Operator('!', Box::new(left), None);
                        let not_right = ASTNode::Operator('!', Box::new(right), None);
                        let not_both = ASTNode::Operator(
                            '&',
                            Box::new(not_left),
                            Some(Box::new(not_right)),
                        );
                        stack.push(
                            ASTNode::Operator(
                                '|',
                                Box::new(left_and_right),
                                Some(Box::new(not_both)),
                            ),
                        );
                    } else {
                        let not_right = ASTNode::Operator(
                            '!',
                            Box::new(clone_ast(&right)),
                            None,
                        );
                        let not_left = ASTNode::Operator('!', Box::new(clone_ast(&left)), None);
                        let left_and_not_right = ASTNode::Operator(
                            '&',
                            Box::new(left),
                            Some(Box::new(not_right)),
                        );
                        let not_left_and_right = ASTNode::Operator(
                            '&',
                            Box::new(not_left),
                            Some(Box::new(right)),
                        );
                        stack.push(
                            ASTNode::Operator(
                                '|',
                                Box::new(left_and_not_right),
                                Some(Box::new(not_left_and_right)),
                            ),
                        );
                    }
                } else {
                    proof {
                        lemma_err_propagates(tokens@, i + 1 as int);
                    }
                    return Err(ParseError::UnexpectedOperator(op));
                }
            },
        }
        i += 1;
    }
    proof {
        assert(tokens@.take(n as int) =~= tokens@);
    }
    if stack.len() == 1 {
        Ok(stack.pop().unwrap())
    } else {
        Err(ParseError::Unbalanced)
    }
}

/// Parses a postfix formula string into its (rewritten) syntax tree.
pub fn get_ast(expression: &str) -> (r: Result<ASTNode, ParseError>)
    requires
        valid_formula_chars(expression@),
    ensures
        r == ast_of(expression@),
{
    let tokens = tokenize(expression);
    postfix_to_ast(&tokens)
}

/// The postfix rendering of a tree.
pub open spec fn postfix_str(t: ASTNode) -> Seq<char>
    decreases t,
{
    match t {
        ASTNode::Operand(c) => seq![c],
        ASTNode::Operator(op, l, ropt) => postfix_str(*l) + (match ropt {
            Some(r) => postfix_str(*r),
            None => Seq::<char>::empty(),
        }) + seq![op],
    }
}

pub open spec fn spec_precedence(op: char) -> u8 {
    if op == '!' {
        3
    } else if op == '&' {
        2
    } else if op == '|' || op == '^' {
        1
    } else {
        0
    }
}

/// The infix rendering: binary operators are spaced and parenthesised by
/// precedence, unary operators are prefixed.
pub open spec fn infix_str(t: ASTNode) -> Seq<char>
    decreases t,
{
    match t {
        ASTNode::Operand(c) => seq![c],
        ASTNode::Operator(op, l, ropt) => {
            let prec = spec_precedence(op);
            let ls = match *l {
                ASTNode::Operator(lop, _, _) => if spec_precedence(lop) < prec {
                    seq!['('] + infix_str(*l) + seq![')']
                } else {
                    infix_str(*l)
                },
                _ => infix_str(*l),
            };
            match ropt {
                Some(r) => {
                    let rs = match *r {
                        ASTNode::Operator(rop, _, _) => if spec_precedence(rop) <= prec {
                            seq!['('] + infix_str(*r) + seq![')']
                        } else {
                            infix_str(*r)
                        },
                        _ => infix_str(*r),
                    };
                    ls + seq![' ', op, ' '] + rs
                },
                None => seq![op] + ls,
            }
        },
    }
}

/// Renders the tree back into a postfix expression string.
pub fn ast_to_postfix_string(ast: &ASTNode) -> (r: String)
    ensures
        r@ == postfix_str(*ast),
    decreases *ast,
{
    match ast {
        ASTNode::Operand(c) => {
            let mut s = String::new();
            push_char(&mut s, *c);
            proof {
                assert(s@ =~= postfix_str(*ast));
            }
            s
        },
        ASTNode::Operator(op, l, ropt) => {
            let mut s = ast_to_postfix_string(l);
            if let Some(r2) = ropt {
                let rs = ast_to_postfix_string(r2);
                s.append(rs.as_str());
            }
            push_char(&mut s, *op);
            proof {
                assert(s@ =~= postfix_str(*ast));
            }
            s
        },
    }
}

pub fn operator_precedence(op: char) -> (r: u8)
    ensures
        r == spec_precedence(op),
{
    if op == '!' {
        3
    } else if op == '&' {
        2
    } else if op == '|' || op == '^' {
        1
    } else {
        0
    }
}

/// Renders the tree as an infix expression with precedence parentheses.
pub fn ast_to_infix_string(ast: &ASTNode) -> (r: String)
    ensures
        r@ == infix_str(*ast),
    decreases *ast,
{
    match ast {
        ASTNode::Operand(c) => {
            let mut s = String::new();
            push_char(&mut s, *c);
            proof {
                assert(s@ =~= infix_str(*ast));
            }
            s
        },
        ASTNode::Operator(op, l, ropt) => {
            let current_precedence = operator_precedence(*op);
            let mut left_str = String::new();
            let mut parenthesise_left = false;
            if let ASTNode::Operator(lop, _, _) = &**l {
                if operator_precedence(*lop) < current_precedence {
                    parenthesise_left = true;
                }
            }
            if parenthesise_left {
                push_char(&mut left_str, '(');
            }
            let inner_left = ast_to_infix_string(l);
            left_str.append(inner_left.as_str());
            if parenthesise_left {
                push_char(&mut left_str, ')');
            }
            match ropt {
                Some(r2) => {
                    let mut right_str = String::new();
                    let mut parenthesise_right = false;
                    if let ASTNode::Operator(rop, _, _) = &**r2 {
                        if operator_precedence(*rop) <= current_precedence {
                            parenthesise_right = true;
                        }
                    }
                    if parenthesise_right {
                        push_char(&mut right_str, '(');
                    }
                    let inner_right = ast_to_infix_string(r2);
                    right_str.append(inner_right.as_str());
                    if parenthesise_right {
                        push_char(&mut right_str, ')');
                    }
                    let mut s = left_str;
                    push_char(&mut s, ' ');
                    push_char(&mut s, *op);
                    push_char(&mut s, ' ');
                    s.append(right_str.as_str());
                    proof {
                        assert(s@ =~= infix_str(*ast));
                    }
                    s
                },
                None => {
                    let mut s = String::new();
                    push_char(&mut s, *op);
                    s.append(left_str.as_str());
                    proof {
                        assert(s@ =~= infix_str(*ast));
                    }
                    s
                },
            }
        },
    }
}

} // verus!
