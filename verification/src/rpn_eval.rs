//! Direct stack evaluation of constant boolean formulas in reverse Polish
//! notation, working byte by byte.

use vstd::prelude::*;
use vstd::string::StringSliceAdditionalSpecFns;

verus! {

#[derive(Debug)]
pub enum EvalError {
    /// `!` found an empty stack.
    MissingNotValue,
    /// A binary operator found an empty stack.
    MissingTwoValues(u8),
    /// A binary operator found a single value on the stack.
    MissingOneValue(u8),
    /// A byte that is neither a constant nor an operator.
    InvalidCharacter(u8),
    /// The formula did not reduce to exactly one value.
    MultipleValues,
}

pub open spec fn is_rpn_op(op: u8) -> bool {
    op == 38 || op == 124 || op == 94 || op == 62 || op == 61
}

/// The truth table of one operator, by its byte.
pub open spec fn spec_eval(a: bool, b: bool, op: u8) -> bool {
    if op == 38 {  // &
        a && b
    } else if op == 124 {  // |
        a || b
    } else if op == 94 {  // ^
        a != b
    } else if op == 62 {  // >
        !a || b
    } else if op == 61 {  // =
        a == b
    } else {
        false
    }
}

/// One step of the evaluation stack machine.
pub open spec fn rpn_step(st: Seq<bool>, v: u8) -> Result<Seq<bool>, EvalError> {
    if v == 48 || v == 49 {
        Ok(st.push(v == 49))
    } else if v == 33 {  // !
        if st.len() < 1 {
            Err(EvalError::MissingNotValue)
        } else {
            Ok(st.drop_last().push(!st.last()))
        }
    } else if is_rpn_op(v) {
        if st.len() < 1 {
            Err(EvalError::MissingTwoValues(v))
        } else if st.len() < 2 {
            Err(EvalError::MissingOneValue(v))
        } else {
            let b = st.last();
            let a = st.drop_last().last();
            Ok(st.drop_last().drop_last().push(spec_eval(a, b, v)))
        }
    } else {
        Err(EvalError::InvalidCharacter(v))
    }
}

/// The value stack after consuming all of `bytes`, or the first error.
pub open spec fn rpn_state(bytes: Seq<u8>) -> Result<Seq<bool>, EvalError>
    decreases bytes.len(),
{
    if bytes.len() == 0 {
        Ok(Seq::<bool>::empty())
    } else {
        match rpn_state(bytes.drop_last()) {
            Ok(st) => rpn_step(st, bytes.last()),
            Err(e) => Err(e),
        }
    }
}

/// What evaluating a whole formula yields.
pub open spec fn rpn_result(bytes: Seq<u8>) -> Result<bool, EvalError> {
    match rpn_state(bytes) {
        Ok(st) => if st.len() == 1 {
            Ok(st[0])
        } else {
            Err(EvalError::MultipleValues)
        },
        Err(e) => Err(e),
    }
}

/// An error on a byte prefix decides the whole run.
pub proof fn lemma_rpn_err_propagates(bytes: Seq<u8>, i: int)
    requires
        0 <= i <= bytes.len(),
        rpn_state(bytes.take(i)) is Err,
    ensures
        rpn_state(bytes) == rpn_state(bytes.take(i)),
    decreases bytes.len() - i,
{
    if i == bytes.len() {
        assert(bytes.take(i) =~= bytes);
    } else {
        assert(bytes.take(i + 1).drop_last() =~= bytes.take(i));
        lemma_rpn_err_propagates(bytes, i + 1);
    }
}

/// Applies one binary boolean operator given by its byte.
pub fn eval(a: bool, b: bool, op: u8) -> (r: bool)
    requires
        is_rpn_op(op),
    ensures
        r == spec_eval(a, b, op),
{
    if op == 38 {
        a && b
    } else if op == 124 {
        a || b
    } else if op == 94 {
        a ^ b
    } else if op == 62 {
        !a || b
    } else {
        a == b
    }
}

/// Evaluates a constant formula, reporting malformed input.
pub fn checked_eval_formula(formula: &str) -> (r: Result<bool, EvalError>)
    ensures
        r == rpn_result(formula.spec_bytes()),
{
    let bytes = formula.as_bytes();
    let ghost bs = formula.spec_bytes();
    let n = bytes.len();
    let mut val_stack: Vec<bool> = Vec::new();
    let mut i: usize = 0;
    while i < n
        invariant
            0 <= i <= bs.len(),
            n == bs.len(),
            bytes@ == bs,
            bs == formula.spec_bytes(),
            rpn_state(bs.take(i as int)) == Ok::<Seq<bool>, EvalError>(val_stack@),
        decreases n - i,
    {
        proof {
            assert(bs.take(i + 1).drop_last() =~= bs.take(i as int));
            assert(bs.take(i + 1).last() == bs[i as int]);
        }
        let val = bytes[i];
        if val == 48 || val == 49 {
            val_stack.push(val == 49);
        } else if val == 33 {
            if val_stack.len() < 1 {
                proof {
                    lemma_rpn_err_propagates(bs, i + 1);
                }
                return Err(EvalError::MissingNotValue);
            }
            let a = val_stack.pop().unwrap();
            val_stack.push(!a);
        } else if val == 38 || val == 124 || val == 94 || val == 62 || val == 61 {
            if val_stack.len() < 1 {
                proof {
                    lemma_rpn_err_propagates(bs, i + 1);
                }
                return Err(EvalError::MissingTwoValues(val));
            }
            let b = val_stack.pop().unwrap();
            if val_stack.len() < 1 {
                proof {
                    lemma_rpn_err_propagates(bs, i + 1);
                }
                return Err(EvalError::MissingOneValue(val));
            }
            let a = val_stack.pop().unwrap();
            val_stack.push(eval(a, b, val));
        } else {
            proof {
                lemma_rpn_err_propagates(bs, i + 1);
            }
            return Err(EvalError::InvalidCharacter(val));
        }
        i += 1;
    }
    proof {
        assert(bs.take(n as int) =~= bs);
    }
    if val_stack.len() == 1 {
        Ok(val_stack.pop().unwrap())
    } else {
        Err(EvalError::MultipleValues)
    }
}

/// Evaluates a constant formula, which must be valid.
pub fn eval_formula(formula: &str) -> (r: bool)
    requires
        rpn_result(formula.spec_bytes()) is Ok,
    ensures
        r == rpn_result(formula.spec_bytes()).unwrap(),
{
    checked_eval_formula(formula).unwrap()
}

} // verus!
