//! Boolean-algebra utilities: bitwise binary arithmetic, Gray codes,
//! postfix boolean formulas (parsing, evaluation, truth tables), normal-form
//! rewriting (NNF and CNF), a brute-force SAT check, powerset generation,
//! set-theoretic formula evaluation, and Z-order coordinate interleaving.
//!
//! Every executable function carries a contract, and the contracts of the
//! formula transformations are stated over spec-level formula trees together
//! with their boolean semantics.

pub mod adder;
pub mod ast;
pub mod bitwise_adder;
pub mod bitwise_multiplier;
pub mod boolean_evaluation;
pub mod cnf;
pub mod gray_code;
pub mod multiplier;
pub mod nnf;
pub mod nnf_tree;
pub mod powerset;
pub mod powerset_bits;
pub mod rewrite;
pub mod rpn_eval;
pub mod sat;
pub mod set_evaluation;
pub mod strutil;
pub mod truth_table;
pub mod zorder;
