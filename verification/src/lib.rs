//! A verified forward-chaining inference engine for N3-style formulas.
//!
//! Callers build terms, statements and formulas, register axioms and rules
//! with a [`ProofEngine`], apply rules to knowledge-base entries, and obtain
//! a [`Proof`] whose steps form an acyclic dependency graph and which can be
//! checked for entailing a goal formula.

use vstd::prelude::*;

mod error;
mod kb;
mod model;
mod parser;
mod proofs;
mod reasoner;
mod unify;
mod utils;

pub use error::Error;
pub use model::{Formula, Graph, SpecFormula, SpecStatement, SpecTerm, Statement, Term};
pub use model::{check_formula_wf, formula_dup, formula_view, free_vars, names_view, spec_formula_wf, spec_statement_render, spec_term_render, statement_dup, stmt_view, stmts_view, term_dup, term_view};
pub use model::{contains_name, formula_eq, names_eq, statement_eq, term_eq};
pub use kb::{KnowledgeBase, formula_index_entries, kb_index_view};
pub use parser::{N3Parser, ParseOptions, is_valid_iri, parse_n3};
pub use proofs::{Proof, ProofStep, SpecProof, SpecStep, lemma_proof_acyclic, spec_step_render, step_dup, step_view};
pub use utils::{create_triple, dec_digits, dec_render, digit_char, formula_to_n3_string, formulas_equivalent};
pub use utils::{dedup_stmts, spec_equivalent, spec_formula_to_n3};
pub use reasoner::lemma_ground_match;
pub use reasoner::{ProofEngine, Rule, SpecEngine, check_rule_safety, indices_ok, lemma_engine_proof_acyclic, rule_safe, selected, var_covered};
pub use reasoner::{SpecRule, instantiated, rule_view, skolem_id, skolem_stmt, skolem_stmts, skolem_term};
pub use unify::{MatchOutcome, Substitution, match_premises, match_premises_with_budget, spec_match, spec_search, spec_unify_stmt, spec_unify_term, subst_apply_statement, unify_statement, unify_term};
pub use unify::{alpha_match, alpha_search, alpha_unify_stmt, alpha_unify_term, in_range};
pub use unify::{first_choice, first_match, first_search};

verus! {

/// Creates a new proof engine with no rules, axioms or derivations.
pub fn create_proof_engine() -> (r: ProofEngine)
    ensures
        r.wf(),
        r@.rules == Seq::<SpecRule>::empty(),
        r@.axioms == Seq::<SpecFormula>::empty(),
        r@.kb == Seq::<SpecFormula>::empty(),
        r@.proof.steps == Seq::<SpecStep>::empty(),
        r@.proof.goal is None,
        r@.counter == 0,
{
    ProofEngine::new()
}

} // verus!
