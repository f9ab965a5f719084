//! Engine scenarios: axioms, rules, derivations, goals.

use n3proof::{
    create_proof_engine, create_triple, formula_eq, formulas_equivalent, term_eq, Error, Formula,
    Rule, Statement, Term,
};

fn iri(s: &str) -> Term {
    Term::Iri(String::from(s))
}

fn var(s: &str) -> Term {
    Term::Variable(String::from(s))
}

fn triple(s: Term, p: Term, o: Term) -> Statement {
    create_triple(s, p, o)
}

fn ground_formula(s: &str, p: &str, o: &str) -> Formula {
    let mut f = Formula::new();
    f.add_statement(triple(iri(s), iri(p), iri(o)));
    f
}

#[test]
fn basic_proof_test() {
    let engine = create_proof_engine();
    assert!(engine.ready());
}

#[test]
fn symmetry_scenario() {
    let mut engine = create_proof_engine();
    let idx = engine
        .add_axiom(ground_formula("urn:ex:Alice", "urn:ex:knows", "urn:ex:Bob"))
        .unwrap();
    assert_eq!(idx, 0);

    let mut premise = Formula::new();
    premise.add_statement(triple(var("X"), iri("urn:ex:knows"), var("Y")));
    premise.add_universal_var("X");
    premise.add_universal_var("Y");
    let mut conclusion = Formula::new();
    conclusion.add_statement(triple(var("Y"), iri("urn:ex:knows"), var("X")));
    conclusion.add_universal_var("X");
    conclusion.add_universal_var("Y");
    let rule = Rule::new("symmetry", vec![premise], conclusion);
    let ri = engine.add_rule(rule).unwrap();
    assert_eq!(ri, 0);

    let derived = engine.apply_rule(ri, &vec![0]).unwrap();
    assert_eq!(derived, 1);

    let expected = ground_formula("urn:ex:Bob", "urn:ex:knows", "urn:ex:Alice");
    let proof = engine.get_proof();
    assert_eq!(proof.len(), 2);
    let step = proof.step(1);
    assert!(formula_eq(&step.conclusion, &expected));
    assert!(formulas_equivalent(&step.conclusion, &expected));
    assert_eq!(step.premises, vec![0]);
}

#[test]
fn subclass_scenario_and_goal_entailment() {
    let mut engine = create_proof_engine();
    engine
        .add_axiom(ground_formula("urn:ex:Socrates", "urn:ex:type", "urn:ex:Human"))
        .unwrap();
    engine
        .add_axiom(ground_formula("urn:ex:Human", "urn:ex:subClassOf", "urn:ex:Mortal"))
        .unwrap();

    let mut p1 = Formula::new();
    p1.add_statement(triple(var("X"), iri("urn:ex:type"), var("A")));
    p1.add_universal_var("X");
    p1.add_universal_var("A");
    let mut p2 = Formula::new();
    p2.add_statement(triple(var("A"), iri("urn:ex:subClassOf"), var("B")));
    p2.add_universal_var("A");
    p2.add_universal_var("B");
    let mut conclusion = Formula::new();
    conclusion.add_statement(triple(var("X"), iri("urn:ex:type"), var("B")));
    conclusion.add_universal_var("X");
    conclusion.add_universal_var("B");
    let rule = Rule::new("subclass", vec![p1, p2], conclusion);
    let ri = engine.add_rule(rule).unwrap();

    let goal = ground_formula("urn:ex:Socrates", "urn:ex:type", "urn:ex:Mortal");
    engine.set_goal(goal);
    assert_eq!(engine.goal_proven().unwrap(), false);

    let derived = engine.apply_rule(ri, &vec![0, 1]).unwrap();
    assert_eq!(derived, 2);
    let expected = ground_formula("urn:ex:Socrates", "urn:ex:type", "urn:ex:Mortal");
    let proof = engine.get_proof();
    assert!(formula_eq(&proof.step(2).conclusion, &expected));
    assert_eq!(engine.goal_proven().unwrap(), true);
}

#[test]
fn unsafe_rule_is_rejected() {
    let mut engine = create_proof_engine();
    let mut premise = Formula::new();
    premise.add_statement(triple(var("X"), iri("urn:ex:knows"), iri("urn:ex:Bob")));
    premise.add_universal_var("X");
    let mut conclusion = Formula::new();
    conclusion.add_statement(triple(var("X"), iri("urn:ex:knows"), var("Z")));
    conclusion.add_universal_var("X");
    conclusion.add_universal_var("Z");
    let rule = Rule::new("bad", vec![premise], conclusion);
    assert_eq!(engine.add_rule(rule).unwrap_err(), Error::UnsafeRule);
}

#[test]
fn existential_conclusion_var_is_skolemized() {
    let mut engine = create_proof_engine();
    engine
        .add_axiom(ground_formula("urn:ex:Socrates", "urn:ex:type", "urn:ex:Human"))
        .unwrap();
    let mut premise = Formula::new();
    premise.add_statement(triple(var("X"), iri("urn:ex:type"), iri("urn:ex:Human")));
    premise.add_universal_var("X");
    let mut conclusion = Formula::new();
    conclusion.add_statement(triple(var("X"), iri("urn:ex:hasSoul"), var("S")));
    conclusion.add_universal_var("X");
    conclusion.add_existential_var("S");
    let rule = Rule::new("soul", vec![premise], conclusion);
    let ri = engine.add_rule(rule).unwrap();
    let derived = engine.apply_rule(ri, &vec![0]).unwrap();
    let proof = engine.get_proof();
    let step = proof.step(derived);
    let object = &step.conclusion.statements[0].object;
    assert!(term_eq(object, &Term::BlankNode(String::from("sk_0_S"))));
}

#[test]
fn failed_application_changes_nothing() {
    let mut engine = create_proof_engine();
    engine
        .add_axiom(ground_formula("urn:ex:Alice", "urn:ex:knows", "urn:ex:Bob"))
        .unwrap();
    let mut premise = Formula::new();
    premise.add_statement(triple(iri("urn:ex:Alice"), iri("urn:ex:knows"), iri("urn:ex:Carol")));
    let conclusion = ground_formula("urn:ex:Alice", "urn:ex:likes", "urn:ex:Carol");
    let rule = Rule::new("ground", vec![premise], conclusion);
    let ri = engine.add_rule(rule).unwrap();

    let before = engine.get_proof().len();
    assert_eq!(engine.apply_rule(ri, &vec![0]).unwrap_err(), Error::NoMatchFound);
    assert_eq!(engine.get_proof().len(), before);
    // The knowledge base did not grow either: the next axiom still lands
    // right after the existing entry.
    let idx = engine
        .add_axiom(ground_formula("urn:ex:Carol", "urn:ex:knows", "urn:ex:Dan"))
        .unwrap();
    assert_eq!(idx, 1);
}

#[test]
fn ground_rule_applies_on_equal_statements() {
    let mut engine = create_proof_engine();
    engine
        .add_axiom(ground_formula("urn:ex:Alice", "urn:ex:knows", "urn:ex:Bob"))
        .unwrap();
    let mut premise = Formula::new();
    premise.add_statement(triple(iri("urn:ex:Alice"), iri("urn:ex:knows"), iri("urn:ex:Bob")));
    let conclusion = ground_formula("urn:ex:Bob", "urn:ex:isKnown", "urn:ex:yes");
    let rule = Rule::new("ground", vec![premise], conclusion);
    let ri = engine.add_rule(rule).unwrap();
    let derived = engine.apply_rule(ri, &vec![0]).unwrap();
    let proof = engine.get_proof();
    assert!(formula_eq(
        &proof.step(derived).conclusion,
        &ground_formula("urn:ex:Bob", "urn:ex:isKnown", "urn:ex:yes"),
    ));
}

#[test]
fn bad_indices_are_distinct_errors() {
    let mut engine = create_proof_engine();
    engine
        .add_axiom(ground_formula("urn:ex:Alice", "urn:ex:knows", "urn:ex:Bob"))
        .unwrap();
    let mut premise = Formula::new();
    premise.add_statement(triple(var("X"), iri("urn:ex:knows"), var("Y")));
    premise.add_universal_var("X");
    premise.add_universal_var("Y");
    let mut conclusion = Formula::new();
    conclusion.add_statement(triple(var("X"), iri("urn:ex:met"), var("Y")));
    conclusion.add_universal_var("X");
    conclusion.add_universal_var("Y");
    let rule = Rule::new("met", vec![premise], conclusion);
    let ri = engine.add_rule(rule).unwrap();

    assert_eq!(engine.apply_rule(7, &vec![0]).unwrap_err(), Error::InvalidRuleIndex);
    assert_eq!(engine.apply_rule(ri, &vec![9]).unwrap_err(), Error::InvalidPremiseIndex);
    assert_eq!(engine.apply_rule(ri, &vec![]).unwrap_err(), Error::ArityMismatch);
    assert_eq!(engine.apply_rule(ri, &vec![0, 0]).unwrap_err(), Error::ArityMismatch);
}

#[test]
fn ill_formed_axiom_is_rejected() {
    let mut engine = create_proof_engine();
    let mut f = Formula::new();
    f.add_statement(triple(var("X"), iri("urn:ex:knows"), iri("urn:ex:Bob")));
    assert_eq!(engine.add_axiom(f).unwrap_err(), Error::ModelError);
    // Declaring the variable in exactly one quantifier set makes it valid.
    let mut g = Formula::new();
    g.add_statement(triple(var("X"), iri("urn:ex:knows"), iri("urn:ex:Bob")));
    g.add_universal_var("X");
    assert_eq!(engine.add_axiom(g).unwrap(), 0);
}

#[test]
fn shared_substitution_constrains_later_premises() {
    // ?X knows ?Y and ?Y knows ?Z must agree on ?Y across premises.
    let mut engine = create_proof_engine();
    engine
        .add_axiom(ground_formula("urn:ex:Alice", "urn:ex:knows", "urn:ex:Bob"))
        .unwrap();
    engine
        .add_axiom(ground_formula("urn:ex:Carol", "urn:ex:knows", "urn:ex:Dan"))
        .unwrap();
    engine
        .add_axiom(ground_formula("urn:ex:Bob", "urn:ex:knows", "urn:ex:Carol"))
        .unwrap();
    let mut p1 = Formula::new();
    p1.add_statement(triple(var("X"), iri("urn:ex:knows"), var("Y")));
    p1.add_universal_var("X");
    p1.add_universal_var("Y");
    let mut p2 = Formula::new();
    p2.add_statement(triple(var("Y"), iri("urn:ex:knows"), var("Z")));
    p2.add_universal_var("Y");
    p2.add_universal_var("Z");
    let mut conclusion = Formula::new();
    conclusion.add_statement(triple(var("X"), iri("urn:ex:knowsIndirectly"), var("Z")));
    conclusion.add_universal_var("X");
    conclusion.add_universal_var("Z");
    let rule = Rule::new("transitive", vec![p1, p2], conclusion);
    let ri = engine.add_rule(rule).unwrap();

    // Alice knows Bob, but the second premise (Bob knows ?Z) does not match
    // Carol knows Dan.
    assert_eq!(engine.apply_rule(ri, &vec![0, 1]).unwrap_err(), Error::NoMatchFound);
    // It does match Bob knows Carol.
    let derived = engine.apply_rule(ri, &vec![0, 2]).unwrap();
    let proof = engine.get_proof();
    assert!(formula_eq(
        &proof.step(derived).conclusion,
        &ground_formula("urn:ex:Alice", "urn:ex:knowsIndirectly", "urn:ex:Carol"),
    ));
}

#[test]
fn empty_axiom_and_goalless_validity() {
    let mut engine = create_proof_engine();
    // With no goal, an empty proof does not validate; any step makes it
    // validate.
    assert_eq!(engine.goal_proven().unwrap(), false);
    let idx = engine.add_axiom(Formula::new()).unwrap();
    assert_eq!(idx, 0);
    assert_eq!(engine.goal_proven().unwrap(), true);
    let proof = engine.get_proof();
    assert_eq!(proof.is_valid().unwrap(), true);
}

#[test]
fn budget_exhaustion_is_reported_and_transactional() {
    let mut engine = create_proof_engine();
    engine
        .add_axiom(ground_formula("urn:ex:Alice", "urn:ex:knows", "urn:ex:Bob"))
        .unwrap();
    let mut premise = Formula::new();
    premise.add_statement(triple(var("X"), iri("urn:ex:knows"), var("Y")));
    premise.add_universal_var("X");
    premise.add_universal_var("Y");
    let mut conclusion = Formula::new();
    conclusion.add_statement(triple(var("Y"), iri("urn:ex:knows"), var("X")));
    conclusion.add_universal_var("X");
    conclusion.add_universal_var("Y");
    let rule = Rule::new("symmetry", vec![premise], conclusion);
    let ri = engine.add_rule(rule).unwrap();

    let starved = engine.apply_rule_with_budget(ri, &vec![0], 0);
    assert_eq!(starved.unwrap_err(), Error::BudgetExceeded);
    assert_eq!(engine.get_proof().len(), 1);
    let derived = engine.apply_rule_with_budget(ri, &vec![0], 1000).unwrap();
    assert_eq!(derived, 1);
}

#[test]
fn candidate_lookup_uses_the_predicate_index() {
    let mut engine = create_proof_engine();
    engine
        .add_axiom(ground_formula("urn:ex:Alice", "urn:ex:knows", "urn:ex:Bob"))
        .unwrap();
    engine
        .add_axiom(ground_formula("urn:ex:Alice", "urn:ex:likes", "urn:ex:Tea"))
        .unwrap();
    engine
        .add_axiom(ground_formula("urn:ex:Bob", "urn:ex:knows", "urn:ex:Carol"))
        .unwrap();
    let hits = engine.candidates_for(&iri("urn:ex:knows"));
    assert_eq!(hits, vec![(0, 0), (2, 0)]);
    assert_eq!(engine.candidates_for(&iri("urn:ex:likes")), vec![(1, 0)]);
}

#[test]
fn leaked_candidate_variable_is_a_model_error() {
    // A quantified axiom can push its own variable into a conclusion,
    // where it would be unquantified; the application is rejected and
    // nothing changes.
    let mut engine = create_proof_engine();
    let mut quantified = Formula::new();
    quantified.add_statement(triple(var("W"), iri("urn:ex:knows"), iri("urn:ex:Bob")));
    quantified.add_universal_var("W");
    engine.add_axiom(quantified).unwrap();

    let mut premise = Formula::new();
    premise.add_statement(triple(var("X"), iri("urn:ex:knows"), var("Y")));
    premise.add_universal_var("X");
    premise.add_universal_var("Y");
    let mut conclusion = Formula::new();
    conclusion.add_statement(triple(var("Y"), iri("urn:ex:knows"), var("X")));
    conclusion.add_universal_var("X");
    conclusion.add_universal_var("Y");
    let rule = Rule::new("symmetry", vec![premise], conclusion);
    let ri = engine.add_rule(rule).unwrap();

    assert_eq!(engine.apply_rule(ri, &vec![0]).unwrap_err(), Error::ModelError);
    assert_eq!(engine.get_proof().len(), 1);
}

#[test]
fn search_policy_is_first_match_in_stored_order() {
    // Two candidate statements both match the premise; the fixed policy
    // takes the first in stored order, so the derived conclusion is
    // determined, and repeating the application gives the same formula.
    let mut engine = create_proof_engine();
    let mut candidate = Formula::new();
    candidate.add_statement(triple(iri("urn:ex:a"), iri("urn:ex:knows"), iri("urn:ex:b")));
    candidate.add_statement(triple(iri("urn:ex:c"), iri("urn:ex:knows"), iri("urn:ex:d")));
    engine.add_axiom(candidate).unwrap();

    let mut premise = Formula::new();
    premise.add_statement(triple(var("X"), iri("urn:ex:knows"), var("Y")));
    premise.add_universal_var("X");
    premise.add_universal_var("Y");
    let mut conclusion = Formula::new();
    conclusion.add_statement(triple(var("Y"), iri("urn:ex:knows"), var("X")));
    conclusion.add_universal_var("X");
    conclusion.add_universal_var("Y");
    let rule = Rule::new("symmetry", vec![premise], conclusion);
    let ri = engine.add_rule(rule).unwrap();

    let first = engine.apply_rule(ri, &vec![0]).unwrap();
    let second = engine.apply_rule(ri, &vec![0]).unwrap();
    let proof = engine.get_proof();
    let expected = ground_formula("urn:ex:b", "urn:ex:knows", "urn:ex:a");
    assert!(formula_eq(&proof.step(first).conclusion, &expected));
    assert!(formula_eq(&proof.step(second).conclusion, &expected));
}
