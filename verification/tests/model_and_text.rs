//! Model-level behaviour: equivalence, rendering, parsing options, the
//! knowledge-base index, matching outcomes, and the oxrdf boundary.

use n3proof::{
    create_triple, dec_render, formula_eq, formula_to_n3_string, formulas_equivalent,
    match_premises_with_budget, parse_n3, term_eq, Error, Formula, KnowledgeBase, MatchOutcome,
    N3Parser, ParseOptions, ProofStep, Statement, Substitution, Term,
};

fn iri(s: &str) -> Term {
    Term::Iri(String::from(s))
}

fn var(s: &str) -> Term {
    Term::Variable(String::from(s))
}

fn triple(s: Term, p: Term, o: Term) -> Statement {
    create_triple(s, p, o)
}

#[test]
fn equivalence_is_alpha_renaming() {
    let mut a = Formula::new();
    a.add_statement(triple(var("A"), iri("urn:ex:knows"), var("B")));
    a.add_universal_var("A");
    a.add_universal_var("B");
    let mut b = Formula::new();
    b.add_statement(triple(var("X"), iri("urn:ex:knows"), var("Y")));
    b.add_universal_var("X");
    b.add_universal_var("Y");
    assert!(formulas_equivalent(&a, &b));
    assert!(!formula_eq(&a, &b));
}

#[test]
fn equivalence_distinguishes_quantifiers() {
    let mut a = Formula::new();
    a.add_statement(triple(var("A"), iri("urn:ex:knows"), iri("urn:ex:Bob")));
    a.add_universal_var("A");
    let mut b = Formula::new();
    b.add_statement(triple(var("X"), iri("urn:ex:knows"), iri("urn:ex:Bob")));
    b.add_existential_var("X");
    assert!(!formulas_equivalent(&a, &b));
}

#[test]
fn equivalence_ignores_statement_order() {
    let s1 = || triple(iri("urn:ex:a"), iri("urn:ex:p"), iri("urn:ex:b"));
    let s2 = || triple(iri("urn:ex:c"), iri("urn:ex:q"), iri("urn:ex:d"));
    let mut a = Formula::new();
    a.add_statement(s1());
    a.add_statement(s2());
    let mut b = Formula::new();
    b.add_statement(s2());
    b.add_statement(s1());
    assert!(formulas_equivalent(&a, &b));
    let mut c = Formula::new();
    c.add_statement(s1());
    assert!(!formulas_equivalent(&a, &c));
}

#[test]
fn term_and_statement_render() {
    assert_eq!(iri("urn:ex:a").render(), "<urn:ex:a>");
    assert_eq!(Term::BlankNode(String::from("b0")).render(), "_:b0");
    assert_eq!(
        Term::Literal(String::from("hi"), String::from("urn:ex:string")).render(),
        "\"hi\"",
    );
    assert_eq!(var("X").render(), "?X");
    let st = triple(iri("urn:ex:a"), iri("urn:ex:p"), iri("urn:ex:b"));
    assert_eq!(st.render(), "<urn:ex:a> <urn:ex:p> <urn:ex:b> .");
}

#[test]
fn proof_step_render() {
    let mut f = Formula::new();
    f.add_statement(triple(iri("urn:ex:a"), iri("urn:ex:p"), iri("urn:ex:b")));
    let step = ProofStep::new(f, "axiom", Vec::new());
    assert_eq!(step.render(), "Step using rule 'axiom' with 0 premise(s)");
    let mut g = Formula::new();
    g.add_statement(triple(iri("urn:ex:a"), iri("urn:ex:p"), iri("urn:ex:b")));
    let described = ProofStep::new(g, "symmetry", vec![0, 1]).with_description("swapped");
    assert_eq!(described.render(), "Step using rule 'symmetry' with 2 premise(s): swapped");
}

#[test]
fn formula_to_n3_text() {
    let mut f = Formula::new();
    f.add_universal_var("x");
    f.add_statement(triple(iri("urn:ex:a"), iri("urn:ex:p"), iri("urn:ex:b")));
    let text = formula_to_n3_string(&f);
    assert_eq!(text, "# N3 Formula\n\n@forAll ?x .\n\n<urn:ex:a> <urn:ex:p> <urn:ex:b> .\n");
    let empty = Formula::new();
    assert_eq!(formula_to_n3_string(&empty), "# N3 Formula\n\n");
}

#[test]
fn decimal_rendering() {
    assert_eq!(dec_render(0), "0");
    assert_eq!(dec_render(7), "7");
    assert_eq!(dec_render(12345), "12345");
    assert_eq!(dec_render(1000), "1000");
}

#[test]
fn parser_validates_base_iri() {
    let good = ParseOptions {
        allow_n3_extensions: true,
        base_iri: Some(String::from("http://example.com/base")),
    };
    let parser = N3Parser::new(good);
    assert!(parser.is_ok());

    let bad = ParseOptions {
        allow_n3_extensions: true,
        base_iri: Some(String::from("not an iri")),
    };
    match N3Parser::new(bad) {
        Err(e) => assert_eq!(e, Error::ParseError),
        Ok(_) => panic!("an invalid base IRI must be rejected"),
    }
}

#[test]
fn parse_n3_yields_empty_formula() {
    let f = parse_n3("".as_bytes(), ParseOptions::default()).unwrap();
    assert_eq!(f.statements.len(), 0);
    let parser = N3Parser::new(ParseOptions::default()).unwrap();
    let g = parser.parse("ignored".as_bytes()).unwrap();
    assert_eq!(g.statements.len(), 0);
}

#[test]
fn knowledge_base_index_lists_predicate_locations() {
    let mut kb = KnowledgeBase::new();
    let mut f = Formula::new();
    f.add_statement(triple(iri("urn:ex:a"), iri("urn:ex:p"), iri("urn:ex:b")));
    f.add_statement(triple(iri("urn:ex:c"), iri("urn:ex:q"), iri("urn:ex:d")));
    let i0 = kb.add(f);
    assert_eq!(i0, 0);
    let mut g = Formula::new();
    g.add_statement(triple(iri("urn:ex:e"), iri("urn:ex:p"), iri("urn:ex:f")));
    let i1 = kb.add(g);
    assert_eq!(i1, 1);
    assert_eq!(kb.len(), 2);

    let p_locations = kb.lookup(&iri("urn:ex:p"));
    assert_eq!(p_locations, vec![(0, 0), (1, 0)]);
    let q_locations = kb.lookup(&iri("urn:ex:q"));
    assert_eq!(q_locations, vec![(0, 1)]);
    assert_eq!(kb.lookup(&iri("urn:ex:none")).len(), 0);
}

#[test]
fn budgeted_search_reports_exhaustion() {
    let mut premise = Formula::new();
    premise.add_statement(triple(var("X"), iri("urn:ex:p"), var("Y")));
    premise.add_universal_var("X");
    premise.add_universal_var("Y");
    let mut candidate = Formula::new();
    candidate.add_statement(triple(iri("urn:ex:a"), iri("urn:ex:p"), iri("urn:ex:b")));
    let ps = vec![premise];
    let cs = vec![candidate];
    let s = Substitution::new();
    let starved = match_premises_with_budget(&ps, &cs, &s, 0);
    assert!(matches!(starved, MatchOutcome::Exceeded));
    let enough = match_premises_with_budget(&ps, &cs, &s, 1000);
    assert!(matches!(enough, MatchOutcome::Found(_)));
}

#[test]
fn convert_triple_reads_oxrdf_terms() {
    let graph = n3proof::Graph::new();
    let s = oxrdf::NamedOrBlankNode::NamedNode(oxrdf::NamedNode::new("http://e/s").unwrap());
    let p = oxrdf::NamedNode::new("http://e/p").unwrap();
    let o = oxrdf::Term::Literal(oxrdf::Literal::new_simple_literal("hi"));
    let st = graph.convert_triple(&s, &p, &o).unwrap();
    assert!(term_eq(&st.subject, &iri("http://e/s")));
    assert!(term_eq(&st.predicate, &iri("http://e/p")));
    assert!(term_eq(
        &st.object,
        &Term::Literal(
            String::from("hi"),
            String::from("http://www.w3.org/2001/XMLSchema#string"),
        ),
    ));

    let bn = oxrdf::NamedOrBlankNode::BlankNode(oxrdf::BlankNode::new("b7").unwrap());
    let o2 = oxrdf::Term::NamedNode(oxrdf::NamedNode::new("http://e/o").unwrap());
    let st2 = graph.convert_triple(&bn, &p, &o2).unwrap();
    assert!(term_eq(&st2.subject, &Term::BlankNode(String::from("b7"))));
    assert!(term_eq(&st2.object, &iri("http://e/o")));
}

#[test]
fn graph_collects_statements() {
    let mut graph = n3proof::Graph::new();
    graph.add_statement(triple(iri("urn:ex:a"), iri("urn:ex:p"), iri("urn:ex:b")));
    assert_eq!(graph.statements.len(), 1);
}

#[test]
fn nested_formulas_compare_structurally() {
    let mut inner1 = Formula::new();
    inner1.add_statement(triple(iri("urn:ex:a"), iri("urn:ex:p"), iri("urn:ex:b")));
    let mut inner2 = Formula::new();
    inner2.add_statement(triple(iri("urn:ex:a"), iri("urn:ex:p"), iri("urn:ex:b")));
    let t1 = Term::Formula(Box::new(inner1));
    let t2 = Term::Formula(Box::new(inner2));
    assert!(term_eq(&t1, &t2));
    let mut other = Formula::new();
    other.add_statement(triple(iri("urn:ex:a"), iri("urn:ex:p"), iri("urn:ex:c")));
    let t3 = Term::Formula(Box::new(other));
    assert!(!term_eq(&t1, &t3));
}

#[test]
fn proof_rejects_forward_references() {
    let mut proof = n3proof::Proof::new();
    let mut f = Formula::new();
    f.add_statement(triple(iri("urn:ex:a"), iri("urn:ex:p"), iri("urn:ex:b")));
    let bad = ProofStep::new(f, "axiom", vec![0]);
    match proof.add_step(bad) {
        Err(e) => assert_eq!(e, Error::ProofVerificationError),
        Ok(_) => panic!("a step may not reference itself or later steps"),
    }
    assert_eq!(proof.len(), 0);
    let mut g = Formula::new();
    g.add_statement(triple(iri("urn:ex:a"), iri("urn:ex:p"), iri("urn:ex:b")));
    let ok = ProofStep::new(g, "axiom", Vec::new());
    assert_eq!(proof.add_step(ok).unwrap(), 0);
}

#[test]
fn error_descriptions_are_distinct() {
    assert_eq!(Error::NoMatchFound.describe(), "no match found");
    assert_eq!(Error::BudgetExceeded.describe(), "search budget exceeded");
    assert_ne!(Error::UnsafeRule.describe(), Error::ModelError.describe());
}

#[test]
fn standalone_proof_with_goal() {
    let mut proof = n3proof::Proof::new();
    let mut f = Formula::new();
    f.add_statement(triple(iri("urn:ex:a"), iri("urn:ex:p"), iri("urn:ex:b")));
    proof.add_step(ProofStep::new(f, "axiom", Vec::new())).unwrap();
    let mut goal = Formula::new();
    goal.add_statement(triple(iri("urn:ex:a"), iri("urn:ex:p"), iri("urn:ex:b")));
    let with_goal = proof.with_goal(goal);
    assert_eq!(with_goal.is_valid().unwrap(), true);

    let mut other_goal = Formula::new();
    other_goal.add_statement(triple(iri("urn:ex:a"), iri("urn:ex:p"), iri("urn:ex:c")));
    let mut unproven = n3proof::Proof::new();
    let mut g = Formula::new();
    g.add_statement(triple(iri("urn:ex:a"), iri("urn:ex:p"), iri("urn:ex:b")));
    unproven.add_step(ProofStep::new(g, "axiom", Vec::new())).unwrap();
    let unproven = unproven.with_goal(other_goal);
    assert_eq!(unproven.is_valid().unwrap(), false);
}

#[test]
fn rules_check_arity_and_apply_purely() {
    let mut premise = Formula::new();
    premise.add_statement(triple(var("X"), iri("urn:ex:p"), var("Y")));
    premise.add_universal_var("X");
    premise.add_universal_var("Y");
    let mut conclusion = Formula::new();
    conclusion.add_statement(triple(var("Y"), iri("urn:ex:p"), var("X")));
    conclusion.add_universal_var("X");
    conclusion.add_universal_var("Y");
    let rule = n3proof::Rule::new("swap", vec![premise], conclusion).with_description("swaps");

    let mut candidate = Formula::new();
    candidate.add_statement(triple(iri("urn:ex:a"), iri("urn:ex:p"), iri("urn:ex:b")));
    let one = vec![candidate];
    assert!(rule.can_apply(&one));
    assert!(!rule.can_apply(&Vec::new()));

    let expected = {
        let mut f = Formula::new();
        f.add_statement(triple(iri("urn:ex:b"), iri("urn:ex:p"), iri("urn:ex:a")));
        f
    };
    let first = rule.apply(&one, 0).unwrap();
    let second = rule.apply(&one, 0).unwrap();
    assert!(formula_eq(&first, &expected));
    assert!(formula_eq(&first, &second));
    assert_eq!(rule.apply(&Vec::new(), 0).unwrap_err(), Error::ArityMismatch);
}

#[test]
fn equivalence_ignores_duplicate_statements() {
    let mut once = Formula::new();
    once.add_statement(triple(iri("urn:ex:a"), iri("urn:ex:p"), iri("urn:ex:b")));
    let mut twice = Formula::new();
    twice.add_statement(triple(iri("urn:ex:a"), iri("urn:ex:p"), iri("urn:ex:b")));
    twice.add_statement(triple(iri("urn:ex:a"), iri("urn:ex:p"), iri("urn:ex:b")));
    assert!(formulas_equivalent(&once, &twice));
    assert!(formulas_equivalent(&twice, &once));
}

#[test]
fn equivalence_does_not_depend_on_variable_names_for_order() {
    // Renaming B to X and A to Y makes the statement sets identical, even
    // though the variable names would sort the statements differently.
    let mut a = Formula::new();
    a.add_statement(triple(var("B"), iri("urn:ex:p"), iri("urn:ex:a")));
    a.add_statement(triple(var("A"), iri("urn:ex:q"), iri("urn:ex:b")));
    a.add_universal_var("A");
    a.add_universal_var("B");
    let mut b = Formula::new();
    b.add_statement(triple(var("X"), iri("urn:ex:p"), iri("urn:ex:a")));
    b.add_statement(triple(var("Y"), iri("urn:ex:q"), iri("urn:ex:b")));
    b.add_universal_var("X");
    b.add_universal_var("Y");
    assert!(formulas_equivalent(&a, &b));
}

#[test]
fn equivalence_handles_reordered_shared_variables() {
    // The same two statements in either order, sharing variables across
    // statements: the identity renaming works, whatever the order.
    let mut a = Formula::new();
    a.add_statement(triple(var("A"), iri("urn:ex:p"), var("B")));
    a.add_statement(triple(var("B"), iri("urn:ex:p"), var("C")));
    a.add_universal_var("A");
    a.add_universal_var("B");
    a.add_universal_var("C");
    let mut b = Formula::new();
    b.add_statement(triple(var("B"), iri("urn:ex:p"), var("C")));
    b.add_statement(triple(var("A"), iri("urn:ex:p"), var("B")));
    b.add_universal_var("A");
    b.add_universal_var("B");
    b.add_universal_var("C");
    assert!(formulas_equivalent(&a, &b));
    // A renaming must be injective: collapsing two variables onto one is
    // not an equivalence.
    let mut c = Formula::new();
    c.add_statement(triple(var("X"), iri("urn:ex:p"), var("X")));
    c.add_statement(triple(var("X"), iri("urn:ex:p"), var("X")));
    c.add_universal_var("X");
    assert!(!formulas_equivalent(&a, &c));
}
