//! Rules and the proof engine.
//!
//! A rule is a named implication: a list of premise formulas and one
//! conclusion formula. Applying a rule to candidate formulas matches every
//! premise against its candidate under one shared substitution; on success
//! the substitution is applied to the conclusion, and any conclusion
//! variable left unbound is replaced by a freshly minted blank node
//! (skolemization), one naming counter value per application.

use vstd::prelude::*;
use vstd::string::StringExecFns;

use crate::error::Error;
use crate::kb::KnowledgeBase;
use crate::model::{Formula, SpecFormula, SpecStatement, SpecTerm, Statement, Term};
use crate::model::{check_formula_wf, formula_dup, formula_view, spec_formula_wf};
use crate::model::{free_vars, lemma_stmts_view, stmt_mentions_var, stmt_view, stmts_view};
use crate::proofs::{Proof, ProofStep, SpecStep};
use crate::unify::{MatchOutcome, Substitution, first_match, formulas_view, match_premises, spec_match};
use crate::unify::{choice_ok, lemma_choice_to_search, lemma_search_to_choice, spec_search, spec_unify_stmt};
use crate::model::spec_ground_stmts;
use crate::unify::{subst_apply_statement, subst_stmt, subst_stmts};
use crate::utils::{dec_digits, dec_render};

verus! {

/// Mathematical model of a rule.
pub struct SpecRule {
    pub name: Seq<char>,
    pub premises: Seq<SpecFormula>,
    pub conclusion: SpecFormula,
    pub description: Option<Seq<char>>,
}

/// An inference rule: name, premise formulas, conclusion formula, and an
/// optional description.
#[derive(Debug, Clone)]
pub struct Rule {
    /// Name of the rule.
    pub name: String,
    /// Premises of the rule (conjunctive antecedent).
    pub premises: Vec<Formula>,
    /// Conclusion of the rule (consequent).
    pub conclusion: Formula,
    /// Optional human-readable description.
    pub description: Option<String>,
}

pub open spec fn rule_view(r: Rule) -> SpecRule {
    SpecRule {
        name: r.name@,
        premises: formulas_view(r.premises@),
        conclusion: formula_view(r.conclusion),
        description: match r.description {
            Some(d) => Some(d@),
            None => None,
        },
    }
}

impl View for Rule {
    type V = SpecRule;

    open spec fn view(&self) -> SpecRule {
        rule_view(*self)
    }
}

/// The blank-node identifier minted for conclusion variable `v` by the
/// application numbered `fresh`.
pub open spec fn skolem_id(fresh: nat, v: Seq<char>) -> Seq<char> {
    "sk_"@ + dec_digits(fresh) + "_"@ + v
}

/// Extends `s` with a skolem binding for `t` if `t` is an unbound variable.
pub open spec fn skolem_term(
    s: Map<Seq<char>, SpecTerm>,
    t: SpecTerm,
    fresh: nat,
) -> Map<Seq<char>, SpecTerm> {
    match t {
        SpecTerm::Var(v) => if s.contains_key(v) {
            s
        } else {
            s.insert(v, SpecTerm::Blank(skolem_id(fresh, v)))
        },
        _ => s,
    }
}

pub open spec fn skolem_stmt(
    s: Map<Seq<char>, SpecTerm>,
    st: SpecStatement,
    fresh: nat,
) -> Map<Seq<char>, SpecTerm> {
    skolem_term(skolem_term(skolem_term(s, st.subject, fresh), st.predicate, fresh), st.object, fresh)
}

/// Extends `s` with a skolem binding for every variable occurring unbound
/// at a top-level position of `sts`, processed in order.
pub open spec fn skolem_stmts(
    s: Map<Seq<char>, SpecTerm>,
    sts: Seq<SpecStatement>,
    fresh: nat,
) -> Map<Seq<char>, SpecTerm>
    decreases sts.len(),
{
    if sts.len() == 0 {
        s
    } else {
        skolem_stmts(skolem_stmt(s, sts[0], fresh), sts.subrange(1, sts.len() as int), fresh)
    }
}

/// The conclusion instantiated by a match: the substitution, extended with
/// skolem blank nodes for the conclusion's unbound variables, is applied to
/// every conclusion statement; the result carries no quantifiers.
pub open spec fn instantiated(conc: SpecFormula, sf: Map<Seq<char>, SpecTerm>, fresh: nat) -> SpecFormula {
    SpecFormula {
        statements: subst_stmts(skolem_stmts(sf, conc.statements, fresh), conc.statements),
        universals: Set::empty(),
        existentials: Set::empty(),
    }
}

fn skolemize_term(s: Substitution, t: &Term, fresh: u64) -> (r: Substitution)
    requires
        s.wf(),
    ensures
        r.wf(),
        r@ == skolem_term(s@, t@, fresh as nat),
{
    match t {
        Term::Variable(v) => {
            match s.get(v) {
                Some(_) => s,
                None => {
                    let mut id = "sk_".to_owned();
                    let digits = dec_render(fresh as u128);
                    id.append(digits.as_str());
                    id.append("_");
                    id.append(v.as_str());
                    let blank = Term::BlankNode(id);
                    let r = s.bind(v, &blank);
                    r
                },
            }
        },
        _ => s,
    }
}

impl Rule {
    /// Creates a rule from its name, premises and conclusion.
    pub fn new(name: &str, premises: Vec<Formula>, conclusion: Formula) -> (r: Rule)
        ensures
            r@.name == name@,
            r@.premises == formulas_view(premises@),
            r@.conclusion == conclusion@,
            r@.description is None,
    {
        Rule { name: name.to_owned(), premises, conclusion, description: None }
    }

    /// Attaches a description to the rule.
    pub fn with_description(self, desc: &str) -> (r: Rule)
        ensures
            r@.name == self@.name,
            r@.premises == self@.premises,
            r@.conclusion == self@.conclusion,
            r@.description == Some(desc@),
    {
        Rule { description: Some(desc.to_owned()), ..self }
    }

    /// The cheap pre-check before unification: a rule applies only to
    /// exactly as many formulas as it has premises.
    pub fn can_apply(&self, formulas: &Vec<Formula>) -> (r: bool)
        ensures
            r == (self@.premises.len() == formulas@.len()),
    {
        self.premises.len() == formulas.len()
    }

    fn apply_inner(&self, formulas: &Vec<Formula>, fresh: u64, budget: Option<u64>) -> (r: Result<
        Formula,
        Error,
    >)
        ensures
            r == Err::<Formula, Error>(Error::ArityMismatch) <==> self@.premises.len()
                != formulas@.len(),
            r == Err::<Formula, Error>(Error::NoMatchFound) ==> (forall|
                sf: Map<Seq<char>, SpecTerm>,
            |
                !spec_match(
                    self@.premises,
                    formulas_view(formulas@),
                    Map::<Seq<char>, SpecTerm>::empty(),
                    sf,
                )),
            budget is None && self@.premises.len() == formulas@.len() ==> ((r == Err::<
                Formula,
                Error,
            >(Error::NoMatchFound)) <==> (forall|sf: Map<Seq<char>, SpecTerm>|
                !spec_match(
                    self@.premises,
                    formulas_view(formulas@),
                    Map::<Seq<char>, SpecTerm>::empty(),
                    sf,
                ))),
            budget is None ==> r != Err::<Formula, Error>(Error::BudgetExceeded),
            budget is None ==> (r matches Ok(f) ==> first_match(
                self@.premises,
                formulas_view(formulas@),
                Map::<Seq<char>, SpecTerm>::empty(),
            ) is Some && f@ == instantiated(
                self@.conclusion,
                first_match(
                    self@.premises,
                    formulas_view(formulas@),
                    Map::<Seq<char>, SpecTerm>::empty(),
                )->Some_0,
                fresh as nat,
            )),
            budget is None && r == Err::<Formula, Error>(Error::ModelError) ==> first_match(
                self@.premises,
                formulas_view(formulas@),
                Map::<Seq<char>, SpecTerm>::empty(),
            ) is Some && !spec_formula_wf(
                instantiated(
                    self@.conclusion,
                    first_match(
                        self@.premises,
                        formulas_view(formulas@),
                        Map::<Seq<char>, SpecTerm>::empty(),
                    )->Some_0,
                    fresh as nat,
                ),
            ),
            budget is None && self@.premises.len() == formulas@.len() && first_match(
                self@.premises,
                formulas_view(formulas@),
                Map::<Seq<char>, SpecTerm>::empty(),
            ) is Some && spec_formula_wf(
                instantiated(
                    self@.conclusion,
                    first_match(
                        self@.premises,
                        formulas_view(formulas@),
                        Map::<Seq<char>, SpecTerm>::empty(),
                    )->Some_0,
                    fresh as nat,
                ),
            ) ==> r is Ok,
            r matches Ok(f) ==> exists|sf: Map<Seq<char>, SpecTerm>|
                #![trigger spec_match(self@.premises, formulas_view(formulas@), Map::<Seq<char>, SpecTerm>::empty(), sf)]
                spec_match(
                    self@.premises,
                    formulas_view(formulas@),
                    Map::<Seq<char>, SpecTerm>::empty(),
                    sf,
                ) && f@ == instantiated(self@.conclusion, sf, fresh as nat) && spec_formula_wf(f@),
            r == Err::<Formula, Error>(Error::ModelError) ==> exists|sf: Map<Seq<char>, SpecTerm>|
                #![trigger spec_match(self@.premises, formulas_view(formulas@), Map::<Seq<char>, SpecTerm>::empty(), sf)]
                spec_match(
                    self@.premises,
                    formulas_view(formulas@),
                    Map::<Seq<char>, SpecTerm>::empty(),
                    sf,
                ) && !spec_formula_wf(instantiated(self@.conclusion, sf, fresh as nat)),
            r is Err ==> r == Err::<Formula, Error>(Error::ArityMismatch) || r == Err::<
                Formula,
                Error,
            >(Error::NoMatchFound) || r == Err::<Formula, Error>(Error::ModelError) || r == Err::<
                Formula,
                Error,
            >(Error::BudgetExceeded),
    {
        if formulas.len() != self.premises.len() {
            return Err(Error::ArityMismatch);
        }
        let s0 = Substitution::new();
        let outcome = match budget {
            None => match_premises(&self.premises, formulas, &s0),
            Some(b) => crate::unify::match_premises_with_budget(&self.premises, formulas, &s0, b),
        };
        match outcome {
            MatchOutcome::Found(sf) => {
                let ghost sfv = sf@;
                proof {
                    assert(spec_match(
                        self@.premises,
                        formulas_view(formulas@),
                        Map::<Seq<char>, SpecTerm>::empty(),
                        sfv,
                    ));
                }
                // Complete the substitution with skolem blank nodes for the
                // conclusion's unbound variables, front to back.
                let mut s_full = sf;
                let n = self.conclusion.statements.len();
                let ghost conc = self@.conclusion.statements;
                proof {
                    lemma_stmts_view(self.conclusion.statements@);
                    assert(conc.skip(0) =~= conc);
                }
                for i in 0..n
                    invariant
                        n == self.conclusion.statements@.len(),
                        n == conc.len(),
                        conc == self@.conclusion.statements,
                        s_full.wf(),
                        skolem_stmts(s_full@, conc.skip(i as int), fresh as nat) == skolem_stmts(
                            sfv,
                            conc,
                            fresh as nat,
                        ),
                    decreases n - i,
                {
                    proof {
                        lemma_stmts_view(self.conclusion.statements@);
                        assert(conc.skip(i as int)[0] == conc[i as int]);
                        assert(conc.skip(i as int).subrange(1, conc.skip(i as int).len() as int)
                            =~= conc.skip(i + 1));
                    }
                    let st = &self.conclusion.statements[i];
                    let s1 = skolemize_term(s_full, &st.subject, fresh);
                    let s2 = skolemize_term(s1, &st.predicate, fresh);
                    s_full = skolemize_term(s2, &st.object, fresh);
                }
                proof {
                    assert(conc.skip(n as int) =~= Seq::<SpecStatement>::empty());
                    assert(s_full@ == skolem_stmts(sfv, conc, fresh as nat));
                }
                // Instantiate the conclusion.
                let mut out = Formula::new();
                for i in 0..n
                    invariant
                        n == self.conclusion.statements@.len(),
                        n == conc.len(),
                        conc == self@.conclusion.statements,
                        s_full.wf(),
                        s_full@ == skolem_stmts(sfv, conc, fresh as nat),
                        out@.universals == Set::<Seq<char>>::empty(),
                        out@.existentials == Set::<Seq<char>>::empty(),
                        out@.statements.len() == i,
                        forall|x: int|
                            0 <= x < i ==> out@.statements[x] == subst_stmt(s_full@, conc[x]),
                    decreases n - i,
                {
                    proof {
                        lemma_stmts_view(self.conclusion.statements@);
                    }
                    let st = subst_apply_statement(&s_full, &self.conclusion.statements[i]);
                    out.add_statement(st);
                }
                proof {
                    assert(out@.statements =~= subst_stmts(s_full@, conc));
                    assert(out@ == instantiated(self@.conclusion, sfv, fresh as nat));
                }
                let ok = check_formula_wf(&out);
                if ok {
                    Ok(out)
                } else {
                    Err(Error::ModelError)
                }
            },
            MatchOutcome::NoMatch => Err(Error::NoMatchFound),
            MatchOutcome::Exceeded => {
                proof {
                    assert(budget is Some);
                }
                Err(Error::BudgetExceeded)
            },
        }
    }

    /// Applies the rule to the given formulas.
    ///
    /// Each premise is matched against the formula in the same position,
    /// under one substitution shared across all premises; on success the
    /// substitution, completed with skolem blank nodes numbered by `fresh`,
    /// instantiates the conclusion. The search policy is fixed: premise
    /// statements are processed in stored order and candidate statements
    /// are tried in stored order, and the result is the instantiation under
    /// the first substitution that policy finds ([`first_match`]), so the
    /// call is a pure, deterministic function of the rule, the formulas and
    /// `fresh`. It fails with an arity mismatch when the number of formulas
    /// differs from the premise count, with "no match found" exactly when
    /// no substitution matches, and with a model error when the
    /// instantiated conclusion is not well-formed (as when a candidate's
    /// quantified variable leaks into the conclusion).
    pub fn apply(&self, formulas: &Vec<Formula>, fresh: u64) -> (r: Result<Formula, Error>)
        ensures
            r == Err::<Formula, Error>(Error::ArityMismatch) <==> self@.premises.len()
                != formulas@.len(),
            self@.premises.len() == formulas@.len() ==> ((r == Err::<Formula, Error>(
                Error::NoMatchFound,
            )) <==> (forall|sf: Map<Seq<char>, SpecTerm>|
                !spec_match(
                    self@.premises,
                    formulas_view(formulas@),
                    Map::<Seq<char>, SpecTerm>::empty(),
                    sf,
                ))),
            r matches Ok(f) ==> exists|sf: Map<Seq<char>, SpecTerm>|
                #![trigger spec_match(self@.premises, formulas_view(formulas@), Map::<Seq<char>, SpecTerm>::empty(), sf)]
                spec_match(
                    self@.premises,
                    formulas_view(formulas@),
                    Map::<Seq<char>, SpecTerm>::empty(),
                    sf,
                ) && f@ == instantiated(self@.conclusion, sf, fresh as nat) && spec_formula_wf(f@),
            r == Err::<Formula, Error>(Error::ModelError) ==> exists|sf: Map<Seq<char>, SpecTerm>|
                #![trigger spec_match(self@.premises, formulas_view(formulas@), Map::<Seq<char>, SpecTerm>::empty(), sf)]
                spec_match(
                    self@.premises,
                    formulas_view(formulas@),
                    Map::<Seq<char>, SpecTerm>::empty(),
                    sf,
                ) && !spec_formula_wf(instantiated(self@.conclusion, sf, fresh as nat)),
            r is Err ==> r == Err::<Formula, Error>(Error::ArityMismatch) || r == Err::<
                Formula,
                Error,
            >(Error::NoMatchFound) || r == Err::<Formula, Error>(Error::ModelError),
            r matches Ok(f) ==> first_match(
                self@.premises,
                formulas_view(formulas@),
                Map::<Seq<char>, SpecTerm>::empty(),
            ) is Some && f@ == instantiated(
                self@.conclusion,
                first_match(
                    self@.premises,
                    formulas_view(formulas@),
                    Map::<Seq<char>, SpecTerm>::empty(),
                )->Some_0,
                fresh as nat,
            ),
            r == Err::<Formula, Error>(Error::ModelError) ==> first_match(
                self@.premises,
                formulas_view(formulas@),
                Map::<Seq<char>, SpecTerm>::empty(),
            ) is Some && !spec_formula_wf(
                instantiated(
                    self@.conclusion,
                    first_match(
                        self@.premises,
                        formulas_view(formulas@),
                        Map::<Seq<char>, SpecTerm>::empty(),
                    )->Some_0,
                    fresh as nat,
                ),
            ),
            self@.premises.len() == formulas@.len() && first_match(
                self@.premises,
                formulas_view(formulas@),
                Map::<Seq<char>, SpecTerm>::empty(),
            ) is Some && spec_formula_wf(
                instantiated(
                    self@.conclusion,
                    first_match(
                        self@.premises,
                        formulas_view(formulas@),
                        Map::<Seq<char>, SpecTerm>::empty(),
                    )->Some_0,
                    fresh as nat,
                ),
            ) ==> r is Ok,
    {
        self.apply_inner(formulas, fresh, None)
    }

    /// Like [`Rule::apply`], but every node the backtracking search visits
    /// consumes one unit of `budget`; an exhausted budget aborts the
    /// application with a budget-exceeded error, which is distinguishable
    /// from a definitive "no match found".
    pub fn apply_with_budget(&self, formulas: &Vec<Formula>, fresh: u64, budget: u64) -> (r: Result<
        Formula,
        Error,
    >)
        ensures
            r == Err::<Formula, Error>(Error::ArityMismatch) <==> self@.premises.len()
                != formulas@.len(),
            r == Err::<Formula, Error>(Error::NoMatchFound) ==> (forall|
                sf: Map<Seq<char>, SpecTerm>,
            |
                !spec_match(
                    self@.premises,
                    formulas_view(formulas@),
                    Map::<Seq<char>, SpecTerm>::empty(),
                    sf,
                )),
            r matches Ok(f) ==> exists|sf: Map<Seq<char>, SpecTerm>|
                #![trigger spec_match(self@.premises, formulas_view(formulas@), Map::<Seq<char>, SpecTerm>::empty(), sf)]
                spec_match(
                    self@.premises,
                    formulas_view(formulas@),
                    Map::<Seq<char>, SpecTerm>::empty(),
                    sf,
                ) && f@ == instantiated(self@.conclusion, sf, fresh as nat) && spec_formula_wf(f@),
            r == Err::<Formula, Error>(Error::ModelError) ==> exists|sf: Map<Seq<char>, SpecTerm>|
                #![trigger spec_match(self@.premises, formulas_view(formulas@), Map::<Seq<char>, SpecTerm>::empty(), sf)]
                spec_match(
                    self@.premises,
                    formulas_view(formulas@),
                    Map::<Seq<char>, SpecTerm>::empty(),
                    sf,
                ) && !spec_formula_wf(instantiated(self@.conclusion, sf, fresh as nat)),
            r is Err ==> r == Err::<Formula, Error>(Error::ArityMismatch) || r == Err::<
                Formula,
                Error,
            >(Error::NoMatchFound) || r == Err::<Formula, Error>(Error::ModelError) || r == Err::<
                Formula,
                Error,
            >(Error::BudgetExceeded),
    {
        self.apply_inner(formulas, fresh, Some(budget))
    }
}

/// Whether the conclusion variable `v` is grounded by some premise or
/// declared existential in the conclusion.
pub open spec fn var_covered(r: SpecRule, v: Seq<char>) -> bool {
    ||| exists|k: int|
        0 <= k < r.premises.len() && #[trigger] free_vars(r.premises[k].statements).contains(v)
    ||| r.conclusion.existentials.contains(v)
}

/// Rule safety: every variable free in the conclusion is free in at least
/// one premise or declared existential in the conclusion.
pub open spec fn rule_safe(r: SpecRule) -> bool {
    forall|v: Seq<char>|
        #[trigger] free_vars(r.conclusion.statements).contains(v) ==> var_covered(r, v)
}

/// Whether `v` occurs free (at a top-level position) in `f`.
fn formula_mentions(f: &Formula, v: &String) -> (r: bool)
    ensures
        r == free_vars(f@.statements).contains(v@),
{
    proof {
        lemma_stmts_view(f.statements@);
    }
    let n = f.statements.len();
    for i in 0..n
        invariant
            n == f.statements@.len(),
            forall|j: int| 0 <= j < i ==> !stmt_mentions_var(stmt_view(f.statements@[j]), v@),
        decreases n - i,
    {
        proof {
            lemma_stmts_view(f.statements@);
        }
        let st = &f.statements[i];
        let hit = match &st.subject {
            Term::Variable(x) => *x == *v,
            _ => false,
        } || match &st.predicate {
            Term::Variable(x) => *x == *v,
            _ => false,
        } || match &st.object {
            Term::Variable(x) => *x == *v,
            _ => false,
        };
        if hit {
            proof {
                assert(stmt_mentions_var(f@.statements[i as int], v@));
            }
            return true;
        }
        proof {
            assert(!stmt_mentions_var(stmt_view(f.statements@[i as int]), v@));
        }
    }
    proof {
        lemma_stmts_view(f.statements@);
        if free_vars(f@.statements).contains(v@) {
            let j = choose|j: int|
                0 <= j < f@.statements.len() && stmt_mentions_var(f@.statements[j], v@);
            assert(!stmt_mentions_var(stmt_view(f.statements@[j]), v@));
        }
    }
    false
}

fn var_covered_check(rule: &Rule, v: &String) -> (r: bool)
    ensures
        r == var_covered(rule@, v@),
{
    let in_existential = crate::model::contains_name(&rule.conclusion.existential_vars, v);
    if in_existential {
        return true;
    }
    let n = rule.premises.len();
    for k in 0..n
        invariant
            n == rule.premises@.len(),
            forall|k2: int|
                0 <= k2 < k ==> !free_vars(
                    (#[trigger] formulas_view(rule.premises@)[k2]).statements,
                ).contains(v@),
            !rule@.conclusion.existentials.contains(v@),
        decreases n - k,
    {
        let hit = formula_mentions(&rule.premises[k], v);
        if hit {
            proof {
                assert(free_vars(formulas_view(rule.premises@)[k as int].statements).contains(v@));
                assert(rule@.premises[k as int] == formulas_view(rule.premises@)[k as int]);
                assert(free_vars(rule@.premises[k as int].statements).contains(v@));
            }
            return true;
        }
    }
    proof {
        if var_covered(rule@, v@) {
            let k = choose|k: int|
                0 <= k < rule@.premises.len() && free_vars(rule@.premises[k].statements).contains(
                    v@,
                );
            assert(!free_vars(formulas_view(rule.premises@)[k].statements).contains(v@));
        }
    }
    false
}

/// Checks the safety invariant of a rule.
pub fn check_rule_safety(rule: &Rule) -> (r: bool)
    ensures
        r == rule_safe(rule@),
{
    proof {
        lemma_stmts_view(rule.conclusion.statements@);
    }
    let n = rule.conclusion.statements.len();
    for i in 0..n
        invariant
            n == rule.conclusion.statements@.len(),
            forall|j: int, v: Seq<char>|
                0 <= j < i && #[trigger] stmt_mentions_var(
                    stmt_view(rule.conclusion.statements@[j]),
                    v,
                ) ==> var_covered(rule@, v),
        decreases n - i,
    {
        proof {
            lemma_stmts_view(rule.conclusion.statements@);
        }
        let st = &rule.conclusion.statements[i];
        match &st.subject {
            Term::Variable(v) => {
                let ok = var_covered_check(rule, v);
                if !ok {
                    proof {
                        assert(stmt_mentions_var(
                            stmt_view(rule.conclusion.statements@[i as int]),
                            v@,
                        ));
                        assert(rule@.conclusion.statements[i as int] == stmt_view(
                            rule.conclusion.statements@[i as int],
                        ));
                        assert(stmt_mentions_var(rule@.conclusion.statements[i as int], v@));
                        assert(free_vars(rule@.conclusion.statements).contains(v@));
                    }
                    return false;
                }
            },
            _ => {
            },
        }
        match &st.predicate {
            Term::Variable(v) => {
                let ok = var_covered_check(rule, v);
                if !ok {
                    proof {
                        assert(stmt_mentions_var(
                            stmt_view(rule.conclusion.statements@[i as int]),
                            v@,
                        ));
                        assert(rule@.conclusion.statements[i as int] == stmt_view(
                            rule.conclusion.statements@[i as int],
                        ));
                        assert(stmt_mentions_var(rule@.conclusion.statements[i as int], v@));
                        assert(free_vars(rule@.conclusion.statements).contains(v@));
                    }
                    return false;
                }
            },
            _ => {
            },
        }
        match &st.object {
            Term::Variable(v) => {
                let ok = var_covered_check(rule, v);
                if !ok {
                    proof {
                        assert(stmt_mentions_var(
                            stmt_view(rule.conclusion.statements@[i as int]),
                            v@,
                        ));
                        assert(rule@.conclusion.statements[i as int] == stmt_view(
                            rule.conclusion.statements@[i as int],
                        ));
                        assert(stmt_mentions_var(rule@.conclusion.statements[i as int], v@));
                        assert(free_vars(rule@.conclusion.statements).contains(v@));
                    }
                    return false;
                }
            },
            _ => {
            },
        }
        proof {
            assert forall|v: Seq<char>|
                #[trigger] stmt_mentions_var(
                    stmt_view(rule.conclusion.statements@[i as int]),
                    v,
                ) implies var_covered(rule@, v) by {}
        }
    }
    proof {
        lemma_stmts_view(rule.conclusion.statements@);
        assert forall|v: Seq<char>|
            #[trigger] free_vars(rule@.conclusion.statements).contains(v) implies var_covered(
            rule@,
            v,
        ) by {
            let j = choose|j: int|
                0 <= j < rule@.conclusion.statements.len() && stmt_mentions_var(
                    rule@.conclusion.statements[j],
                    v,
                );
            assert(stmt_mentions_var(stmt_view(rule.conclusion.statements@[j]), v));
        }
    }
    true
}

/// Mathematical model of the engine's state.
pub struct SpecEngine {
    pub rules: Seq<SpecRule>,
    pub axioms: Seq<SpecFormula>,
    pub kb: Seq<SpecFormula>,
    pub proof: crate::proofs::SpecProof,
    pub counter: nat,
}

/// Every position in `pi` is a valid knowledge-base index.
pub open spec fn indices_ok(pi: Seq<usize>, kb_len: nat) -> bool {
    forall|x: int| 0 <= x < pi.len() ==> (#[trigger] pi[x]) < kb_len
}

/// The knowledge-base formulas selected by a list of positions.
pub open spec fn selected(kbv: Seq<SpecFormula>, pi: Seq<usize>) -> Seq<SpecFormula> {
    Seq::new(pi.len(), |i: int| kbv[pi[i] as int])
}

/// The proof engine: registered rules, axioms, the knowledge base, the
/// proof under construction, and the counter that numbers skolem blank
/// nodes.
pub struct ProofEngine {
    rules: Vec<Rule>,
    axioms: Vec<Formula>,
    knowledge_base: KnowledgeBase,
    proof: Proof,
    skolem_counter: u64,
}

impl View for ProofEngine {
    type V = SpecEngine;

    closed spec fn view(&self) -> SpecEngine {
        SpecEngine {
            rules: Seq::new(self.rules@.len(), |i: int| rule_view(self.rules@[i])),
            axioms: Seq::new(self.axioms@.len(), |i: int| formula_view(self.axioms@[i])),
            kb: self.knowledge_base@,
            proof: self.proof@,
            counter: self.skolem_counter as nat,
        }
    }
}

impl ProofEngine {
    /// The engine invariant: the index is correct, the proof is acyclic,
    /// and the proof records one step per knowledge-base entry, concluding
    /// exactly that entry's formula.
    pub closed spec fn wf(&self) -> bool {
        &&& self.knowledge_base.wf()
        &&& self.proof.wf()
        &&& self@.proof.steps.len() == self@.kb.len()
        &&& forall|i: int|
            0 <= i < self@.kb.len() ==> (#[trigger] self@.proof.steps[i]).conclusion == self@.kb[i]
    }

    /// Creates an engine with no rules, axioms or derivations.
    pub fn new() -> (r: ProofEngine)
        ensures
            r.wf(),
            r@.rules == Seq::<SpecRule>::empty(),
            r@.axioms == Seq::<SpecFormula>::empty(),
            r@.kb == Seq::<SpecFormula>::empty(),
            r@.proof.steps == Seq::<crate::proofs::SpecStep>::empty(),
            r@.proof.goal is None,
            r@.counter == 0,
    {
        let r = ProofEngine {
            rules: Vec::new(),
            axioms: Vec::new(),
            knowledge_base: KnowledgeBase::new(),
            proof: Proof::new(),
            skolem_counter: 0,
        };
        proof {
            assert(r@.rules =~= Seq::<SpecRule>::empty());
            assert(r@.axioms =~= Seq::<SpecFormula>::empty());
        }
        r
    }

    /// Whether the engine is ready to reason.
    pub fn ready(&self) -> (r: bool)
        ensures
            r,
    {
        true
    }

    /// Registers an axiom: the formula must satisfy the formula invariant;
    /// it is appended to the knowledge base and recorded as a premise-free
    /// "axiom" proof step, and its knowledge-base position is returned. An
    /// ill-formed formula is rejected with a model error and nothing
    /// changes.
    pub fn add_axiom(&mut self, formula: Formula) -> (r: Result<usize, Error>)
        requires
            old(self).wf(),
        ensures
            final(self).wf(),
            r is Ok <==> crate::model::spec_formula_wf(formula@),
            r matches Ok(idx) ==> idx == old(self)@.kb.len() && final(self)@.kb == old(
                self,
            )@.kb.push(formula@) && final(self)@.axioms == old(self)@.axioms.push(formula@) && final(self)@.proof.steps == old(self)@.proof.steps.push(
                (SpecStep {
                    conclusion: formula@,
                    rule: "axiom"@,
                    premises: Seq::empty(),
                    description: Some("Axiom added to the proof"@),
                }),
            ) && final(self)@.proof.goal == old(self)@.proof.goal && final(self)@.rules == old(
                self,
            )@.rules && final(self)@.counter == old(self)@.counter,
            r is Err ==> r == Err::<usize, Error>(Error::ModelError) && final(self)@ == old(self)@,
    {
        let ok = check_formula_wf(&formula);
        if !ok {
            return Err(Error::ModelError);
        }
        let step_conclusion = formula_dup(&formula);
        let own_copy = formula_dup(&formula);
        let idx = self.knowledge_base.add(formula);
        self.axioms.push(own_copy);
        let premises: Vec<usize> = Vec::new();
        let step = ProofStep::new(step_conclusion, "axiom", premises).with_description(
            "Axiom added to the proof",
        );
        let ghost stepv = step@;
        let added = self.proof.add_step(step);
        proof {
            assert(stepv.premises =~= Seq::<usize>::empty());
            assert(added is Ok);
            assert(final(self)@.axioms =~= old(self)@.axioms.push(stepv.conclusion));
            assert(final(self)@.rules =~= old(self)@.rules);
            assert forall|i: int| 0 <= i < self@.kb.len() implies (
            #[trigger] self@.proof.steps[i]).conclusion == self@.kb[i] by {
                if i < old(self)@.kb.len() {
                    assert(old(self)@.proof.steps[i].conclusion == old(self)@.kb[i]);
                }
            }
        }
        match added {
            Ok(_) => Ok(idx),
            Err(_) => {
                proof {
                    assert(false);
                }
                Err(Error::ModelError)
            },
        }
    }

    /// Registers a rule after validating the safety invariant: every
    /// variable free in the conclusion must be free in some premise or
    /// declared existential in the conclusion. An unsafe rule is rejected
    /// and nothing changes.
    pub fn add_rule(&mut self, rule: Rule) -> (r: Result<usize, Error>)
        requires
            old(self).wf(),
        ensures
            final(self).wf(),
            r is Ok <==> rule_safe(rule@),
            r matches Ok(idx) ==> idx == old(self)@.rules.len() && final(self)@.rules == old(
                self,
            )@.rules.push(rule@) && final(self)@.kb == old(self)@.kb && final(self)@.axioms == old(
                self,
            )@.axioms && final(self)@.proof == old(self)@.proof && final(self)@.counter == old(
                self,
            )@.counter,
            r is Err ==> r == Err::<usize, Error>(Error::UnsafeRule) && final(self)@ == old(self)@,
    {
        let ok = check_rule_safety(&rule);
        if !ok {
            return Err(Error::UnsafeRule);
        }
        let idx = self.rules.len();
        let ghost rv = rule@;
        self.rules.push(rule);
        proof {
            assert(final(self)@.rules =~= old(self)@.rules.push(rv));
            assert(final(self)@.axioms =~= old(self)@.axioms);
        }
        Ok(idx)
    }

    /// Sets the goal that the proof aims to establish.
    pub fn set_goal(&mut self, goal: Formula)
        requires
            old(self).wf(),
        ensures
            final(self).wf(),
            final(self)@.proof.goal == Some(goal@),
            final(self)@.proof.steps == old(self)@.proof.steps,
            final(self)@.kb == old(self)@.kb,
            final(self)@.axioms == old(self)@.axioms,
            final(self)@.rules == old(self)@.rules,
            final(self)@.counter == old(self)@.counter,
    {
        self.proof.set_goal(goal);
        proof {
            assert(final(self)@.rules =~= old(self)@.rules);
            assert(final(self)@.axioms =~= old(self)@.axioms);
        }
    }

    /// Applies a registered rule to the knowledge-base entries at the given
    /// positions. On success the instantiated conclusion is appended to the
    /// knowledge base, a proof step referencing exactly those positions is
    /// recorded, and the new position is returned; on any failure nothing
    /// changes. The failures are told apart: a bad rule index, a bad
    /// premise index, an arity mismatch, a definitive "no match", and a
    /// model error for an ill-formed instantiated conclusion.
    fn apply_rule_inner(
        &mut self,
        rule_index: usize,
        premise_indices: &Vec<usize>,
        budget: Option<u64>,
    ) -> (r: Result<usize, Error>)
        requires
            old(self).wf(),
            old(self)@.counter < u64::MAX,
        ensures
            budget is None ==> r != Err::<usize, Error>(Error::BudgetExceeded),
            final(self).wf(),
            r is Err ==> final(self)@ == old(self)@,
            (r == Err::<usize, Error>(Error::InvalidRuleIndex)) <==> rule_index >= old(
                self,
            )@.rules.len(),
            rule_index < old(self)@.rules.len() ==> ((r == Err::<usize, Error>(
                Error::InvalidPremiseIndex,
            )) <==> !indices_ok(premise_indices@, old(self)@.kb.len())),
            rule_index < old(self)@.rules.len() && indices_ok(
                premise_indices@,
                old(self)@.kb.len(),
            ) ==> ({
                let rv = old(self)@.rules[rule_index as int];
                let cands = selected(old(self)@.kb, premise_indices@);
                &&& ((r == Err::<usize, Error>(Error::ArityMismatch)) <==> rv.premises.len()
                    != premise_indices@.len())
                &&& (r == Err::<usize, Error>(Error::NoMatchFound) ==> (forall|
                    sf: Map<Seq<char>, SpecTerm>,
                |
                    !spec_match(rv.premises, cands, Map::<Seq<char>, SpecTerm>::empty(), sf)))
                &&& (budget is None && rv.premises.len() == premise_indices@.len() ==> ((r
                    == Err::<usize, Error>(Error::NoMatchFound)) <==> (forall|
                    sf: Map<Seq<char>, SpecTerm>,
                |
                    !spec_match(rv.premises, cands, Map::<Seq<char>, SpecTerm>::empty(), sf))))
                &&& (r matches Ok(idx) ==> idx == old(self)@.kb.len() && exists|
                    sf: Map<Seq<char>, SpecTerm>,
                |
                    #![trigger spec_match(rv.premises, cands, Map::<Seq<char>, SpecTerm>::empty(), sf)]
                    spec_match(rv.premises, cands, Map::<Seq<char>, SpecTerm>::empty(), sf)
                        && crate::model::spec_formula_wf(
                        instantiated(rv.conclusion, sf, old(self)@.counter),
                    ) && final(self)@.kb == old(self)@.kb.push(
                        instantiated(rv.conclusion, sf, old(self)@.counter),
                    ) && final(self)@.proof.steps == old(self)@.proof.steps.push(
                        (SpecStep {
                            conclusion: instantiated(rv.conclusion, sf, old(self)@.counter),
                            rule: rv.name,
                            premises: premise_indices@,
                            description: Some("Applied rule '"@ + rv.name + "'"@),
                        }),
                    ))
                &&& (r matches Ok(idx) ==> final(self)@.counter == old(self)@.counter + 1 && final(self)@.rules == old(self)@.rules && final(self)@.axioms == old(self)@.axioms && final(self)@.proof.goal == old(self)@.proof.goal)
                &&& (budget is None ==> (r matches Ok(idx) ==> first_match(
                    rv.premises,
                    cands,
                    Map::<Seq<char>, SpecTerm>::empty(),
                ) is Some && final(self)@.kb == old(self)@.kb.push(
                    instantiated(
                        rv.conclusion,
                        first_match(rv.premises, cands, Map::<Seq<char>, SpecTerm>::empty())->Some_0,
                        old(self)@.counter,
                    ),
                )))
                &&& (r == Err::<usize, Error>(Error::ModelError) ==> exists|
                    sf: Map<Seq<char>, SpecTerm>,
                |
                    #![trigger spec_match(rv.premises, cands, Map::<Seq<char>, SpecTerm>::empty(), sf)]
                    spec_match(rv.premises, cands, Map::<Seq<char>, SpecTerm>::empty(), sf)
                        && !crate::model::spec_formula_wf(
                        instantiated(rv.conclusion, sf, old(self)@.counter),
                    ))
                &&& (budget is None && rv.premises.len() == premise_indices@.len() && first_match(
                    rv.premises,
                    cands,
                    Map::<Seq<char>, SpecTerm>::empty(),
                ) is Some && crate::model::spec_formula_wf(
                    instantiated(
                        rv.conclusion,
                        first_match(rv.premises, cands, Map::<Seq<char>, SpecTerm>::empty())->Some_0,
                        old(self)@.counter,
                    ),
                ) ==> r is Ok)
                &&& (budget is None && r == Err::<usize, Error>(Error::ModelError)
                    ==> first_match(rv.premises, cands, Map::<Seq<char>, SpecTerm>::empty())
                    is Some && !crate::model::spec_formula_wf(
                    instantiated(
                        rv.conclusion,
                        first_match(rv.premises, cands, Map::<Seq<char>, SpecTerm>::empty())->Some_0,
                        old(self)@.counter,
                    ),
                ))
            }),
            r is Err ==> r == Err::<usize, Error>(Error::InvalidRuleIndex) || r == Err::<
                usize,
                Error,
            >(Error::InvalidPremiseIndex) || r == Err::<usize, Error>(Error::ArityMismatch) || r
                == Err::<usize, Error>(Error::NoMatchFound) || r == Err::<usize, Error>(
                Error::ModelError,
            ) || r == Err::<usize, Error>(Error::BudgetExceeded),
    {
        if rule_index >= self.rules.len() {
            return Err(Error::InvalidRuleIndex);
        }
        let n = premise_indices.len();
        let kb_len = self.knowledge_base.len();
        for x in 0..n
            invariant
                self@ == old(self)@,
                self.wf(),
                rule_index < self@.rules.len(),
                n == premise_indices@.len(),
                kb_len == self@.kb.len(),
                forall|y: int| 0 <= y < x ==> (#[trigger] premise_indices@[y]) < kb_len,
            decreases n - x,
        {
            if premise_indices[x] >= kb_len {
                return Err(Error::InvalidPremiseIndex);
            }
        }
        let mut premises: Vec<Formula> = Vec::new();
        for x in 0..n
            invariant
                self@ == old(self)@,
                self.wf(),
                rule_index < self@.rules.len(),
                n == premise_indices@.len(),
                kb_len == self@.kb.len(),
                forall|y: int| 0 <= y < n ==> (#[trigger] premise_indices@[y]) < kb_len,
                premises@.len() == x,
                forall|y: int|
                    0 <= y < x ==> formula_view(#[trigger] premises@[y]) == self@.kb[
                        premise_indices@[y] as int
                    ],
            decreases n - x,
        {
            let f = self.knowledge_base.entry(premise_indices[x]);
            premises.push(f);
        }
        proof {
            assert(formulas_view(premises@) =~= selected(self@.kb, premise_indices@));
        }
        let outcome = self.rules[rule_index].apply_inner(&premises, self.skolem_counter, budget);
        match outcome {
            Err(e) => {
                proof {
                    assert(self@.rules[rule_index as int] == rule_view(
                        self.rules@[rule_index as int],
                    ));
                }
                Err(e)
            },
            Ok(conclusion) => {
                let ghost concv = conclusion@;
                proof {
                    assert(self@.rules[rule_index as int] == rule_view(
                        self.rules@[rule_index as int],
                    ));
                }
                let step_conclusion = formula_dup(&conclusion);
                let idx = self.knowledge_base.add(conclusion);
                let mut step_premises: Vec<usize> = Vec::new();
                for x in 0..n
                    invariant
                        n == premise_indices@.len(),
                        step_premises@ == premise_indices@.subrange(0, x as int),
                    decreases n - x,
                {
                    step_premises.push(premise_indices[x]);
                    proof {
                        assert(step_premises@ =~= premise_indices@.subrange(0, x + 1));
                    }
                }
                proof {
                    assert(step_premises@ =~= premise_indices@);
                }
                let mut description = "Applied rule '".to_owned();
                description.append(self.rules[rule_index].name.as_str());
                description.append("'");
                let step = ProofStep::new(
                    step_conclusion,
                    self.rules[rule_index].name.as_str(),
                    step_premises,
                ).with_description(description.as_str());
                let ghost stepv = step@;
                let added = self.proof.add_step(step);
                self.skolem_counter = self.skolem_counter + 1;
                proof {
                    assert(added is Ok);
                    assert(final(self)@.rules =~= old(self)@.rules);
                    assert(final(self)@.axioms =~= old(self)@.axioms);
                    assert forall|i: int| 0 <= i < self@.kb.len() implies (
                    #[trigger] self@.proof.steps[i]).conclusion == self@.kb[i] by {
                        if i < old(self)@.kb.len() {
                            assert(old(self)@.proof.steps[i].conclusion == old(self)@.kb[i]);
                        }
                    }
                }
                match added {
                    Ok(_) => Ok(idx),
                    Err(_) => {
                        proof {
                            assert(false);
                        }
                        Err(Error::NoMatchFound)
                    },
                }
            },
        }
    }

    /// Whether the proof establishes its goal: some knowledge-base formula
    /// is equivalent to the goal (under a bijective renaming of quantified variables); with no goal set,
    /// whether anything has been recorded at all.
    pub fn goal_proven(&self) -> (r: Result<bool, Error>)
        requires
            self.wf(),
        ensures
            r is Ok,
            r == Ok::<bool, Error>(true) <==> (match self@.proof.goal {
                Some(g) => exists|i: int|
                    0 <= i < self@.kb.len() && crate::utils::spec_equivalent(
                        #[trigger] self@.kb[i],
                        g,
                    ),
                None => self@.kb.len() > 0,
            }),
    {
        let r = self.proof.is_valid();
        proof {
            if self@.proof.goal is Some {
                let g = self@.proof.goal->0;
                assert forall|i: int|
                    0 <= i < self@.kb.len() && crate::utils::spec_equivalent(
                        #[trigger] self@.kb[i],
                        g,
                    ) implies exists|j: int|
                    0 <= j < self@.proof.steps.len() && crate::utils::spec_equivalent(
                        (#[trigger] self@.proof.steps[j]).conclusion,
                        g,
                    ) by {
                    assert(self@.proof.steps[i].conclusion == self@.kb[i]);
                    assert(crate::utils::spec_equivalent(self@.proof.steps[i].conclusion, g));
                }
                assert forall|j: int|
                    0 <= j < self@.proof.steps.len() && crate::utils::spec_equivalent(
                        (#[trigger] self@.proof.steps[j]).conclusion,
                        g,
                    ) implies exists|i: int|
                    0 <= i < self@.kb.len() && crate::utils::spec_equivalent(
                        #[trigger] self@.kb[i],
                        g,
                    ) by {
                    assert(self@.kb[j] == self@.proof.steps[j].conclusion);
                    assert(crate::utils::spec_equivalent(self@.kb[j], g));
                }
            }
        }
        r
    }


    /// Applies a registered rule to the knowledge-base entries at the given
    /// positions. On success the conclusion instantiated under the first
    /// substitution of the fixed search policy ([`first_match`]) — the same
    /// formula [`Rule::apply`] returns — is appended to the knowledge base,
    /// a proof step referencing exactly those positions is recorded, and
    /// the new position is returned; on any failure nothing changes. The
    /// failures are told apart: a bad rule index, a bad premise index, an
    /// arity mismatch, a definitive "no match", and a model error for an
    /// ill-formed instantiated conclusion — and those five are the only
    /// failures. Success is owed: with a valid rule index, valid premise
    /// positions, matching arity, and a first matching substitution whose
    /// instantiated conclusion is well-formed, the call returns `Ok`.
    pub fn apply_rule(&mut self, rule_index: usize, premise_indices: &Vec<usize>) -> (r: Result<
        usize,
        Error,
    >)
        requires
            old(self).wf(),
            old(self)@.counter < u64::MAX,
        ensures
            final(self).wf(),
            r is Err ==> final(self)@ == old(self)@,
            (r == Err::<usize, Error>(Error::InvalidRuleIndex)) <==> rule_index >= old(
                self,
            )@.rules.len(),
            rule_index < old(self)@.rules.len() ==> ((r == Err::<usize, Error>(
                Error::InvalidPremiseIndex,
            )) <==> !indices_ok(premise_indices@, old(self)@.kb.len())),
            rule_index < old(self)@.rules.len() && indices_ok(
                premise_indices@,
                old(self)@.kb.len(),
            ) ==> ({
                let rv = old(self)@.rules[rule_index as int];
                let cands = selected(old(self)@.kb, premise_indices@);
                &&& ((r == Err::<usize, Error>(Error::ArityMismatch)) <==> rv.premises.len()
                    != premise_indices@.len())
                &&& (rv.premises.len() == premise_indices@.len() ==> ((r == Err::<usize, Error>(
                    Error::NoMatchFound,
                )) <==> (forall|sf: Map<Seq<char>, SpecTerm>|
                    !spec_match(rv.premises, cands, Map::<Seq<char>, SpecTerm>::empty(), sf))))
                &&& (r matches Ok(idx) ==> idx == old(self)@.kb.len() && exists|
                    sf: Map<Seq<char>, SpecTerm>,
                |
                    #![trigger spec_match(rv.premises, cands, Map::<Seq<char>, SpecTerm>::empty(), sf)]
                    spec_match(rv.premises, cands, Map::<Seq<char>, SpecTerm>::empty(), sf)
                        && crate::model::spec_formula_wf(
                        instantiated(rv.conclusion, sf, old(self)@.counter),
                    ) && final(self)@.kb == old(self)@.kb.push(
                        instantiated(rv.conclusion, sf, old(self)@.counter),
                    ) && final(self)@.proof.steps == old(self)@.proof.steps.push(
                        (SpecStep {
                            conclusion: instantiated(rv.conclusion, sf, old(self)@.counter),
                            rule: rv.name,
                            premises: premise_indices@,
                            description: Some("Applied rule '"@ + rv.name + "'"@),
                        }),
                    ))
                &&& (r matches Ok(idx) ==> final(self)@.counter == old(self)@.counter + 1 && final(self)@.rules == old(self)@.rules && final(self)@.axioms == old(self)@.axioms && final(self)@.proof.goal == old(self)@.proof.goal)
                &&& (r matches Ok(idx) ==> first_match(
                    rv.premises,
                    cands,
                    Map::<Seq<char>, SpecTerm>::empty(),
                ) is Some && final(self)@.kb == old(self)@.kb.push(
                    instantiated(
                        rv.conclusion,
                        first_match(rv.premises, cands, Map::<Seq<char>, SpecTerm>::empty())->Some_0,
                        old(self)@.counter,
                    ),
                ))
                &&& (rv.premises.len() == premise_indices@.len() && first_match(
                    rv.premises,
                    cands,
                    Map::<Seq<char>, SpecTerm>::empty(),
                ) is Some && crate::model::spec_formula_wf(
                    instantiated(
                        rv.conclusion,
                        first_match(rv.premises, cands, Map::<Seq<char>, SpecTerm>::empty())->Some_0,
                        old(self)@.counter,
                    ),
                ) ==> r is Ok)
                &&& (r == Err::<usize, Error>(Error::ModelError) ==> first_match(
                    rv.premises,
                    cands,
                    Map::<Seq<char>, SpecTerm>::empty(),
                ) is Some && !crate::model::spec_formula_wf(
                    instantiated(
                        rv.conclusion,
                        first_match(rv.premises, cands, Map::<Seq<char>, SpecTerm>::empty())->Some_0,
                        old(self)@.counter,
                    ),
                ))
            }),
            r is Err ==> r == Err::<usize, Error>(Error::InvalidRuleIndex) || r == Err::<
                usize,
                Error,
            >(Error::InvalidPremiseIndex) || r == Err::<usize, Error>(Error::ArityMismatch) || r
                == Err::<usize, Error>(Error::NoMatchFound) || r == Err::<usize, Error>(
                Error::ModelError,
            ),
    {
        self.apply_rule_inner(rule_index, premise_indices, None)
    }

    /// Like [`ProofEngine::apply_rule`], but the backtracking search behind
    /// the application consumes one unit of `budget` per visited node; an
    /// exhausted budget aborts the call with a budget-exceeded error, which
    /// is distinguishable from a definitive "no match found", and leaves
    /// the engine unchanged like every other failure.
    pub fn apply_rule_with_budget(
        &mut self,
        rule_index: usize,
        premise_indices: &Vec<usize>,
        budget: u64,
    ) -> (r: Result<usize, Error>)
        requires
            old(self).wf(),
            old(self)@.counter < u64::MAX,
        ensures
            final(self).wf(),
            r is Err ==> final(self)@ == old(self)@,
            (r == Err::<usize, Error>(Error::InvalidRuleIndex)) <==> rule_index >= old(
                self,
            )@.rules.len(),
            rule_index < old(self)@.rules.len() ==> ((r == Err::<usize, Error>(
                Error::InvalidPremiseIndex,
            )) <==> !indices_ok(premise_indices@, old(self)@.kb.len())),
            rule_index < old(self)@.rules.len() && indices_ok(
                premise_indices@,
                old(self)@.kb.len(),
            ) ==> ({
                let rv = old(self)@.rules[rule_index as int];
                let cands = selected(old(self)@.kb, premise_indices@);
                &&& ((r == Err::<usize, Error>(Error::ArityMismatch)) <==> rv.premises.len()
                    != premise_indices@.len())
                &&& (r == Err::<usize, Error>(Error::NoMatchFound) ==> (forall|
                    sf: Map<Seq<char>, SpecTerm>,
                |
                    !spec_match(rv.premises, cands, Map::<Seq<char>, SpecTerm>::empty(), sf)))
                &&& (r matches Ok(idx) ==> idx == old(self)@.kb.len() && exists|
                    sf: Map<Seq<char>, SpecTerm>,
                |
                    #![trigger spec_match(rv.premises, cands, Map::<Seq<char>, SpecTerm>::empty(), sf)]
                    spec_match(rv.premises, cands, Map::<Seq<char>, SpecTerm>::empty(), sf)
                        && crate::model::spec_formula_wf(
                        instantiated(rv.conclusion, sf, old(self)@.counter),
                    ) && final(self)@.kb == old(self)@.kb.push(
                        instantiated(rv.conclusion, sf, old(self)@.counter),
                    ) && final(self)@.proof.steps == old(self)@.proof.steps.push(
                        (SpecStep {
                            conclusion: instantiated(rv.conclusion, sf, old(self)@.counter),
                            rule: rv.name,
                            premises: premise_indices@,
                            description: Some("Applied rule '"@ + rv.name + "'"@),
                        }),
                    ))
                &&& (r matches Ok(idx) ==> final(self)@.counter == old(self)@.counter + 1 && final(self)@.rules == old(self)@.rules && final(self)@.axioms == old(self)@.axioms && final(self)@.proof.goal == old(self)@.proof.goal)
                &&& (r == Err::<usize, Error>(Error::ModelError) ==> exists|
                    sf: Map<Seq<char>, SpecTerm>,
                |
                    #![trigger spec_match(rv.premises, cands, Map::<Seq<char>, SpecTerm>::empty(), sf)]
                    spec_match(rv.premises, cands, Map::<Seq<char>, SpecTerm>::empty(), sf)
                        && !crate::model::spec_formula_wf(
                        instantiated(rv.conclusion, sf, old(self)@.counter),
                    ))
            }),
            r is Err ==> r == Err::<usize, Error>(Error::InvalidRuleIndex) || r == Err::<
                usize,
                Error,
            >(Error::InvalidPremiseIndex) || r == Err::<usize, Error>(Error::ArityMismatch) || r
                == Err::<usize, Error>(Error::NoMatchFound) || r == Err::<usize, Error>(
                Error::ModelError,
            ) || r == Err::<usize, Error>(Error::BudgetExceeded),
    {
        self.apply_rule_inner(rule_index, premise_indices, Some(budget))
    }

    /// All knowledge-base locations (entry position, statement offset)
    /// whose statement has the given predicate, from the predicate index:
    /// the cheap way to choose candidate premises for a rule application.
    pub fn candidates_for(&self, predicate: &Term) -> (r: Vec<(usize, usize)>)
        requires
            self.wf(),
        ensures
            forall|y: int|
                0 <= y < r@.len() ==> {
                    let fi = (#[trigger] r@[y]).0 as int;
                    let si = r@[y].1 as int;
                    &&& 0 <= fi < self@.kb.len()
                    &&& 0 <= si < self@.kb[fi].statements.len()
                    &&& self@.kb[fi].statements[si].predicate == predicate@
                },
            forall|fi: int, si: int|
                #![trigger self@.kb[fi].statements[si]]
                0 <= fi < self@.kb.len() && 0 <= si < self@.kb[fi].statements.len()
                    && self@.kb[fi].statements[si].predicate == predicate@ ==> r@.contains(
                    (fi as usize, si as usize),
                ),
    {
        self.knowledge_base.lookup(predicate)
    }

    /// A copy of the current proof.
    pub fn get_proof(&self) -> (r: Proof)
        requires
            self.wf(),
        ensures
            r@ == self@.proof,
            r.wf(),
    {
        let n = self.proof.len();
        let mut r = Proof::new();
        for i in 0..n
            invariant
                n == self@.proof.steps.len(),
                r@.steps == self@.proof.steps.subrange(0, i as int),
                r@.goal is None,
                self.wf(),
            decreases n - i,
        {
            let step = self.proof.step(i);
            let added = r.add_step(step);
            proof {
                assert(r@.steps =~= self@.proof.steps.subrange(0, i + 1));
            }
        }
        proof {
            assert(r@.steps =~= self@.proof.steps);
        }
        let has = self.proof.has_goal();
        if has {
            let g = self.proof.goal_copy();
            let r2 = r.with_goal(g);
            proof {
                assert(r2@ =~= self@.proof);
                assert(r2.wf());
            }
            r2
        } else {
            proof {
                assert(r@ =~= self@.proof);
                assert(r.wf());
            }
            r
        }
    }
}

impl Default for ProofEngine {
    fn default() -> (r: ProofEngine)
        ensures
            r.wf(),
            r@.rules == Seq::<SpecRule>::empty(),
            r@.kb == Seq::<SpecFormula>::empty(),
            r@.proof.steps == Seq::<SpecStep>::empty(),
            r@.counter == 0,
    {
        ProofEngine::new()
    }
}

/// Acyclicity of engine-produced proofs: in a well-formed engine, every
/// premise index recorded by proof step `i` is strictly less than `i`.
pub proof fn lemma_engine_proof_acyclic(e: &ProofEngine, i: int, x: int)
    requires
        e.wf(),
        0 <= i < e@.proof.steps.len(),
        0 <= x < e@.proof.steps[i].premises.len(),
    ensures
        (e@.proof.steps[i].premises[x] as int) < i,
{
}

/// The candidate-statement positions already spoken for after matching the
/// first `i` statements of a ground premise: those holding one of them.
pub open spec fn ground_used(a: Seq<SpecStatement>, i: int, b: Seq<SpecStatement>) -> Set<int> {
    Set::new(
        |j: int|
            0 <= j < b.len() && exists|i2: int|
                #![trigger a[i2]]
                0 <= i2 < i && b[j] == a[i2],
    )
}

proof fn lemma_ground_unify(p: SpecStatement, c: SpecStatement, s: Map<Seq<char>, SpecTerm>)
    requires
        !(p.subject is Var),
        !(p.predicate is Var),
        !(p.object is Var),
    ensures
        spec_unify_stmt(p, c, s) is Some <==> p == c,
        spec_unify_stmt(p, c, s) is Some ==> spec_unify_stmt(p, c, s)->Some_0 == s,
{
}

proof fn lemma_ground_search_build(
    ps: Seq<SpecFormula>,
    cs: Seq<SpecFormula>,
    k: int,
    i: int,
    s: Map<Seq<char>, SpecTerm>,
)
    requires
        ps.len() == cs.len(),
        0 <= k <= ps.len(),
        forall|k2: int|
            k <= k2 < ps.len() ==> spec_ground_stmts((#[trigger] ps[k2]).statements),
        forall|k2: int| k <= k2 < ps.len() ==> (#[trigger] ps[k2]).statements.no_duplicates(),
        forall|k2: int| k <= k2 < ps.len() ==> (#[trigger] cs[k2]).statements.no_duplicates(),
        forall|k2: int|
            k <= k2 < ps.len() ==> (#[trigger] ps[k2]).statements.to_set()
                == cs[k2].statements.to_set(),
        0 <= i,
        k < ps.len() ==> i <= ps[k].statements.len(),
    ensures
        spec_search(
            ps,
            cs,
            k,
            i,
            if k < ps.len() {
                ground_used(ps[k].statements, i, cs[k].statements)
            } else {
                Set::empty()
            },
            s,
            s,
        ),
    decreases ps.len() - k, (if 0 <= k < ps.len() && 0 <= i <= ps[k].statements.len() {
        ps[k].statements.len() - i
    } else {
        0
    }),
{
    if k == ps.len() {
    } else if i == ps[k].statements.len() {
        lemma_ground_search_build(ps, cs, k + 1, 0, s);
        if k + 1 < ps.len() {
            assert(ground_used(ps[k + 1].statements, 0, cs[k + 1].statements) =~= Set::<
                int,
            >::empty());
        }
        assert(spec_search(ps, cs, k + 1, 0, Set::empty(), s, s));
    } else {
        let a = ps[k].statements;
        let b = cs[k].statements;
        let used = ground_used(a, i, b);
        assert(a.to_set().contains(a[i]));
        assert(b.to_set().contains(a[i]));
        assert(b.contains(a[i]));
        let j = choose|j: int| 0 <= j < b.len() && b[j] == a[i];
        assert(!used.contains(j)) by {
            if used.contains(j) {
                let i2 = choose|i2: int| #![trigger a[i2]] 0 <= i2 < i && b[j] == a[i2];
                assert(a[i2] == a[i]);
            }
        }
        lemma_ground_unify(a[i], b[j], s);
        assert(used.insert(j) =~= ground_used(a, i + 1, b)) by {
            assert forall|j2: int| used.insert(j).contains(j2) implies ground_used(
                a,
                i + 1,
                b,
            ).contains(j2) by {
                if j2 == j {
                    assert(b[j2] == a[i]);
                } else {
                    let i2 = choose|i2: int| #![trigger a[i2]] 0 <= i2 < i && b[j2] == a[i2];
                    assert(0 <= i2 < i + 1 && b[j2] == a[i2]);
                }
            }
            assert forall|j2: int| ground_used(a, i + 1, b).contains(j2) implies used.insert(
                j,
            ).contains(j2) by {
                let i2 = choose|i2: int| #![trigger a[i2]] 0 <= i2 < i + 1 && b[j2] == a[i2];
                if i2 < i {
                    assert(used.contains(j2));
                } else {
                    assert(b[j2] == a[i]);
                    assert(b[j2] == b[j]);
                    assert(b.no_duplicates());
                    assert(j2 == j);
                }
            }
        }
        lemma_ground_search_build(ps, cs, k, i + 1, s);
        assert(choice_ok(ps, cs, k, i, used, s, j, s));
        lemma_choice_to_search(ps, cs, k, i, used, s, j, s);
    }
}

proof fn lemma_ground_search_subset(
    ps: Seq<SpecFormula>,
    cs: Seq<SpecFormula>,
    k: int,
    i: int,
    used: Set<int>,
    s: Map<Seq<char>, SpecTerm>,
    sf: Map<Seq<char>, SpecTerm>,
)
    requires
        ps.len() == cs.len(),
        0 <= k <= ps.len(),
        forall|k2: int|
            k <= k2 < ps.len() ==> spec_ground_stmts((#[trigger] ps[k2]).statements),
        k < ps.len() ==> 0 <= i <= ps[k].statements.len(),
        spec_search(ps, cs, k, i, used, s, sf),
    ensures
        forall|i2: int|
            k < ps.len() && i <= i2 < ps[k].statements.len()
                ==> cs[k].statements.to_set().contains(#[trigger] ps[k].statements[i2]),
        forall|k2: int, i2: int|
            k < k2 < ps.len() && 0 <= i2 < ps[k2].statements.len()
                ==> cs[k2].statements.to_set().contains(#[trigger] ps[k2].statements[i2]),
    decreases ps.len() - k, (if 0 <= k < ps.len() && 0 <= i <= ps[k].statements.len() {
        ps[k].statements.len() - i
    } else {
        0
    }),
{
    if k == ps.len() {
    } else if i == ps[k].statements.len() {
        assert(spec_search(ps, cs, k + 1, 0, Set::empty(), s, sf));
        lemma_ground_search_subset(ps, cs, k + 1, 0, Set::empty(), s, sf);
    } else {
        lemma_search_to_choice(ps, cs, k, i, used, s, sf);
        let j = choose|j: int| #[trigger] choice_ok(ps, cs, k, i, used, s, j, sf);
        let a = ps[k].statements;
        let b = cs[k].statements;
        lemma_ground_unify(a[i], b[j], s);
        assert(b[j] == a[i]);
        assert(b.contains(a[i]));
        assert(b.to_set().contains(a[i]));
        lemma_ground_search_subset(ps, cs, k, i + 1, used.insert(j), s, sf);
    }
}

/// Soundness of matching on ground rules: when every premise holds no
/// variables, and premises and candidates are duplicate-free with matching
/// statement counts, a substitution completing the match exists exactly
/// when each candidate formula has the same statement set as its premise —
/// the ground form of alpha-equivalence.
pub proof fn lemma_ground_match(ps: Seq<SpecFormula>, cs: Seq<SpecFormula>)
    requires
        ps.len() == cs.len(),
        forall|k: int| 0 <= k < ps.len() ==> spec_ground_stmts((#[trigger] ps[k]).statements),
        forall|k: int| 0 <= k < ps.len() ==> (#[trigger] ps[k]).statements.no_duplicates(),
        forall|k: int| 0 <= k < ps.len() ==> (#[trigger] cs[k]).statements.no_duplicates(),
        forall|k: int|
            0 <= k < ps.len() ==> (#[trigger] ps[k]).statements.len() == cs[k].statements.len(),
    ensures
        (exists|sf: Map<Seq<char>, SpecTerm>|
            #![trigger spec_match(ps, cs, Map::<Seq<char>, SpecTerm>::empty(), sf)]
            spec_match(ps, cs, Map::<Seq<char>, SpecTerm>::empty(), sf)) <==> (forall|k: int|
            0 <= k < ps.len() ==> (#[trigger] ps[k]).statements.to_set()
                == cs[k].statements.to_set()),
{
    let empty_map = Map::<Seq<char>, SpecTerm>::empty();
    if forall|k: int|
        0 <= k < ps.len() ==> (#[trigger] ps[k]).statements.to_set() == cs[k].statements.to_set() {
        lemma_ground_search_build(ps, cs, 0, 0, empty_map);
        if 0 < ps.len() {
            assert(ground_used(ps[0].statements, 0, cs[0].statements) =~= Set::<int>::empty());
        }
        assert(spec_match(ps, cs, empty_map, empty_map));
    }
    if exists|sf: Map<Seq<char>, SpecTerm>|
        #![trigger spec_match(ps, cs, empty_map, sf)]
        spec_match(ps, cs, empty_map, sf) {
        let sf = choose|sf: Map<Seq<char>, SpecTerm>|
            #![trigger spec_match(ps, cs, empty_map, sf)]
            spec_match(ps, cs, empty_map, sf);
        lemma_ground_search_subset(ps, cs, 0, 0, Set::empty(), empty_map, sf);
        assert forall|k: int| 0 <= k < ps.len() implies (#[trigger] ps[k]).statements.to_set()
            == cs[k].statements.to_set() by {
            let a = ps[k].statements;
            let b = cs[k].statements;
            assert forall|x: SpecStatement| a.to_set().contains(x) implies b.to_set().contains(
                x,
            ) by {
                let i2 = choose|i2: int| 0 <= i2 < a.len() && a[i2] == x;
                if k == 0 {
                    assert(b.to_set().contains(a[i2]));
                } else {
                    assert(b.to_set().contains(a[i2]));
                }
            }
            a.unique_seq_to_set();
            b.unique_seq_to_set();
            vstd::set_lib::lemma_len_subset(a.to_set(), b.to_set());
            assert forall|x: SpecStatement| b.to_set().contains(x) implies a.to_set().contains(
                x,
            ) by {
                if !a.to_set().contains(x) {
                    assert(a.to_set().subset_of(b.to_set().remove(x)));
                    vstd::set_lib::lemma_len_subset(a.to_set(), b.to_set().remove(x));
                    assert(b.to_set().remove(x).len() == b.to_set().len() - 1);
                }
            }
            assert(a.to_set() =~= b.to_set());
        }
    }
}

} // verus!
