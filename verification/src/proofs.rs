//! Proof steps and proofs.
//!
//! A proof is an ordered sequence of steps; each step records a concluded
//! formula, the name of the rule that produced it ("axiom" for axioms), and
//! the knowledge-base positions of its premises. Every premise index must be
//! strictly less than the step's own index, so the steps form a directed
//! acyclic dependency graph; the invariant is enforced when a step is
//! appended, not merely checked afterwards.

use vstd::prelude::*;
use vstd::string::StringExecFns;

use crate::error::Error;
use crate::model::{Formula, SpecFormula, formula_dup, formula_view};
use crate::utils::{dec_digits, dec_render, formulas_equivalent, spec_equivalent};

verus! {

/// Mathematical model of a proof step.
pub struct SpecStep {
    pub conclusion: SpecFormula,
    pub rule: Seq<char>,
    pub premises: Seq<usize>,
    pub description: Option<Seq<char>>,
}

/// A single derivation step: the concluded formula, the rule used, the
/// premise positions it depended on, and an optional description.
#[derive(Debug, Clone)]
pub struct ProofStep {
    /// The formula derived in this step.
    pub conclusion: Formula,
    /// The rule used for this step, or "axiom".
    pub rule: String,
    /// Positions of the premises this step used.
    pub premises: Vec<usize>,
    /// Optional human-readable description.
    pub description: Option<String>,
}

pub open spec fn step_view(s: ProofStep) -> SpecStep {
    SpecStep {
        conclusion: formula_view(s.conclusion),
        rule: s.rule@,
        premises: s.premises@,
        description: match s.description {
            Some(d) => Some(d@),
            None => None,
        },
    }
}

impl View for ProofStep {
    type V = SpecStep;

    open spec fn view(&self) -> SpecStep {
        step_view(*self)
    }
}

impl ProofStep {
    /// Creates a proof step.
    pub fn new(conclusion: Formula, rule: &str, premises: Vec<usize>) -> (r: ProofStep)
        ensures
            r@.conclusion == conclusion@,
            r@.rule == rule@,
            r@.premises == premises@,
            r@.description is None,
    {
        ProofStep { conclusion, rule: rule.to_owned(), premises, description: None }
    }

    /// Attaches a description to this step.
    pub fn with_description(self, description: &str) -> (r: ProofStep)
        ensures
            r@.conclusion == self@.conclusion,
            r@.rule == self@.rule,
            r@.premises == self@.premises,
            r@.description == Some(description@),
    {
        ProofStep { description: Some(description.to_owned()), ..self }
    }

    /// Renders the step as
    /// `Step using rule '<name>' with <k> premise(s)[: <description>]`.
    pub fn render(&self) -> (r: String)
        ensures
            r@ == spec_step_render(self@),
    {
        let mut out = "Step using rule '".to_owned();
        out.append(self.rule.as_str());
        out.append("' with ");
        let count = dec_render(self.premises.len() as u128);
        out.append(count.as_str());
        out.append(" premise(s)");
        match &self.description {
            Some(d) => {
                out.append(": ");
                out.append(d.as_str());
            },
            None => {
            },
        }
        out
    }
}

/// The diagnostic text of a step.
pub open spec fn spec_step_render(s: SpecStep) -> Seq<char> {
    let base = "Step using rule '"@ + s.rule + "' with "@ + dec_digits(s.premises.len() as nat)
        + " premise(s)"@;
    match s.description {
        Some(d) => base + ": "@ + d,
        None => base,
    }
}

/// A deep copy of a proof step; the copy has the same view.
pub fn step_dup(s: &ProofStep) -> (r: ProofStep)
    ensures
        r@ == s@,
{
    let mut premises: Vec<usize> = Vec::new();
    let n = s.premises.len();
    for i in 0..n
        invariant
            n == s.premises@.len(),
            premises@ == s.premises@.subrange(0, i as int),
        decreases n - i,
    {
        premises.push(s.premises[i]);
        proof {
            assert(premises@ =~= s.premises@.subrange(0, i + 1));
        }
    }
    proof {
        assert(premises@ =~= s.premises@);
    }
    ProofStep {
        conclusion: formula_dup(&s.conclusion),
        rule: s.rule.clone(),
        premises,
        description: match &s.description {
            Some(d) => Some(d.clone()),
            None => None,
        },
    }
}

/// Mathematical model of a proof.
pub struct SpecProof {
    pub steps: Seq<SpecStep>,
    pub goal: Option<SpecFormula>,
}

/// An ordered, acyclic sequence of proof steps with an optional goal.
#[derive(Debug, Clone)]
pub struct Proof {
    steps: Vec<ProofStep>,
    goal: Option<Formula>,
}

impl View for Proof {
    type V = SpecProof;

    closed spec fn view(&self) -> SpecProof {
        SpecProof {
            steps: Seq::new(self.steps@.len(), |i: int| step_view(self.steps@[i])),
            goal: match self.goal {
                Some(g) => Some(formula_view(g)),
                None => None,
            },
        }
    }
}

impl Proof {
    /// Acyclicity: every premise index of every step is strictly less than
    /// the step's own index.
    pub open spec fn wf(&self) -> bool {
        forall|i: int, x: int|
            #![trigger self@.steps[i].premises[x]]
            0 <= i < self@.steps.len() && 0 <= x < self@.steps[i].premises.len()
                ==> (self@.steps[i].premises[x] as int) < i
    }

    /// Creates an empty proof.
    pub fn new() -> (r: Proof)
        ensures
            r.wf(),
            r@.steps == Seq::<SpecStep>::empty(),
            r@.goal is None,
    {
        let r = Proof { steps: Vec::new(), goal: None };
        proof {
            assert(r@.steps =~= Seq::<SpecStep>::empty());
        }
        r
    }

    /// Sets the goal of the proof.
    pub fn with_goal(self, goal: Formula) -> (r: Proof)
        ensures
            r@.steps == self@.steps,
            r@.goal == Some(goal@),
            self.wf() ==> r.wf(),
    {
        let r = Proof { steps: self.steps, goal: Some(goal) };
        proof {
            assert(r@.steps =~= self@.steps);
        }
        r
    }

    /// The number of steps.
    pub fn len(&self) -> (r: usize)
        ensures
            r == self@.steps.len(),
    {
        self.steps.len()
    }

    /// A copy of the step at position `i`.
    pub fn step(&self, i: usize) -> (r: ProofStep)
        requires
            i < self@.steps.len(),
        ensures
            r@ == self@.steps[i as int],
    {
        step_dup(&self.steps[i])
    }

    /// A copy of the goal formula.
    pub fn goal_copy(&self) -> (r: Formula)
        requires
            self@.goal is Some,
        ensures
            Some(r@) == self@.goal,
    {
        match &self.goal {
            Some(g) => formula_dup(g),
            None => {
                proof {
                    assert(false);
                }
                Formula::new()
            },
        }
    }

    /// Whether a goal has been set.
    pub fn has_goal(&self) -> (r: bool)
        ensures
            r == (self@.goal is Some),
    {
        self.goal.is_some()
    }

    /// Sets or replaces the goal of the proof in place.
    pub fn set_goal(&mut self, goal: Formula)
        ensures
            final(self)@.steps == old(self)@.steps,
            final(self)@.goal == Some(goal@),
            old(self).wf() ==> final(self).wf(),
    {
        self.goal = Some(goal);
        proof {
            assert(self@.steps =~= old(self)@.steps);
        }
    }

    /// Appends a step, enforcing at insertion that each of its premise
    /// indices is strictly less than the new step's index; a violating step
    /// is rejected with a proof verification error and nothing changes.
    pub fn add_step(&mut self, step: ProofStep) -> (r: Result<usize, Error>)
        ensures
            r matches Ok(idx) ==> idx == old(self)@.steps.len() && final(self)@.steps == old(
                self,
            )@.steps.push(step@) && final(self)@.goal == old(self)@.goal,
            r is Ok <==> forall|x: int|
                0 <= x < step@.premises.len() ==> (step@.premises[x] as int) < old(
                    self,
                )@.steps.len(),
            r is Err ==> r == Err::<usize, Error>(Error::ProofVerificationError) && final(self)@
                == old(self)@,
            old(self).wf() && r is Ok ==> final(self).wf(),
    {
        let ghost stepv = step@;
        let here = self.steps.len();
        let n = step.premises.len();
        for x in 0..n
            invariant
                n == stepv.premises.len(),
                stepv == step@,
                here == self@.steps.len(),
                forall|y: int| 0 <= y < x ==> (stepv.premises[y] as int) < here,
            decreases n - x,
        {
            if step.premises[x] >= here {
                proof {
                    assert((stepv.premises[x as int] as int) >= here);
                }
                return Err(Error::ProofVerificationError);
            }
        }
        proof {
            assert(forall|y: int| 0 <= y < stepv.premises.len() ==> (stepv.premises[y] as int) < here);
        }
        self.steps.push(step);
        proof {
            assert(self@.steps =~= old(self)@.steps.push(stepv));
            if old(self).wf() {
                assert forall|i: int, x: int|
                    #![trigger self@.steps[i].premises[x]]
                    0 <= i < self@.steps.len() && 0 <= x < self@.steps[i].premises.len() implies (
                self@.steps[i].premises[x] as int) < i by {
                    if i < old(self)@.steps.len() {
                        assert(self@.steps[i] == old(self)@.steps[i]);
                    } else {
                        assert(self@.steps[i] == stepv);
                    }
                }
            }
        }
        Ok(here)
    }
}

impl Proof {
    /// Evaluates the proof: with a goal set, whether some step's conclusion
    /// is equivalent to the goal (under a bijective renaming of quantified variables); with no goal,
    /// whether the proof has any steps at all. Structural validity — every
    /// premise index strictly below its step — is enforced when steps are
    /// inserted, so evaluation never mutates anything and can be re-run
    /// after further derivations.
    pub fn is_valid(&self) -> (r: Result<bool, Error>)
        requires
            self.wf(),
        ensures
            r is Ok,
            r == Ok::<bool, Error>(true) <==> (match self@.goal {
                Some(g) => exists|i: int|
                    0 <= i < self@.steps.len() && spec_equivalent(
                        (#[trigger] self@.steps[i]).conclusion,
                        g,
                    ),
                None => self@.steps.len() > 0,
            }),
    {
        match &self.goal {
            None => Ok(self.steps.len() > 0),
            Some(g) => {
                let n = self.steps.len();
                for i in 0..n
                    invariant
                        n == self@.steps.len(),
                        self@.goal matches Some(gv) && gv == g@,
                        forall|j: int|
                            0 <= j < i ==> !spec_equivalent(
                                (#[trigger] self@.steps[j]).conclusion,
                                g@,
                            ),
                    decreases n - i,
                {
                    let hit = formulas_equivalent(&self.steps[i].conclusion, g);
                    if hit {
                        proof {
                            assert(spec_equivalent(self@.steps[i as int].conclusion, g@));
                        }
                        return Ok(true);
                    }
                }
                Ok(false)
            },
        }
    }
}

impl Default for Proof {
    fn default() -> (r: Proof)
        ensures
            r.wf(),
            r@.steps == Seq::<SpecStep>::empty(),
            r@.goal is None,
    {
        Proof::new()
    }
}

/// Acyclicity, stated on its own: in a well-formed proof every premise
/// index of step `i` is strictly less than `i`. Every proof that the engine
/// produces is well-formed, so each of its steps depends only on strictly
/// earlier steps.
pub proof fn lemma_proof_acyclic(p: &Proof, i: int, x: int)
    requires
        p.wf(),
        0 <= i < p@.steps.len(),
        0 <= x < p@.steps[i].premises.len(),
    ensures
        (p@.steps[i].premises[x] as int) < i,
{
}

} // verus!
