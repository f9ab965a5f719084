//! Unification engine.
//!
//! A substitution maps variable names to terms. Unifying a premise term
//! against a candidate term either fails or extends the substitution: a
//! variable binds to any term (consistently with an existing binding), and
//! two non-variable terms unify exactly when they are structurally equal;
//! nested formulas are treated opaquely.
//!
//! Matching a premise formula against a candidate formula is a backtracking
//! search for an injective assignment of premise statements to candidate
//! statements under one shared substitution. The search relation
//! [`spec_search`] is the mathematical account; the executable search is
//! proved sound (a returned substitution satisfies the relation) and
//! complete (a "no match" answer means no substitution satisfies it). The
//! search policy is fixed for reproducibility — premise statements in
//! stored order, candidate statements tried in stored order — and
//! [`first_match`] names the substitution that policy finds, so callers'
//! results are pinned exactly. This is a deliberate choice: reordering
//! premise statements most-constrained-first would prune failing branches
//! earlier, but it is only a performance heuristic, it changes which
//! substitution comes first, and the contracts here pin the stored order
//! instead.
//!
//! The same search shape, with variable bindings restricted to injective,
//! quantifier-kind-preserving variable-to-variable renamings
//! ([`alpha_search`]), decides formula equivalence.

use vstd::prelude::*;

use crate::model::{Formula, SpecFormula, SpecStatement, SpecTerm, Statement, Term};
use crate::model::{formula_view, stmt_view, stmts_view, term_view};
use crate::model::{lemma_stmts_view, term_dup, term_eq};

verus! {

/// A variable substitution: a finite map from variable names to terms.
pub struct Substitution {
    bindings: Vec<(String, Term)>,
}

pub open spec fn bindings_map(b: Seq<(String, Term)>) -> Map<Seq<char>, SpecTerm>
    decreases b,
{
    if b.len() == 0 {
        Map::empty()
    } else {
        bindings_map(b.subrange(0, b.len() - 1)).insert(
            b[b.len() - 1].0@,
            term_view(b[b.len() - 1].1),
        )
    }
}

pub open spec fn distinct_keys(b: Seq<(String, Term)>) -> bool {
    forall|i: int, j: int| 0 <= i < j < b.len() ==> b[i].0@ != b[j].0@
}

impl View for Substitution {
    type V = Map<Seq<char>, SpecTerm>;

    closed spec fn view(&self) -> Map<Seq<char>, SpecTerm> {
        bindings_map(self.bindings@)
    }
}

proof fn lemma_bindings_map(b: Seq<(String, Term)>)
    requires
        distinct_keys(b),
    ensures
        forall|x: Seq<char>|
            bindings_map(b).contains_key(x) <==> exists|i: int| 0 <= i < b.len() && b[i].0@ == x,
        forall|i: int|
            0 <= i < b.len() ==> bindings_map(b)[(#[trigger] b[i]).0@] == term_view(b[i].1),
    decreases b.len(),
{
    if b.len() > 0 {
        let rest = b.subrange(0, b.len() - 1);
        assert(distinct_keys(rest)) by {
            assert forall|i: int, j: int| 0 <= i < j < rest.len() implies rest[i].0@
                != rest[j].0@ by {
                assert(rest[i] == b[i] && rest[j] == b[j]);
            }
        }
        lemma_bindings_map(rest);
        assert forall|x: Seq<char>| bindings_map(b).contains_key(x) implies exists|i: int|
            0 <= i < b.len() && b[i].0@ == x by {
            if x != b[b.len() - 1].0@ {
                let i = choose|i: int| 0 <= i < rest.len() && rest[i].0@ == x;
                assert(b[i].0@ == x);
            }
        }
        assert forall|x: Seq<char>| (exists|i: int| 0 <= i < b.len() && b[i].0@ == x) implies
            bindings_map(b).contains_key(x) by {
            let i = choose|i: int| 0 <= i < b.len() && b[i].0@ == x;
            if i < b.len() - 1 {
                assert(rest[i].0@ == x);
            }
        }
        assert forall|i: int| 0 <= i < b.len() implies bindings_map(b)[(#[trigger] b[i]).0@]
            == term_view(b[i].1) by {
            if i < b.len() - 1 {
                assert(rest[i] == b[i]);
                assert(b[i].0@ != b[b.len() - 1].0@);
            }
        }
    }
}

impl Substitution {
    /// Whether the internal binding list is in normal form (distinct keys).
    pub closed spec fn wf(&self) -> bool {
        distinct_keys(self.bindings@)
    }

    /// The empty substitution.
    pub fn new() -> (r: Substitution)
        ensures
            r.wf(),
            r@ == Map::<Seq<char>, SpecTerm>::empty(),
    {
        Substitution { bindings: Vec::new() }
    }

    /// Looks up the binding of the variable named `v`, if any.
    pub fn get(&self, v: &String) -> (r: Option<&Term>)
        requires
            self.wf(),
        ensures
            match r {
                Some(t) => self@.contains_key(v@) && t@ == self@[v@],
                None => !self@.contains_key(v@),
            },
    {
        proof {
            lemma_bindings_map(self.bindings@);
        }
        let n = self.bindings.len();
        for i in 0..n
            invariant
                n == self.bindings@.len(),
                self.wf(),
                forall|j: int| 0 <= j < i ==> self.bindings@[j].0@ != v@,
            decreases n - i,
        {
            if self.bindings[i].0 == *v {
                proof {
                    lemma_bindings_map(self.bindings@);
                }
                return Some(&self.bindings[i].1);
            }
        }
        proof {
            lemma_bindings_map(self.bindings@);
        }
        None
    }

    /// A copy of this substitution with the same view.
    pub fn duplicate(&self) -> (r: Substitution)
        requires
            self.wf(),
        ensures
            r.wf(),
            r@ == self@,
    {
        let mut bindings: Vec<(String, Term)> = Vec::new();
        let n = self.bindings.len();
        for i in 0..n
            invariant
                n == self.bindings@.len(),
                bindings@.len() == i,
                forall|j: int|
                    0 <= j < i ==> (#[trigger] bindings@[j]).0@ == self.bindings@[j].0@
                        && term_view(bindings@[j].1) == term_view(self.bindings@[j].1),
            decreases n - i,
        {
            let key = self.bindings[i].0.clone();
            let value = term_dup(&self.bindings[i].1);
            bindings.push((key, value));
        }
        let r = Substitution { bindings };
        proof {
            lemma_bindings_congruence(r.bindings@, self.bindings@);
        }
        r
    }

    /// This substitution extended with a binding of `v` to `t`.
    pub fn bind(&self, v: &String, t: &Term) -> (r: Substitution)
        requires
            self.wf(),
            !self@.contains_key(v@),
        ensures
            r.wf(),
            r@ == self@.insert(v@, t@),
    {
        proof {
            lemma_bindings_map(self.bindings@);
        }
        let mut r = self.duplicate();
        let ghost before = r.bindings@;
        proof {
            lemma_bindings_map(before);
        }
        r.bindings.push((v.clone(), term_dup(t)));
        proof {
            assert(r.bindings@.subrange(0, r.bindings@.len() - 1) =~= before);
            assert forall|i: int, j: int| 0 <= i < j < r.bindings@.len() implies r.bindings@[i].0@
                != r.bindings@[j].0@ by {
                if j == r.bindings@.len() - 1 {
                    assert(bindings_map(before).contains_key(before[i].0@));
                }
            }
        }
        r
    }

    /// Whether some bound variable's image is the term `t`.
    pub fn maps_to(&self, t: &Term) -> (r: bool)
        requires
            self.wf(),
        ensures
            r == in_range(self@, t@),
    {
        proof {
            lemma_bindings_map(self.bindings@);
        }
        let n = self.bindings.len();
        for i in 0..n
            invariant
                n == self.bindings@.len(),
                self.wf(),
                forall|j: int| 0 <= j < i ==> term_view(self.bindings@[j].1) != t@,
            decreases n - i,
        {
            let hit = term_eq(&self.bindings[i].1, t);
            if hit {
                proof {
                    lemma_bindings_map(self.bindings@);
                    assert(self@.contains_key(self.bindings@[i as int].0@));
                    assert(self@[self.bindings@[i as int].0@] == t@);
                }
                return true;
            }
        }
        proof {
            lemma_bindings_map(self.bindings@);
            if in_range(self@, t@) {
                let v = choose|v: Seq<char>|
                    #![trigger self@[v]]
                    self@.contains_key(v) && self@[v] == t@;
                let i = choose|i: int| 0 <= i < self.bindings@.len() && self.bindings@[i].0@ == v;
                assert(term_view(self.bindings@[i].1) == t@);
            }
        }
        false
    }
}

/// Whether `u` is the image of some bound variable.
pub open spec fn in_range(s: Map<Seq<char>, SpecTerm>, u: SpecTerm) -> bool {
    exists|v: Seq<char>| #![trigger s[v]] s.contains_key(v) && s[v] == u
}

proof fn lemma_bindings_congruence(a: Seq<(String, Term)>, b: Seq<(String, Term)>)
    requires
        a.len() == b.len(),
        forall|i: int|
            0 <= i < a.len() ==> (#[trigger] a[i]).0@ == b[i].0@ && term_view(a[i].1) == term_view(
                b[i].1,
            ),
    ensures
        bindings_map(a) == bindings_map(b),
        distinct_keys(a) == distinct_keys(b),
    decreases a.len(),
{
    if a.len() > 0 {
        let ar = a.subrange(0, a.len() - 1);
        let br = b.subrange(0, b.len() - 1);
        assert forall|i: int| 0 <= i < ar.len() implies (#[trigger] ar[i]).0@ == br[i].0@
            && term_view(ar[i].1) == term_view(br[i].1) by {
            assert(ar[i] == a[i] && br[i] == b[i]);
        }
        lemma_bindings_congruence(ar, br);
    }
    if distinct_keys(a) {
        assert forall|i: int, j: int| 0 <= i < j < b.len() implies b[i].0@ != b[j].0@ by {
            assert(a[i].0@ != a[j].0@);
        }
    }
    if distinct_keys(b) {
        assert forall|i: int, j: int| 0 <= i < j < a.len() implies a[i].0@ != a[j].0@ by {
            assert(b[i].0@ != b[j].0@);
        }
    }
}

/// One step of term unification: a premise variable binds to the candidate
/// term (consistently with an existing binding); any other premise term must
/// be structurally equal to the candidate.
pub open spec fn spec_unify_term(t: SpecTerm, u: SpecTerm, s: Map<Seq<char>, SpecTerm>) -> Option<
    Map<Seq<char>, SpecTerm>,
> {
    match t {
        SpecTerm::Var(v) => if s.contains_key(v) {
            if s[v] == u {
                Some(s)
            } else {
                None
            }
        } else {
            Some(s.insert(v, u))
        },
        _ => if t == u {
            Some(s)
        } else {
            None
        },
    }
}

/// Unification of two statements position by position, threading the
/// substitution through subject, predicate and object.
pub open spec fn spec_unify_stmt(
    p: SpecStatement,
    c: SpecStatement,
    s: Map<Seq<char>, SpecTerm>,
) -> Option<Map<Seq<char>, SpecTerm>> {
    match spec_unify_term(p.subject, c.subject, s) {
        None => None,
        Some(s1) => match spec_unify_term(p.predicate, c.predicate, s1) {
            None => None,
            Some(s2) => spec_unify_term(p.object, c.object, s2),
        },
    }
}

/// Unifies premise term `t` with candidate term `u` under `s`.
pub fn unify_term(t: &Term, u: &Term, s: &Substitution) -> (r: Option<Substitution>)
    requires
        s.wf(),
    ensures
        r is Some <==> spec_unify_term(t@, u@, s@) is Some,
        r matches Some(rs) ==> rs.wf() && rs@ == spec_unify_term(t@, u@, s@)->Some_0,
{
    match t {
        Term::Variable(v) => {
            match s.get(v) {
                Some(bound) => {
                    let same = term_eq(bound, u);
                    if same {
                        Some(s.duplicate())
                    } else {
                        None
                    }
                },
                None => Some(s.bind(v, u)),
            }
        },
        _ => {
            let same = term_eq(t, u);
            if same {
                Some(s.duplicate())
            } else {
                None
            }
        },
    }
}

/// Unifies premise statement `p` with candidate statement `c` under `s`.
pub fn unify_statement(p: &Statement, c: &Statement, s: &Substitution) -> (r: Option<Substitution>)
    requires
        s.wf(),
    ensures
        r is Some <==> spec_unify_stmt(p@, c@, s@) is Some,
        r matches Some(rs) ==> rs.wf() && rs@ == spec_unify_stmt(p@, c@, s@)->Some_0,
{
    match unify_term(&p.subject, &c.subject, s) {
        None => None,
        Some(s1) => match unify_term(&p.predicate, &c.predicate, &s1) {
            None => None,
            Some(s2) => unify_term(&p.object, &c.object, &s2),
        },
    }
}

/// Outcome of a matching search: a substitution that completes the match,
/// a definitive failure, or an exhausted search budget.
pub enum MatchOutcome {
    /// The search found a substitution completing the match.
    Found(Substitution),
    /// No substitution completes the match.
    NoMatch,
    /// The search budget ran out before the search finished.
    Exceeded,
}

/// The views of a vector of formulas.
pub open spec fn formulas_view(v: Seq<Formula>) -> Seq<SpecFormula> {
    Seq::new(v.len(), |i: int| formula_view(v[i]))
}

/// The set of indices marked used.
pub open spec fn used_set(u: Seq<bool>) -> Set<int> {
    Set::new(|j: int| 0 <= j < u.len() && u[j])
}

/// The matching relation: from position (`k`, `i`) with `used` candidate
/// statements of premise `k` spoken for and substitution `s` accumulated,
/// the premises `ps` can be matched against the candidates `cs`, ending in
/// the final substitution `sf`. Premise statements are processed in stored
/// order, and each premise's statements map injectively to statements of its
/// own candidate formula.
pub open spec fn spec_search(
    ps: Seq<SpecFormula>,
    cs: Seq<SpecFormula>,
    k: int,
    i: int,
    used: Set<int>,
    s: Map<Seq<char>, SpecTerm>,
    sf: Map<Seq<char>, SpecTerm>,
) -> bool
    decreases ps.len() - k, (if 0 <= k < ps.len() && 0 <= i <= ps[k].statements.len() {
        ps[k].statements.len() - i
    } else {
        0
    }), 1int,
{
    if !(0 <= k <= ps.len() && 0 <= i && ps.len() == cs.len()) {
        false
    } else if k == ps.len() {
        sf == s
    } else if i >= ps[k].statements.len() {
        spec_search(ps, cs, k + 1, 0, Set::empty(), s, sf)
    } else {
        exists|j: int|
            #![trigger used.insert(j)]
            {
                &&& 0 <= j < cs[k].statements.len()
                &&& !used.contains(j)
                &&& spec_unify_stmt(ps[k].statements[i], cs[k].statements[j], s) is Some
                &&& spec_search(
                    ps,
                    cs,
                    k,
                    i + 1,
                    used.insert(j),
                    spec_unify_stmt(ps[k].statements[i], cs[k].statements[j], s)->Some_0,
                    sf,
                )
            }
    }
}

/// One admissible choice at search position (`k`, `i`): candidate statement
/// `j` of premise `k`'s candidate formula is unused, unifies with premise
/// statement `i`, and the rest of the search completes from there.
pub open spec fn choice_ok(
    ps: Seq<SpecFormula>,
    cs: Seq<SpecFormula>,
    k: int,
    i: int,
    used: Set<int>,
    s: Map<Seq<char>, SpecTerm>,
    j: int,
    sf: Map<Seq<char>, SpecTerm>,
) -> bool {
    &&& 0 <= j < cs[k].statements.len()
    &&& !used.contains(j)
    &&& spec_unify_stmt(ps[k].statements[i], cs[k].statements[j], s) is Some
    &&& spec_search(
        ps,
        cs,
        k,
        i + 1,
        used.insert(j),
        spec_unify_stmt(ps[k].statements[i], cs[k].statements[j], s)->Some_0,
        sf,
    )
}

/// An admissible choice at (`k`, `i`) establishes the search relation there.
pub proof fn lemma_choice_to_search(
    ps: Seq<SpecFormula>,
    cs: Seq<SpecFormula>,
    k: int,
    i: int,
    used: Set<int>,
    s: Map<Seq<char>, SpecTerm>,
    j: int,
    sf: Map<Seq<char>, SpecTerm>,
)
    requires
        ps.len() == cs.len(),
        0 <= k < ps.len(),
        0 <= i < ps[k].statements.len(),
        choice_ok(ps, cs, k, i, used, s, j, sf),
    ensures
        spec_search(ps, cs, k, i, used, s, sf),
{
    assert(used.insert(j).contains(j));
    assert(exists|j2: int|
        #![trigger used.insert(j2)]
        {
            &&& 0 <= j2 < cs[k].statements.len()
            &&& !used.contains(j2)
            &&& spec_unify_stmt(ps[k].statements[i], cs[k].statements[j2], s) is Some
            &&& spec_search(
                ps,
                cs,
                k,
                i + 1,
                used.insert(j2),
                spec_unify_stmt(ps[k].statements[i], cs[k].statements[j2], s)->Some_0,
                sf,
            )
        });
}

/// The search relation at (`k`, `i`) with a premise statement left to match
/// yields an admissible choice.
pub proof fn lemma_search_to_choice(
    ps: Seq<SpecFormula>,
    cs: Seq<SpecFormula>,
    k: int,
    i: int,
    used: Set<int>,
    s: Map<Seq<char>, SpecTerm>,
    sf: Map<Seq<char>, SpecTerm>,
)
    requires
        ps.len() == cs.len(),
        0 <= k < ps.len(),
        0 <= i < ps[k].statements.len(),
        spec_search(ps, cs, k, i, used, s, sf),
    ensures
        exists|j: int| #[trigger] choice_ok(ps, cs, k, i, used, s, j, sf),
{
    let j = choose|j2: int|
        #![trigger used.insert(j2)]
        {
            &&& 0 <= j2 < cs[k].statements.len()
            &&& !used.contains(j2)
            &&& spec_unify_stmt(ps[k].statements[i], cs[k].statements[j2], s) is Some
            &&& spec_search(
                ps,
                cs,
                k,
                i + 1,
                used.insert(j2),
                spec_unify_stmt(ps[k].statements[i], cs[k].statements[j2], s)->Some_0,
                sf,
            )
        };
    assert(choice_ok(ps, cs, k, i, used, s, j, sf));
}

/// The substitution that the documented deterministic search policy finds
/// at candidate position `j` onwards: premise statements in stored order,
/// candidate statements tried in stored order, first completion returned.
pub open spec fn first_choice(
    ps: Seq<SpecFormula>,
    cs: Seq<SpecFormula>,
    k: int,
    i: int,
    j: int,
    used: Set<int>,
    s: Map<Seq<char>, SpecTerm>,
) -> Option<Map<Seq<char>, SpecTerm>>
    decreases ps.len() - k, (if 0 <= k < ps.len() && 0 <= i <= ps[k].statements.len() {
        ps[k].statements.len() - i
    } else {
        0
    }), (if 0 <= k < ps.len() && 0 <= j <= cs[k].statements.len() {
        cs[k].statements.len() - j
    } else {
        0
    }),
{
    if !(0 <= k < ps.len() && 0 <= i < ps[k].statements.len() && ps.len() == cs.len() && 0 <= j) {
        None
    } else if j >= cs[k].statements.len() {
        None
    } else if !used.contains(j) && spec_unify_stmt(ps[k].statements[i], cs[k].statements[j], s)
        is Some {
        match first_search(
            ps,
            cs,
            k,
            i + 1,
            used.insert(j),
            spec_unify_stmt(ps[k].statements[i], cs[k].statements[j], s)->Some_0,
        ) {
            Some(sf) => Some(sf),
            None => first_choice(ps, cs, k, i, j + 1, used, s),
        }
    } else {
        first_choice(ps, cs, k, i, j + 1, used, s)
    }
}

/// The substitution that the documented deterministic search policy finds
/// from position (`k`, `i`), or `None` when no substitution completes the
/// match.
pub open spec fn first_search(
    ps: Seq<SpecFormula>,
    cs: Seq<SpecFormula>,
    k: int,
    i: int,
    used: Set<int>,
    s: Map<Seq<char>, SpecTerm>,
) -> Option<Map<Seq<char>, SpecTerm>>
    decreases ps.len() - k, (if 0 <= k < ps.len() && 0 <= i <= ps[k].statements.len() {
        ps[k].statements.len() - i
    } else {
        0
    }), (if 0 <= k < ps.len() {
        cs[k].statements.len() + 1
    } else {
        0
    }),
{
    if !(0 <= k <= ps.len() && 0 <= i && ps.len() == cs.len()) {
        None
    } else if k == ps.len() {
        Some(s)
    } else if i >= ps[k].statements.len() {
        first_search(ps, cs, k + 1, 0, Set::empty(), s)
    } else {
        first_choice(ps, cs, k, i, 0, used, s)
    }
}

/// The substitution found by matching the premises against the candidates
/// under the documented deterministic policy, starting from `s`.
pub open spec fn first_match(
    ps: Seq<SpecFormula>,
    cs: Seq<SpecFormula>,
    s: Map<Seq<char>, SpecTerm>,
) -> Option<Map<Seq<char>, SpecTerm>> {
    first_search(ps, cs, 0, 0, Set::empty(), s)
}

/// The full match of premises against candidates: some final substitution
/// completes the search from the start with nothing used and `s` as the
/// starting substitution.
pub open spec fn spec_match(
    ps: Seq<SpecFormula>,
    cs: Seq<SpecFormula>,
    s: Map<Seq<char>, SpecTerm>,
    sf: Map<Seq<char>, SpecTerm>,
) -> bool {
    spec_search(ps, cs, 0, 0, Set::empty(), s, sf)
}

fn make_falses(n: usize) -> (r: Vec<bool>)
    ensures
        r@.len() == n,
        used_set(r@) == Set::<int>::empty(),
{
    let mut r: Vec<bool> = Vec::new();
    for i in 0..n
        invariant
            r@.len() == i,
            forall|j: int| 0 <= j < i ==> !r@[j],
        decreases n - i,
    {
        r.push(false);
    }
    proof {
        assert(used_set(r@) =~= Set::<int>::empty());
    }
    r
}

fn mark_used(used: &Vec<bool>, j: usize) -> (r: Vec<bool>)
    requires
        j < used@.len(),
    ensures
        r@.len() == used@.len(),
        used_set(r@) == used_set(used@).insert(j as int),
{
    let mut r: Vec<bool> = Vec::new();
    let n = used.len();
    for i in 0..n
        invariant
            n == used@.len(),
            r@.len() == i,
            forall|x: int| 0 <= x < i ==> r@[x] == used@[x],
        decreases n - i,
    {
        r.push(used[i]);
    }
    r.set(j, true);
    proof {
        assert(used_set(r@) =~= used_set(used@).insert(j as int));
    }
    r
}

/// The backtracking search behind rule matching.
///
/// Sound: a `Found` answer satisfies [`spec_search`]. Complete: a `NoMatch`
/// answer means no substitution satisfies it. When `has_budget` is set, each
/// visited search node consumes one unit of `fuel`, and an exhausted budget
/// yields `Exceeded` instead of an answer.
fn search(
    ps: &Vec<Formula>,
    cs: &Vec<Formula>,
    k: usize,
    i: usize,
    used: &Vec<bool>,
    s: &Substitution,
    has_budget: bool,
    fuel: &mut u64,
) -> (r: MatchOutcome)
    requires
        ps@.len() == cs@.len(),
        k <= ps@.len(),
        k < ps@.len() ==> i <= ps@[k as int].statements@.len(),
        k < ps@.len() ==> used@.len() == cs@[k as int].statements@.len(),
        s.wf(),
    ensures
        r matches MatchOutcome::Found(sf) ==> sf.wf() && spec_search(
            formulas_view(ps@),
            formulas_view(cs@),
            k as int,
            i as int,
            used_set(used@),
            s@,
            sf@,
        ),
        r is NoMatch ==> forall|sf: Map<Seq<char>, SpecTerm>|
            !spec_search(
                formulas_view(ps@),
                formulas_view(cs@),
                k as int,
                i as int,
                used_set(used@),
                s@,
                sf,
            ),
        !has_budget ==> !(r is Exceeded),
        !has_budget ==> (match r {
            MatchOutcome::Found(sf) => first_search(
                formulas_view(ps@),
                formulas_view(cs@),
                k as int,
                i as int,
                used_set(used@),
                s@,
            ) == Some(sf@),
            MatchOutcome::NoMatch => first_search(
                formulas_view(ps@),
                formulas_view(cs@),
                k as int,
                i as int,
                used_set(used@),
                s@,
            ) is None,
            MatchOutcome::Exceeded => true,
        }),
    decreases ps@.len() - k, (if (k as int) < ps@.len() {
        ps@[k as int].statements@.len() - i
    } else {
        0int
    }),
{
    let ghost psv = formulas_view(ps@);
    let ghost csv = formulas_view(cs@);
    if has_budget {
        if *fuel == 0 {
            return MatchOutcome::Exceeded;
        }
        *fuel = *fuel - 1;
    }
    if k == ps.len() {
        let sf = s.duplicate();
        proof {
            assert(first_search(psv, csv, k as int, i as int, used_set(used@), s@) == Some(s@));
        }
        return MatchOutcome::Found(sf);
    }
    proof {
        lemma_stmts_view(ps@[k as int].statements@);
        lemma_stmts_view(cs@[k as int].statements@);
    }
    if i == ps[k].statements.len() {
        let next_len = if k + 1 < cs.len() {
            cs[k + 1].statements.len()
        } else {
            0
        };
        let next_used = make_falses(next_len);
        let r = search(ps, cs, k + 1, 0, &next_used, s, has_budget, fuel);
        proof {
            if (k + 1) as int <= psv.len() {
                assert(forall|sf: Map<Seq<char>, SpecTerm>|
                    spec_search(psv, csv, k as int, i as int, used_set(used@), s@, sf)
                        == spec_search(psv, csv, k as int + 1, 0, Set::empty(), s@, sf));
            }
            assert(first_search(psv, csv, k as int, i as int, used_set(used@), s@) == first_search(
                psv,
                csv,
                k as int + 1,
                0,
                Set::empty(),
                s@,
            ));
        }
        return r;
    }
    let m = cs[k].statements.len();
    let plen = ps[k].statements.len();
    let mut complete = true;
    for j in 0..m
        invariant
            ps@.len() == cs@.len(),
            psv == formulas_view(ps@),
            csv == formulas_view(cs@),
            k < ps@.len(),
            plen == ps@[k as int].statements@.len(),
            i < plen,
            used@.len() == cs@[k as int].statements@.len(),
            m == cs@[k as int].statements@.len(),
            s.wf(),
            !has_budget ==> complete,
            !has_budget ==> first_choice(psv, csv, k as int, i as int, 0, used_set(used@), s@)
                == first_choice(psv, csv, k as int, i as int, j as int, used_set(used@), s@),
            complete ==> forall|sf: Map<Seq<char>, SpecTerm>, j2: int|
                0 <= j2 < j ==> !choice_ok(
                    psv,
                    csv,
                    k as int,
                    i as int,
                    used_set(used@),
                    s@,
                    j2,
                    sf,
                ),
        decreases m - j,
    {
        proof {
            lemma_stmts_view(ps@[k as int].statements@);
            lemma_stmts_view(cs@[k as int].statements@);
            assert(psv[k as int] == formula_view(ps@[k as int]));
            assert(csv[k as int] == formula_view(cs@[k as int]));
            assert(psv[k as int].statements.len() == plen);
            assert(csv[k as int].statements.len() == m);
        }
        if !used[j] {
            let attempt = unify_statement(&ps[k].statements[i], &cs[k].statements[j], s);
            match attempt {
                Some(s2) => {
                    let used2 = mark_used(used, j);
                    let child = search(ps, cs, k, i + 1, &used2, &s2, has_budget, fuel);
                    match child {
                        MatchOutcome::Found(sf) => {
                            proof {
                                lemma_stmts_view(ps@[k as int].statements@);
                                lemma_stmts_view(cs@[k as int].statements@);
                                assert(psv[k as int] == formula_view(ps@[k as int]));
                                assert(csv[k as int] == formula_view(cs@[k as int]));
                                assert(psv[k as int].statements.len() == plen);
                                assert(csv[k as int].statements.len() == m);
                                assert(choice_ok(
                                    psv,
                                    csv,
                                    k as int,
                                    i as int,
                                    used_set(used@),
                                    s@,
                                    j as int,
                                    sf@,
                                ));
                                lemma_choice_to_search(
                                    psv,
                                    csv,
                                    k as int,
                                    i as int,
                                    used_set(used@),
                                    s@,
                                    j as int,
                                    sf@,
                                );
                                if !has_budget {
                                    assert(first_choice(
                                        psv,
                                        csv,
                                        k as int,
                                        i as int,
                                        j as int,
                                        used_set(used@),
                                        s@,
                                    ) == Some(sf@));
                                    assert(first_search(
                                        psv,
                                        csv,
                                        k as int,
                                        i as int,
                                        used_set(used@),
                                        s@,
                                    ) == Some(sf@));
                                }
                            }
                            return MatchOutcome::Found(sf);
                        },
                        MatchOutcome::NoMatch => {
                            proof {
                                if !has_budget {
                                    assert(first_choice(
                                        psv,
                                        csv,
                                        k as int,
                                        i as int,
                                        j as int,
                                        used_set(used@),
                                        s@,
                                    ) == first_choice(
                                        psv,
                                        csv,
                                        k as int,
                                        i as int,
                                        j as int + 1,
                                        used_set(used@),
                                        s@,
                                    ));
                                }
                                assert forall|sf: Map<Seq<char>, SpecTerm>| !choice_ok(
                                    psv,
                                    csv,
                                    k as int,
                                    i as int,
                                    used_set(used@),
                                    s@,
                                    j as int,
                                    sf,
                                ) by {
                                    assert(!spec_search(
                                        psv,
                                        csv,
                                        k as int,
                                        (i + 1) as int,
                                        used_set(used2@),
                                        s2@,
                                        sf,
                                    ));
                                }
                            }
                        },
                        MatchOutcome::Exceeded => {
                            complete = false;
                        },
                    }
                },
                None => {
                    proof {
                        assert(first_choice(psv, csv, k as int, i as int, j as int, used_set(used@), s@)
                            == first_choice(
                            psv,
                            csv,
                            k as int,
                            i as int,
                            j as int + 1,
                            used_set(used@),
                            s@,
                        ));
                    }
                },
            }
        } else {
            proof {
                assert(used_set(used@).contains(j as int));
                assert(first_choice(psv, csv, k as int, i as int, j as int, used_set(used@), s@)
                    == first_choice(psv, csv, k as int, i as int, j as int + 1, used_set(used@), s@));
            }
        }
    }
    if complete {
        proof {
            lemma_stmts_view(ps@[k as int].statements@);
            lemma_stmts_view(cs@[k as int].statements@);
            assert(psv[k as int] == formula_view(ps@[k as int]));
            assert(csv[k as int] == formula_view(cs@[k as int]));
            assert(psv[k as int].statements.len() == plen);
            assert(csv[k as int].statements.len() == m);
            assert(psv.len() == csv.len());
            assert forall|sf: Map<Seq<char>, SpecTerm>| !spec_search(
                psv,
                csv,
                k as int,
                i as int,
                used_set(used@),
                s@,
                sf,
            ) by {
                if spec_search(psv, csv, k as int, i as int, used_set(used@), s@, sf) {
                    lemma_search_to_choice(
                        psv,
                        csv,
                        k as int,
                        i as int,
                        used_set(used@),
                        s@,
                        sf,
                    );
                    let jw = choose|j2: int|
                        #[trigger] choice_ok(
                            psv,
                            csv,
                            k as int,
                            i as int,
                            used_set(used@),
                            s@,
                            j2,
                            sf,
                        );
                    assert(!choice_ok(psv, csv, k as int, i as int, used_set(used@), s@, jw, sf));
                }
            }
            if !has_budget {
                assert(first_choice(psv, csv, k as int, i as int, m as int, used_set(used@), s@)
                    is None);
                assert(first_search(psv, csv, k as int, i as int, used_set(used@), s@) is None);
            }
        }
        MatchOutcome::NoMatch
    } else {
        MatchOutcome::Exceeded
    }
}

/// Matches the premise formulas `ps` against the candidate formulas `cs`,
/// one candidate per premise, starting from substitution `s`, with no
/// budget: the answer is always definitive.
pub fn match_premises(ps: &Vec<Formula>, cs: &Vec<Formula>, s: &Substitution) -> (r: MatchOutcome)
    requires
        ps@.len() == cs@.len(),
        s.wf(),
    ensures
        r matches MatchOutcome::Found(sf) ==> sf.wf() && spec_match(
            formulas_view(ps@),
            formulas_view(cs@),
            s@,
            sf@,
        ),
        r is NoMatch ==> forall|sf: Map<Seq<char>, SpecTerm>|
            !spec_match(formulas_view(ps@), formulas_view(cs@), s@, sf),
        !(r is Exceeded),
        r matches MatchOutcome::Found(sf) ==> first_match(
            formulas_view(ps@),
            formulas_view(cs@),
            s@,
        ) == Some(sf@),
        r is NoMatch ==> first_match(formulas_view(ps@), formulas_view(cs@), s@) is None,
{
    let first_len = if ps.len() > 0 {
        cs[0].statements.len()
    } else {
        0
    };
    let used = make_falses(first_len);
    let mut fuel: u64 = 0;
    proof {
        lemma_stmts_view(if ps@.len() > 0 { cs@[0].statements@ } else { Seq::empty() });
    }
    search(ps, cs, 0, 0, &used, s, false, &mut fuel)
}

/// Like [`match_premises`], but each visited search node consumes one unit
/// of `budget`; when the budget runs out the search stops with `Exceeded`,
/// which is distinguishable from a definitive `NoMatch`.
pub fn match_premises_with_budget(
    ps: &Vec<Formula>,
    cs: &Vec<Formula>,
    s: &Substitution,
    budget: u64,
) -> (r: MatchOutcome)
    requires
        ps@.len() == cs@.len(),
        s.wf(),
    ensures
        r matches MatchOutcome::Found(sf) ==> sf.wf() && spec_match(
            formulas_view(ps@),
            formulas_view(cs@),
            s@,
            sf@,
        ),
        r is NoMatch ==> forall|sf: Map<Seq<char>, SpecTerm>|
            !spec_match(formulas_view(ps@), formulas_view(cs@), s@, sf),
{
    let first_len = if ps.len() > 0 {
        cs[0].statements.len()
    } else {
        0
    };
    let used = make_falses(first_len);
    let mut fuel: u64 = budget;
    search(ps, cs, 0, 0, &used, s, true, &mut fuel)
}

/// Applies a substitution to a term: a bound variable is replaced by its
/// image; every other term, nested formulas included, is left unchanged.
pub open spec fn subst_term(s: Map<Seq<char>, SpecTerm>, t: SpecTerm) -> SpecTerm {
    match t {
        SpecTerm::Var(v) => if s.contains_key(v) {
            s[v]
        } else {
            t
        },
        _ => t,
    }
}

pub open spec fn subst_stmt(s: Map<Seq<char>, SpecTerm>, st: SpecStatement) -> SpecStatement {
    SpecStatement {
        subject: subst_term(s, st.subject),
        predicate: subst_term(s, st.predicate),
        object: subst_term(s, st.object),
    }
}

pub open spec fn subst_stmts(s: Map<Seq<char>, SpecTerm>, sts: Seq<SpecStatement>) -> Seq<
    SpecStatement,
> {
    Seq::new(sts.len(), |idx: int| subst_stmt(s, sts[idx]))
}

/// Applies the substitution to one term.
pub fn subst_apply_term(s: &Substitution, t: &Term) -> (r: Term)
    requires
        s.wf(),
    ensures
        r@ == subst_term(s@, t@),
{
    match t {
        Term::Variable(v) => {
            match s.get(v) {
                Some(bound) => term_dup(bound),
                None => Term::Variable(v.clone()),
            }
        },
        _ => term_dup(t),
    }
}

/// Applies the substitution to each position of one statement.
pub fn subst_apply_statement(s: &Substitution, st: &Statement) -> (r: Statement)
    requires
        s.wf(),
    ensures
        r@ == subst_stmt(s@, st@),
{
    Statement {
        subject: subst_apply_term(s, &st.subject),
        predicate: subst_apply_term(s, &st.predicate),
        object: subst_apply_term(s, &st.object),
    }
}

/// One step of renaming unification, for the equivalence test: a variable
/// of the left formula that its formula quantifies maps to a variable of
/// the right formula of the same quantifier kind, consistently with the
/// renaming built so far and injectively (no right variable is the image
/// of two left variables); an unquantified variable and every other term
/// must be structurally equal on both sides. `au`/`ae` are the left
/// formula's universal and existential name sets, `bu`/`be` the right's.
pub open spec fn alpha_unify_term(
    t: SpecTerm,
    u: SpecTerm,
    s: Map<Seq<char>, SpecTerm>,
    au: Set<Seq<char>>,
    ae: Set<Seq<char>>,
    bu: Set<Seq<char>>,
    be: Set<Seq<char>>,
) -> Option<Map<Seq<char>, SpecTerm>> {
    match t {
        SpecTerm::Var(v) => if !(au.contains(v) || ae.contains(v)) {
            if t == u {
                Some(s)
            } else {
                None
            }
        } else if s.contains_key(v) {
            if s[v] == u {
                Some(s)
            } else {
                None
            }
        } else if in_range(s, u) {
            None
        } else {
            match u {
                SpecTerm::Var(w) => if au.contains(v) == bu.contains(w) && ae.contains(v)
                    == be.contains(w) && (bu.contains(w) || be.contains(w)) {
                    Some(s.insert(v, u))
                } else {
                    None
                },
                _ => None,
            }
        },
        _ => if t == u {
            Some(s)
        } else {
            None
        },
    }
}

/// Renaming unification of two statements, position by position.
pub open spec fn alpha_unify_stmt(
    p: SpecStatement,
    c: SpecStatement,
    s: Map<Seq<char>, SpecTerm>,
    au: Set<Seq<char>>,
    ae: Set<Seq<char>>,
    bu: Set<Seq<char>>,
    be: Set<Seq<char>>,
) -> Option<Map<Seq<char>, SpecTerm>> {
    match alpha_unify_term(p.subject, c.subject, s, au, ae, bu, be) {
        None => None,
        Some(s1) => match alpha_unify_term(p.predicate, c.predicate, s1, au, ae, bu, be) {
            None => None,
            Some(s2) => alpha_unify_term(p.object, c.object, s2, au, ae, bu, be),
        },
    }
}

fn alpha_unify_term_exec(
    t: &Term,
    u: &Term,
    s: &Substitution,
    au: &Vec<String>,
    ae: &Vec<String>,
    bu: &Vec<String>,
    be: &Vec<String>,
) -> (r: Option<Substitution>)
    requires
        s.wf(),
    ensures
        r is Some <==> alpha_unify_term(
            t@,
            u@,
            s@,
            crate::model::names_view(au@),
            crate::model::names_view(ae@),
            crate::model::names_view(bu@),
            crate::model::names_view(be@),
        ) is Some,
        r matches Some(rs) ==> rs.wf() && rs@ == alpha_unify_term(
            t@,
            u@,
            s@,
            crate::model::names_view(au@),
            crate::model::names_view(ae@),
            crate::model::names_view(bu@),
            crate::model::names_view(be@),
        )->Some_0,
{
    match t {
        Term::Variable(v) => {
            let in_au = crate::model::contains_name(au, v);
            let in_ae = crate::model::contains_name(ae, v);
            if !(in_au || in_ae) {
                let same = term_eq(t, u);
                if same {
                    Some(s.duplicate())
                } else {
                    None
                }
            } else {
                match s.get(v) {
                    Some(bound) => {
                        let same = term_eq(bound, u);
                        if same {
                            Some(s.duplicate())
                        } else {
                            None
                        }
                    },
                    None => {
                        let taken = s.maps_to(u);
                        if taken {
                            None
                        } else {
                            match u {
                                Term::Variable(w) => {
                                    let in_bu = crate::model::contains_name(bu, w);
                                    let in_be = crate::model::contains_name(be, w);
                                    if in_au == in_bu && in_ae == in_be && (in_bu || in_be) {
                                        Some(s.bind(v, u))
                                    } else {
                                        None
                                    }
                                },
                                _ => None,
                            }
                        }
                    },
                }
            }
        },
        _ => {
            let same = term_eq(t, u);
            if same {
                Some(s.duplicate())
            } else {
                None
            }
        },
    }
}

fn alpha_unify_statement(
    p: &Statement,
    c: &Statement,
    s: &Substitution,
    au: &Vec<String>,
    ae: &Vec<String>,
    bu: &Vec<String>,
    be: &Vec<String>,
) -> (r: Option<Substitution>)
    requires
        s.wf(),
    ensures
        r is Some <==> alpha_unify_stmt(
            p@,
            c@,
            s@,
            crate::model::names_view(au@),
            crate::model::names_view(ae@),
            crate::model::names_view(bu@),
            crate::model::names_view(be@),
        ) is Some,
        r matches Some(rs) ==> rs.wf() && rs@ == alpha_unify_stmt(
            p@,
            c@,
            s@,
            crate::model::names_view(au@),
            crate::model::names_view(ae@),
            crate::model::names_view(bu@),
            crate::model::names_view(be@),
        )->Some_0,
{
    match alpha_unify_term_exec(&p.subject, &c.subject, s, au, ae, bu, be) {
        None => None,
        Some(s1) => match alpha_unify_term_exec(&p.predicate, &c.predicate, &s1, au, ae, bu, be) {
            None => None,
            Some(s2) => alpha_unify_term_exec(&p.object, &c.object, &s2, au, ae, bu, be),
        },
    }
}

/// One admissible choice of the renaming search at position `i`: right
/// statement `j` is unused, renaming-unifies with left statement `i`, and
/// the rest of the search completes from there.
pub open spec fn alpha_choice_ok(
    a: Seq<SpecStatement>,
    b: Seq<SpecStatement>,
    i: int,
    used: Set<int>,
    s: Map<Seq<char>, SpecTerm>,
    au: Set<Seq<char>>,
    ae: Set<Seq<char>>,
    bu: Set<Seq<char>>,
    be: Set<Seq<char>>,
    j: int,
    sf: Map<Seq<char>, SpecTerm>,
) -> bool {
    &&& 0 <= j < b.len()
    &&& !used.contains(j)
    &&& alpha_unify_stmt(a[i], b[j], s, au, ae, bu, be) is Some
    &&& alpha_search(
        a,
        b,
        i + 1,
        used.insert(j),
        alpha_unify_stmt(a[i], b[j], s, au, ae, bu, be)->Some_0,
        au,
        ae,
        bu,
        be,
        sf,
    )
}

/// The renaming-search relation: from position `i` with `used` right
/// statements spoken for and renaming `s` accumulated, the remaining left
/// statements map injectively onto unused right statements under one
/// injective, quantifier-kind-preserving renaming, ending in `sf`.
pub open spec fn alpha_search(
    a: Seq<SpecStatement>,
    b: Seq<SpecStatement>,
    i: int,
    used: Set<int>,
    s: Map<Seq<char>, SpecTerm>,
    au: Set<Seq<char>>,
    ae: Set<Seq<char>>,
    bu: Set<Seq<char>>,
    be: Set<Seq<char>>,
    sf: Map<Seq<char>, SpecTerm>,
) -> bool
    decreases a.len() - i,
{
    if !(0 <= i <= a.len()) {
        false
    } else if i == a.len() {
        sf == s
    } else {
        exists|j: int|
            #![trigger used.insert(j)]
            {
                &&& 0 <= j < b.len()
                &&& !used.contains(j)
                &&& alpha_unify_stmt(a[i], b[j], s, au, ae, bu, be) is Some
                &&& alpha_search(
                    a,
                    b,
                    i + 1,
                    used.insert(j),
                    alpha_unify_stmt(a[i], b[j], s, au, ae, bu, be)->Some_0,
                    au,
                    ae,
                    bu,
                    be,
                    sf,
                )
            }
    }
}

/// An admissible choice at `i` establishes the renaming-search relation.
pub proof fn lemma_alpha_choice_to_search(
    a: Seq<SpecStatement>,
    b: Seq<SpecStatement>,
    i: int,
    used: Set<int>,
    s: Map<Seq<char>, SpecTerm>,
    au: Set<Seq<char>>,
    ae: Set<Seq<char>>,
    bu: Set<Seq<char>>,
    be: Set<Seq<char>>,
    j: int,
    sf: Map<Seq<char>, SpecTerm>,
)
    requires
        0 <= i < a.len(),
        alpha_choice_ok(a, b, i, used, s, au, ae, bu, be, j, sf),
    ensures
        alpha_search(a, b, i, used, s, au, ae, bu, be, sf),
{
    assert(used.insert(j).contains(j));
    assert(exists|j2: int|
        #![trigger used.insert(j2)]
        {
            &&& 0 <= j2 < b.len()
            &&& !used.contains(j2)
            &&& alpha_unify_stmt(a[i], b[j2], s, au, ae, bu, be) is Some
            &&& alpha_search(
                a,
                b,
                i + 1,
                used.insert(j2),
                alpha_unify_stmt(a[i], b[j2], s, au, ae, bu, be)->Some_0,
                au,
                ae,
                bu,
                be,
                sf,
            )
        });
}

/// The renaming-search relation at `i` with a left statement remaining
/// yields an admissible choice.
pub proof fn lemma_alpha_search_to_choice(
    a: Seq<SpecStatement>,
    b: Seq<SpecStatement>,
    i: int,
    used: Set<int>,
    s: Map<Seq<char>, SpecTerm>,
    au: Set<Seq<char>>,
    ae: Set<Seq<char>>,
    bu: Set<Seq<char>>,
    be: Set<Seq<char>>,
    sf: Map<Seq<char>, SpecTerm>,
)
    requires
        0 <= i < a.len(),
        alpha_search(a, b, i, used, s, au, ae, bu, be, sf),
    ensures
        exists|j: int| #[trigger] alpha_choice_ok(a, b, i, used, s, au, ae, bu, be, j, sf),
{
    let j = choose|j2: int|
        #![trigger used.insert(j2)]
        {
            &&& 0 <= j2 < b.len()
            &&& !used.contains(j2)
            &&& alpha_unify_stmt(a[i], b[j2], s, au, ae, bu, be) is Some
            &&& alpha_search(
                a,
                b,
                i + 1,
                used.insert(j2),
                alpha_unify_stmt(a[i], b[j2], s, au, ae, bu, be)->Some_0,
                au,
                ae,
                bu,
                be,
                sf,
            )
        };
    assert(alpha_choice_ok(a, b, i, used, s, au, ae, bu, be, j, sf));
}

/// The backtracking renaming search behind the equivalence test. Sound: a
/// returned renaming satisfies [`alpha_search`]; complete: a `None` answer
/// means no renaming satisfies it.
fn alpha_search_exec(
    a: &Vec<Statement>,
    b: &Vec<Statement>,
    i: usize,
    used: &Vec<bool>,
    s: &Substitution,
    au: &Vec<String>,
    ae: &Vec<String>,
    bu: &Vec<String>,
    be: &Vec<String>,
) -> (r: Option<Substitution>)
    requires
        i <= a@.len(),
        used@.len() == b@.len(),
        s.wf(),
    ensures
        r matches Some(sf) ==> sf.wf() && alpha_search(
            stmts_view(a@),
            stmts_view(b@),
            i as int,
            used_set(used@),
            s@,
            crate::model::names_view(au@),
            crate::model::names_view(ae@),
            crate::model::names_view(bu@),
            crate::model::names_view(be@),
            sf@,
        ),
        r is None ==> forall|sf: Map<Seq<char>, SpecTerm>|
            !alpha_search(
                stmts_view(a@),
                stmts_view(b@),
                i as int,
                used_set(used@),
                s@,
                crate::model::names_view(au@),
                crate::model::names_view(ae@),
                crate::model::names_view(bu@),
                crate::model::names_view(be@),
                sf,
            ),
    decreases a@.len() - i,
{
    let ghost av = stmts_view(a@);
    let ghost bv = stmts_view(b@);
    let ghost auv = crate::model::names_view(au@);
    let ghost aev = crate::model::names_view(ae@);
    let ghost buv = crate::model::names_view(bu@);
    let ghost bev = crate::model::names_view(be@);
    proof {
        lemma_stmts_view(a@);
        lemma_stmts_view(b@);
    }
    let alen = a.len();
    if i == alen {
        let sf = s.duplicate();
        return Some(sf);
    }
    let m = b.len();
    for j in 0..m
        invariant
            av == stmts_view(a@),
            bv == stmts_view(b@),
            auv == crate::model::names_view(au@),
            aev == crate::model::names_view(ae@),
            buv == crate::model::names_view(bu@),
            bev == crate::model::names_view(be@),
            alen == a@.len(),
            i < alen,
            av.len() == a@.len(),
            bv.len() == b@.len(),
            used@.len() == b@.len(),
            m == b@.len(),
            s.wf(),
            forall|sf: Map<Seq<char>, SpecTerm>, j2: int|
                0 <= j2 < j ==> !alpha_choice_ok(av, bv, i as int, used_set(used@), s@, auv, aev, buv, bev, j2, sf),
        decreases m - j,
    {
        proof {
            lemma_stmts_view(a@);
            lemma_stmts_view(b@);
        }
        if !used[j] {
            let attempt = alpha_unify_statement(&a[i], &b[j], s, au, ae, bu, be);
            match attempt {
                Some(s2) => {
                    let used2 = mark_used(used, j);
                    let child = alpha_search_exec(a, b, i + 1, &used2, &s2, au, ae, bu, be);
                    match child {
                        Some(sf) => {
                            proof {
                                lemma_stmts_view(a@);
                                lemma_stmts_view(b@);
                                assert(alpha_choice_ok(
                                    av,
                                    bv,
                                    i as int,
                                    used_set(used@),
                                    s@,
                                    auv,
                                    aev,
                                    buv,
                                    bev,
                                    j as int,
                                    sf@,
                                ));
                                lemma_alpha_choice_to_search(
                                    av,
                                    bv,
                                    i as int,
                                    used_set(used@),
                                    s@,
                                    auv,
                                    aev,
                                    buv,
                                    bev,
                                    j as int,
                                    sf@,
                                );
                            }
                            return Some(sf);
                        },
                        None => {
                            proof {
                                assert forall|sf: Map<Seq<char>, SpecTerm>| !alpha_choice_ok(
                                    av,
                                    bv,
                                    i as int,
                                    used_set(used@),
                                    s@,
                                    auv,
                                    aev,
                                    buv,
                                    bev,
                                    j as int,
                                    sf,
                                ) by {
                                    assert(!alpha_search(
                                        av,
                                        bv,
                                        (i + 1) as int,
                                        used_set(used2@),
                                        s2@,
                                        auv,
                                        aev,
                                        buv,
                                        bev,
                                        sf,
                                    ));
                                }
                            }
                        },
                    }
                },
                None => {
                },
            }
        }
    }
    proof {
        lemma_stmts_view(a@);
        lemma_stmts_view(b@);
        assert forall|sf: Map<Seq<char>, SpecTerm>| !alpha_search(
            av,
            bv,
            i as int,
            used_set(used@),
            s@,
            auv,
            aev,
            buv,
            bev,
            sf,
        ) by {
            if alpha_search(av, bv, i as int, used_set(used@), s@, auv, aev, buv, bev, sf) {
                lemma_alpha_search_to_choice(
                    av,
                    bv,
                    i as int,
                    used_set(used@),
                    s@,
                    auv,
                    aev,
                    buv,
                    bev,
                    sf,
                );
                let jw = choose|j2: int|
                    #[trigger] alpha_choice_ok(
                        av,
                        bv,
                        i as int,
                        used_set(used@),
                        s@,
                        auv,
                        aev,
                        buv,
                        bev,
                        j2,
                        sf,
                    );
                assert(!alpha_choice_ok(
                    av,
                    bv,
                    i as int,
                    used_set(used@),
                    s@,
                    auv,
                    aev,
                    buv,
                    bev,
                    jw,
                    sf,
                ));
            }
        }
    }
    None
}

/// The full renaming match: some final renaming completes the search from
/// the start with nothing used and no variables bound.
pub open spec fn alpha_match(
    a: Seq<SpecStatement>,
    b: Seq<SpecStatement>,
    au: Set<Seq<char>>,
    ae: Set<Seq<char>>,
    bu: Set<Seq<char>>,
    be: Set<Seq<char>>,
    sf: Map<Seq<char>, SpecTerm>,
) -> bool {
    alpha_search(a, b, 0, Set::<int>::empty(), Map::<Seq<char>, SpecTerm>::empty(), au, ae, bu, be, sf)
}

/// Runs the renaming search on two statement lists from the start.
pub(crate) fn alpha_match_exec(
    a: &Vec<Statement>,
    b: &Vec<Statement>,
    au: &Vec<String>,
    ae: &Vec<String>,
    bu: &Vec<String>,
    be: &Vec<String>,
) -> (r: Option<Substitution>)
    ensures
        r matches Some(sf) ==> sf.wf() && alpha_match(
            stmts_view(a@),
            stmts_view(b@),
            crate::model::names_view(au@),
            crate::model::names_view(ae@),
            crate::model::names_view(bu@),
            crate::model::names_view(be@),
            sf@,
        ),
        r is None ==> forall|sf: Map<Seq<char>, SpecTerm>|
            !alpha_match(
                stmts_view(a@),
                stmts_view(b@),
                crate::model::names_view(au@),
                crate::model::names_view(ae@),
                crate::model::names_view(bu@),
                crate::model::names_view(be@),
                sf,
            ),
{
    let used = make_falses(b.len());
    let s0 = Substitution::new();
    alpha_search_exec(a, b, 0, &used, &s0, au, ae, bu, be)
}

} // verus!
