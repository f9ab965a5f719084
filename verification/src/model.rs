//! Term, statement and formula model.
//!
//! Terms are the values of N3-style graphs: IRI references, blank nodes,
//! literals, variables, and nested formulas. A statement is a triple of
//! terms, and a formula is an ordered sequence of statements together with
//! the names of its universally and existentially quantified variables.
//!
//! Every executable type has a mathematical view (`SpecTerm`, `SpecStatement`,
//! `SpecFormula`) over which all contracts are stated: strings become
//! sequences of characters, statement vectors become sequences, and the
//! quantifier name lists become sets.

use vstd::prelude::*;
use vstd::string::StringExecFns;

use crate::error::Error;
use oxrdf::Term as OxTerm;

verus! {

/// Mathematical model of a term.
pub enum SpecTerm {
    Iri(Seq<char>),
    Blank(Seq<char>),
    Literal { value: Seq<char>, datatype: Seq<char> },
    Var(Seq<char>),
    Formula(SpecFormula),
}

/// Mathematical model of a statement: a triple of terms.
pub struct SpecStatement {
    pub subject: SpecTerm,
    pub predicate: SpecTerm,
    pub object: SpecTerm,
}

/// Mathematical model of a formula: its statements in order, and the two
/// quantifier name sets.
pub struct SpecFormula {
    pub statements: Seq<SpecStatement>,
    pub universals: Set<Seq<char>>,
    pub existentials: Set<Seq<char>>,
}

/// A term: IRI reference, blank node, literal (value and datatype IRI),
/// variable, or nested formula.
///
/// IRI, blank-node and literal contents are carried as already-resolved
/// plain strings; resolving and validating the concrete lexical forms is the
/// responsibility of the producers that build terms.
#[derive(Debug, PartialEq, Eq, Hash)]
pub enum Term {
    /// An IRI reference.
    Iri(String),
    /// A blank node with its graph-scoped identifier.
    BlankNode(String),
    /// A literal: lexical value and datatype IRI.
    Literal(String, String),
    /// A variable; its scope is the enclosing formula's quantifier sets.
    Variable(String),
    /// A nested formula used as a term.
    Formula(Box<Formula>),
}

/// A statement (triple) of subject, predicate and object terms.
#[derive(Debug, PartialEq, Eq, Hash)]
pub struct Statement {
    pub subject: Term,
    pub predicate: Term,
    pub object: Term,
}

/// A formula: an ordered sequence of statements plus the names of its
/// universally and existentially quantified variables.
#[derive(Debug, PartialEq, Eq, Hash)]
pub struct Formula {
    /// The statements contained in this formula.
    pub statements: Vec<Statement>,
    /// Names of the universally quantified variables.
    pub universal_vars: Vec<String>,
    /// Names of the existentially quantified variables.
    pub existential_vars: Vec<String>,
}

pub open spec fn term_view(t: Term) -> SpecTerm
    decreases t,
{
    match t {
        Term::Iri(s) => SpecTerm::Iri(s@),
        Term::BlankNode(s) => SpecTerm::Blank(s@),
        Term::Literal(v, d) => SpecTerm::Literal { value: v@, datatype: d@ },
        Term::Variable(s) => SpecTerm::Var(s@),
        Term::Formula(f) => SpecTerm::Formula(formula_view(*f)),
    }
}

pub open spec fn stmt_view(s: Statement) -> SpecStatement
    decreases s,
{
    SpecStatement {
        subject: term_view(s.subject),
        predicate: term_view(s.predicate),
        object: term_view(s.object),
    }
}

pub open spec fn stmts_view(v: Seq<Statement>) -> Seq<SpecStatement>
    decreases v,
{
    if v.len() == 0 {
        Seq::empty()
    } else {
        stmts_view(v.subrange(0, v.len() - 1)).push(stmt_view(v[v.len() - 1]))
    }
}

/// The set of names held by a list of strings.
pub open spec fn names_view(v: Seq<String>) -> Set<Seq<char>> {
    Set::new(|x: Seq<char>| exists|i: int| 0 <= i < v.len() && v[i]@ == x)
}

pub open spec fn formula_view(f: Formula) -> SpecFormula
    decreases f,
{
    SpecFormula {
        statements: stmts_view(f.statements@),
        universals: names_view(f.universal_vars@),
        existentials: names_view(f.existential_vars@),
    }
}

impl View for Term {
    type V = SpecTerm;

    open spec fn view(&self) -> SpecTerm {
        term_view(*self)
    }
}

impl View for Statement {
    type V = SpecStatement;

    open spec fn view(&self) -> SpecStatement {
        stmt_view(*self)
    }
}

impl View for Formula {
    type V = SpecFormula;

    open spec fn view(&self) -> SpecFormula {
        formula_view(*self)
    }
}

pub proof fn lemma_stmts_view(v: Seq<Statement>)
    ensures
        stmts_view(v).len() == v.len(),
        forall|i: int| 0 <= i < v.len() ==> stmts_view(v)[i] == stmt_view(v[i]),
    decreases v.len(),
{
    if v.len() > 0 {
        lemma_stmts_view(v.subrange(0, v.len() - 1));
        assert forall|i: int| 0 <= i < v.len() implies stmts_view(v)[i] == stmt_view(v[i]) by {
            if i < v.len() - 1 {
                assert(v.subrange(0, v.len() - 1)[i] == v[i]);
            }
        }
    }
}

/// Structural equality of terms: IRIs by value, blank nodes by identifier,
/// literals by value and datatype, variables by name, and nested formulas by
/// their own structural equality.
pub fn term_eq(a: &Term, b: &Term) -> (r: bool)
    ensures
        r == (a@ == b@),
    decreases *a,
{
    match (a, b) {
        (Term::Iri(x), Term::Iri(y)) => *x == *y,
        (Term::BlankNode(x), Term::BlankNode(y)) => *x == *y,
        (Term::Literal(v1, d1), Term::Literal(v2, d2)) => *v1 == *v2 && *d1 == *d2,
        (Term::Variable(x), Term::Variable(y)) => *x == *y,
        (Term::Formula(f), Term::Formula(g)) => formula_eq(f, g),
        _ => {
            proof {
                assert(term_view(*a) != term_view(*b));
            }
            false
        },
    }
}

/// Structural equality of statements, position by position.
pub fn statement_eq(a: &Statement, b: &Statement) -> (r: bool)
    ensures
        r == (a@ == b@),
    decreases *a,
{
    term_eq(&a.subject, &b.subject) && term_eq(&a.predicate, &b.predicate) && term_eq(
        &a.object,
        &b.object,
    )
}

/// Whether the name `x` occurs in the list `v`.
pub fn contains_name(v: &Vec<String>, x: &String) -> (r: bool)
    ensures
        r == names_view(v@).contains(x@),
{
    let n = v.len();
    for i in 0..n
        invariant
            n == v@.len(),
            forall|j: int| 0 <= j < i ==> v@[j]@ != x@,
        decreases n - i,
    {
        if v[i] == *x {
            return true;
        }
    }
    false
}

/// Set equality of two name lists.
pub fn names_eq(a: &Vec<String>, b: &Vec<String>) -> (r: bool)
    ensures
        r == (names_view(a@) == names_view(b@)),
{
    let n = a.len();
    for i in 0..n
        invariant
            n == a@.len(),
            forall|j: int| 0 <= j < i ==> names_view(b@).contains(a@[j]@),
        decreases n - i,
    {
        let present = contains_name(b, &a[i]);
        if !present {
            proof {
                assert(names_view(a@).contains(a@[i as int]@));
            }
            return false;
        }
    }
    let m = b.len();
    for i in 0..m
        invariant
            m == b@.len(),
            forall|j: int| 0 <= j < a@.len() ==> names_view(b@).contains(a@[j]@),
            forall|j: int| 0 <= j < i ==> names_view(a@).contains(b@[j]@),
        decreases m - i,
    {
        let present = contains_name(a, &b[i]);
        if !present {
            proof {
                assert(names_view(b@).contains(b@[i as int]@));
            }
            return false;
        }
    }
    proof {
        assert forall|x: Seq<char>| names_view(a@).contains(x) implies names_view(b@).contains(
            x,
        ) by {
            let j = choose|j: int| 0 <= j < a@.len() && a@[j]@ == x;
            assert(names_view(b@).contains(a@[j]@));
        }
        assert forall|x: Seq<char>| names_view(b@).contains(x) implies names_view(a@).contains(
            x,
        ) by {
            let j = choose|j: int| 0 <= j < b@.len() && b@[j]@ == x;
            assert(names_view(a@).contains(b@[j]@));
        }
        assert(names_view(a@) =~= names_view(b@));
    }
    true
}

/// Structural equality of formulas: equal statement sequences (in order) and
/// equal quantifier name sets.
pub fn formula_eq(a: &Formula, b: &Formula) -> (r: bool)
    ensures
        r == (a@ == b@),
    decreases *a,
{
    proof {
        lemma_stmts_view(a.statements@);
        lemma_stmts_view(b.statements@);
    }
    if a.statements.len() != b.statements.len() {
        return false;
    }
    let n = a.statements.len();
    for i in 0..n
        invariant
            n == a.statements@.len() == b.statements@.len(),
            forall|j: int| 0 <= j < i ==> stmt_view(a.statements@[j]) == stmt_view(b.statements@[j]),
        decreases n - i,
    {
        let same = statement_eq(&a.statements[i], &b.statements[i]);
        if !same {
            proof {
                lemma_stmts_view(a.statements@);
                lemma_stmts_view(b.statements@);
                assert(formula_view(*a).statements[i as int] != formula_view(*b).statements[
                    i as int
                ]);
            }
            return false;
        }
    }
    let u = names_eq(&a.universal_vars, &b.universal_vars);
    if !u {
        return false;
    }
    let e = names_eq(&a.existential_vars, &b.existential_vars);
    if !e {
        return false;
    }
    proof {
        lemma_stmts_view(a.statements@);
        lemma_stmts_view(b.statements@);
        assert(formula_view(*a).statements =~= formula_view(*b).statements);
    }
    true
}

/// Whether the variable named `x` occurs at a top-level position of `st`.
///
/// Variables inside nested formulas are scoped to the nested formula and do
/// not count as occurrences in the enclosing one.
pub open spec fn stmt_mentions_var(st: SpecStatement, x: Seq<char>) -> bool {
    ||| st.subject == SpecTerm::Var(x)
    ||| st.predicate == SpecTerm::Var(x)
    ||| st.object == SpecTerm::Var(x)
}

/// The set of variable names free at top-level positions of the statements.
pub open spec fn free_vars(ss: Seq<SpecStatement>) -> Set<Seq<char>> {
    Set::new(|x: Seq<char>| exists|i: int| 0 <= i < ss.len() && stmt_mentions_var(ss[i], x))
}

/// Whether no top-level position of any statement is a variable.
pub open spec fn spec_ground_stmts(ss: Seq<SpecStatement>) -> bool {
    forall|i: int|
        0 <= i < ss.len() ==> !((#[trigger] ss[i]).subject is Var) && !(ss[i].predicate is Var)
            && !(ss[i].object is Var)
}

/// Well-formedness of a term occurring at a top-level statement position of
/// a formula with quantifier sets `u` (universal) and `e` (existential): a
/// variable must be declared in exactly one of the two sets, and a nested
/// formula must itself be well-formed.
pub open spec fn term_pos_ok(t: SpecTerm, u: Set<Seq<char>>, e: Set<Seq<char>>) -> bool
    decreases t,
{
    match t {
        SpecTerm::Var(x) => u.contains(x) != e.contains(x),
        SpecTerm::Formula(g) => spec_formula_wf(g),
        _ => true,
    }
}

pub open spec fn stmt_pos_ok(st: SpecStatement, u: Set<Seq<char>>, e: Set<Seq<char>>) -> bool
    decreases st,
{
    term_pos_ok(st.subject, u, e) && term_pos_ok(st.predicate, u, e) && term_pos_ok(st.object, u, e)
}

/// The formula invariant: every variable occurring at a top-level position
/// is declared in exactly one of the two quantifier sets, and every nested
/// formula is itself well-formed.
pub open spec fn spec_formula_wf(f: SpecFormula) -> bool
    decreases f,
{
    forall|i: int| 0 <= i < f.statements.len() ==> stmt_pos_ok(
        #[trigger] f.statements[i],
        f.universals,
        f.existentials,
    )
}

/// A well-formed formula declares each free variable in exactly one set.
pub proof fn lemma_wf_free_vars(f: SpecFormula, x: Seq<char>)
    requires
        spec_formula_wf(f),
        free_vars(f.statements).contains(x),
    ensures
        f.universals.contains(x) != f.existentials.contains(x),
{
    let i = choose|i: int| 0 <= i < f.statements.len() && stmt_mentions_var(f.statements[i], x);
    assert(stmt_pos_ok(f.statements[i], f.universals, f.existentials));
}

fn check_term_pos(t: &Term, univ: &Vec<String>, exist: &Vec<String>) -> (r: bool)
    ensures
        r == term_pos_ok(t@, names_view(univ@), names_view(exist@)),
    decreases *t,
{
    match t {
        Term::Variable(v) => {
            let in_u = contains_name(univ, v);
            let in_e = contains_name(exist, v);
            in_u != in_e
        },
        Term::Formula(g) => check_formula_wf(g),
        _ => true,
    }
}

/// Checks the formula invariant: every variable at a top-level statement
/// position is declared in exactly one quantifier set, and nested formulas
/// are well-formed throughout.
pub fn check_formula_wf(f: &Formula) -> (r: bool)
    ensures
        r == spec_formula_wf(f@),
    decreases *f,
{
    proof {
        lemma_stmts_view(f.statements@);
    }
    let n = f.statements.len();
    for i in 0..n
        invariant
            n == f.statements@.len(),
            forall|j: int| 0 <= j < i ==> stmt_pos_ok(
                stmt_view(f.statements@[j]),
                names_view(f.universal_vars@),
                names_view(f.existential_vars@),
            ),
        decreases n - i,
    {
        let st = &f.statements[i];
        let ok = check_term_pos(&st.subject, &f.universal_vars, &f.existential_vars)
            && check_term_pos(&st.predicate, &f.universal_vars, &f.existential_vars)
            && check_term_pos(&st.object, &f.universal_vars, &f.existential_vars);
        if !ok {
            proof {
                lemma_stmts_view(f.statements@);
                assert(!stmt_pos_ok(f@.statements[i as int], f@.universals, f@.existentials));
            }
            return false;
        }
    }
    proof {
        lemma_stmts_view(f.statements@);
    }
    true
}

impl Clone for Term {
    /// A deep copy with the same view.
    fn clone(&self) -> (r: Term)
        ensures
            r@ == self@,
    {
        term_dup(self)
    }
}

impl Clone for Statement {
    /// A deep copy with the same view.
    fn clone(&self) -> (r: Statement)
        ensures
            r@ == self@,
    {
        statement_dup(self)
    }
}

impl Clone for Formula {
    /// A deep copy with the same view.
    fn clone(&self) -> (r: Formula)
        ensures
            r@ == self@,
    {
        formula_dup(self)
    }
}

/// A deep copy of a term; the copy has the same view.
pub fn term_dup(t: &Term) -> (r: Term)
    ensures
        r@ == t@,
    decreases *t,
{
    match t {
        Term::Iri(s) => Term::Iri(s.clone()),
        Term::BlankNode(s) => Term::BlankNode(s.clone()),
        Term::Literal(v, d) => Term::Literal(v.clone(), d.clone()),
        Term::Variable(s) => Term::Variable(s.clone()),
        Term::Formula(f) => Term::Formula(Box::new(formula_dup(f))),
    }
}

/// A deep copy of a statement; the copy has the same view.
pub fn statement_dup(s: &Statement) -> (r: Statement)
    ensures
        r@ == s@,
    decreases *s,
{
    Statement {
        subject: term_dup(&s.subject),
        predicate: term_dup(&s.predicate),
        object: term_dup(&s.object),
    }
}

fn names_dup(v: &Vec<String>) -> (r: Vec<String>)
    ensures
        r@.len() == v@.len(),
        forall|i: int| 0 <= i < v@.len() ==> r@[i]@ == v@[i]@,
{
    let mut r: Vec<String> = Vec::new();
    let n = v.len();
    for i in 0..n
        invariant
            n == v@.len(),
            r@.len() == i,
            forall|j: int| 0 <= j < i ==> r@[j]@ == v@[j]@,
        decreases n - i,
    {
        r.push(v[i].clone());
    }
    r
}

/// A deep copy of a formula; the copy has the same view.
pub fn formula_dup(f: &Formula) -> (r: Formula)
    ensures
        r@ == f@,
    decreases *f,
{
    let mut statements: Vec<Statement> = Vec::new();
    let n = f.statements.len();
    for i in 0..n
        invariant
            n == f.statements@.len(),
            statements@.len() == i,
            forall|j: int| 0 <= j < i ==> stmt_view(statements@[j]) == stmt_view(f.statements@[j]),
        decreases n - i,
    {
        let s = statement_dup(&f.statements[i]);
        statements.push(s);
    }
    let universal_vars = names_dup(&f.universal_vars);
    let existential_vars = names_dup(&f.existential_vars);
    let r = Formula { statements, universal_vars, existential_vars };
    proof {
        lemma_stmts_view(r.statements@);
        lemma_stmts_view(f.statements@);
        assert(r@.statements =~= f@.statements);
        assert(r@.universals =~= f@.universals);
        assert(r@.existentials =~= f@.existentials);
    }
    r
}

proof fn lemma_names_push(v: Seq<String>, s: String)
    ensures
        names_view(v.push(s)) == names_view(v).insert(s@),
{
    assert forall|x: Seq<char>| names_view(v.push(s)).contains(x) implies names_view(
        v,
    ).insert(s@).contains(x) by {
        let i = choose|i: int| 0 <= i < v.push(s).len() && v.push(s)[i]@ == x;
        if i < v.len() {
            assert(v[i]@ == x);
        }
    }
    assert forall|x: Seq<char>| names_view(v).insert(s@).contains(x) implies names_view(
        v.push(s),
    ).contains(x) by {
        if names_view(v).contains(x) {
            let i = choose|i: int| 0 <= i < v.len() && v[i]@ == x;
            assert(v.push(s)[i]@ == x);
        } else {
            assert(v.push(s)[v.len() as int]@ == x);
        }
    }
    assert(names_view(v.push(s)) =~= names_view(v).insert(s@));
}

impl Formula {
    /// Creates a new empty formula.
    pub fn new() -> (r: Formula)
        ensures
            r@.statements == Seq::<SpecStatement>::empty(),
            r@.universals == Set::<Seq<char>>::empty(),
            r@.existentials == Set::<Seq<char>>::empty(),
    {
        let r = Formula {
            statements: Vec::new(),
            universal_vars: Vec::new(),
            existential_vars: Vec::new(),
        };
        proof {
            assert(r@.statements =~= Seq::<SpecStatement>::empty());
            assert(r@.universals =~= Set::<Seq<char>>::empty());
            assert(r@.existentials =~= Set::<Seq<char>>::empty());
        }
        r
    }

    /// Appends a statement to the formula.
    pub fn add_statement(&mut self, statement: Statement)
        ensures
            final(self)@.statements == old(self)@.statements.push(statement@),
            final(self)@.universals == old(self)@.universals,
            final(self)@.existentials == old(self)@.existentials,
    {
        proof {
            lemma_stmts_view(self.statements@);
        }
        self.statements.push(statement);
        proof {
            lemma_stmts_view(self.statements@);
            assert(self.statements@.subrange(0, self.statements@.len() - 1) =~= old(
                self,
            ).statements@);
            assert(final(self)@.statements =~= old(self)@.statements.push(statement@));
        }
    }

    /// Declares a universally quantified variable name.
    pub fn add_universal_var(&mut self, var: &str)
        ensures
            final(self)@.universals == old(self)@.universals.insert(var@),
            final(self)@.statements == old(self)@.statements,
            final(self)@.existentials == old(self)@.existentials,
    {
        let name = var.to_owned();
        let present = contains_name(&self.universal_vars, &name);
        if !present {
            proof {
                lemma_names_push(self.universal_vars@, name);
            }
            self.universal_vars.push(name);
        } else {
            proof {
                assert(old(self)@.universals.insert(var@) =~= old(self)@.universals);
            }
        }
    }

    /// Declares an existentially quantified variable name.
    pub fn add_existential_var(&mut self, var: &str)
        ensures
            final(self)@.existentials == old(self)@.existentials.insert(var@),
            final(self)@.statements == old(self)@.statements,
            final(self)@.universals == old(self)@.universals,
    {
        let name = var.to_owned();
        let present = contains_name(&self.existential_vars, &name);
        if !present {
            proof {
                lemma_names_push(self.existential_vars@, name);
            }
            self.existential_vars.push(name);
        } else {
            proof {
                assert(old(self)@.existentials.insert(var@) =~= old(self)@.existentials);
            }
        }
    }
}

impl Default for Formula {
    fn default() -> (r: Formula)
        ensures
            r@.statements == Seq::<SpecStatement>::empty(),
            r@.universals == Set::<Seq<char>>::empty(),
            r@.existentials == Set::<Seq<char>>::empty(),
    {
        Formula::new()
    }
}

/// An RDF graph: a plain sequence of statements, without quantifiers.
#[derive(Debug, Clone)]
pub struct Graph {
    /// The statements in the graph.
    pub statements: Vec<Statement>,
}

impl View for Graph {
    type V = Seq<SpecStatement>;

    open spec fn view(&self) -> Seq<SpecStatement> {
        stmts_view(self.statements@)
    }
}

impl Graph {
    /// Creates a new empty graph.
    pub fn new() -> (r: Graph)
        ensures
            r@ == Seq::<SpecStatement>::empty(),
    {
        Graph { statements: Vec::new() }
    }

    /// Appends a statement to the graph.
    pub fn add_statement(&mut self, statement: Statement)
        ensures
            final(self)@ == old(self)@.push(statement@),
    {
        proof {
            lemma_stmts_view(self.statements@);
        }
        self.statements.push(statement);
        proof {
            lemma_stmts_view(self.statements@);
            assert(self.statements@.subrange(0, self.statements@.len() - 1) =~= old(
                self,
            ).statements@);
            assert(final(self)@ =~= old(self)@.push(statement@));
        }
    }
}

impl Default for Graph {
    fn default() -> (r: Graph)
        ensures
            r@ == Seq::<SpecStatement>::empty(),
    {
        Graph::new()
    }
}

/// Declares oxrdf's IRI node type; its values are opaque here and only
/// carried through [`Graph::convert_triple`].
#[verifier::external_type_specification]
#[verifier::external_body]
pub struct ExNamedNode(oxrdf::NamedNode);

/// Declares oxrdf's blank-node type, opaque here.
#[verifier::external_type_specification]
#[verifier::external_body]
pub struct ExBlankNode(oxrdf::BlankNode);

/// Declares oxrdf's literal type, opaque here.
#[verifier::external_type_specification]
#[verifier::external_body]
pub struct ExLiteral(oxrdf::Literal);

/// Declares oxrdf's subject type (an IRI or a blank node), opaque here.
#[verifier::external_type_specification]
#[verifier::external_body]
pub struct ExNamedOrBlankNode(oxrdf::NamedOrBlankNode);

/// Declares oxrdf's term type (an IRI, blank node or literal), opaque here.
#[verifier::external_type_specification]
#[verifier::external_body]
pub struct ExOxTerm(OxTerm);

impl Graph {
    /// Converts an oxrdf triple into a statement of this model.
    ///
    /// Relies on oxrdf's accessors `NamedNode::as_str`, `BlankNode::as_str`,
    /// `Literal::value` and `Literal::datatype` to read the lexical parts of
    /// each RDF term; the oxrdf values are opaque to the verifier, so the
    /// contract states only the shape of the produced statement.
    #[verifier::external_body]
    pub fn convert_triple(
        &self,
        subject: &oxrdf::NamedOrBlankNode,
        predicate: &oxrdf::NamedNode,
        object: &OxTerm,
    ) -> (r: Result<Statement, Error>)
        ensures
            r is Ok,
            r->Ok_0@.subject is Iri || r->Ok_0@.subject is Blank,
            r->Ok_0@.predicate is Iri,
            !(r->Ok_0@.object is Var) && !(r->Ok_0@.object is Formula),
    {
        let s = match subject {
            oxrdf::NamedOrBlankNode::NamedNode(n) => Term::Iri(n.as_str().to_owned()),
            oxrdf::NamedOrBlankNode::BlankNode(b) => Term::BlankNode(b.as_str().to_owned()),
        };
        let o = match object {
            OxTerm::NamedNode(n) => Term::Iri(n.as_str().to_owned()),
            OxTerm::BlankNode(b) => Term::BlankNode(b.as_str().to_owned()),
            OxTerm::Literal(l) => Term::Literal(
                l.value().to_owned(),
                l.datatype().as_str().to_owned(),
            ),
        };
        Ok(Statement { subject: s, predicate: Term::Iri(predicate.as_str().to_owned()), object: o })
    }
}

/// The diagnostic text of a term: `<iri>`, `_:blank`, `"literal value"`,
/// `?variable`, or `{...}` for a nested formula.
pub open spec fn spec_term_render(t: SpecTerm) -> Seq<char> {
    match t {
        SpecTerm::Iri(s) => "<"@ + s + ">"@,
        SpecTerm::Blank(s) => "_:"@ + s,
        SpecTerm::Literal { value, datatype } => "\""@ + value + "\""@,
        SpecTerm::Var(s) => "?"@ + s,
        SpecTerm::Formula(_) => "{...}"@,
    }
}

/// The diagnostic text of a statement: the three terms and a final dot.
pub open spec fn spec_statement_render(s: SpecStatement) -> Seq<char> {
    spec_term_render(s.subject) + " "@ + spec_term_render(s.predicate) + " "@ + spec_term_render(
        s.object,
    ) + " ."@
}

impl Term {
    /// Renders the term for diagnostics.
    pub fn render(&self) -> (r: String)
        ensures
            r@ == spec_term_render(self@),
    {
        match self {
            Term::Iri(s) => {
                let mut out = "<".to_owned();
                out.append(s.as_str());
                out.append(">");
                out
            },
            Term::BlankNode(s) => {
                let mut out = "_:".to_owned();
                out.append(s.as_str());
                out
            },
            Term::Literal(v, _) => {
                let mut out = "\"".to_owned();
                out.append(v.as_str());
                out.append("\"");
                out
            },
            Term::Variable(s) => {
                let mut out = "?".to_owned();
                out.append(s.as_str());
                out
            },
            Term::Formula(_) => "{...}".to_owned(),
        }
    }
}

impl Statement {
    /// Renders the statement for diagnostics.
    pub fn render(&self) -> (r: String)
        ensures
            r@ == spec_statement_render(self@),
    {
        let mut out = self.subject.render();
        out.append(" ");
        let p = self.predicate.render();
        out.append(p.as_str());
        out.append(" ");
        let o = self.object.render();
        out.append(o.as_str());
        out.append(" .");
        out
    }
}

} // verus!
