//! Small helpers: decimal rendering of counters, triple construction,
//! formula equivalence, and the N3 textual rendering.
//!
//! Equivalence follows the model's definition: two formulas are equivalent
//! when a bijective, quantifier-kind-preserving renaming of their occurring
//! quantified variables makes their statement sets — as unordered,
//! deduplicated sets — identical. The decision procedure is the renaming
//! search of the unification module, proved sound and complete for that
//! relation.

use vstd::prelude::*;
use vstd::string::StringExecFns;

use crate::model::{Formula, SpecFormula, SpecStatement, SpecTerm, Statement, Term};
use crate::model::{lemma_stmts_view, names_view, statement_dup, statement_eq, stmt_view, stmts_view};
use crate::model::spec_statement_render;
use crate::unify::{alpha_match, alpha_match_exec};

verus! {

pub open spec fn digit_char(d: nat) -> char {
    if d == 0 {
        '0'
    } else if d == 1 {
        '1'
    } else if d == 2 {
        '2'
    } else if d == 3 {
        '3'
    } else if d == 4 {
        '4'
    } else if d == 5 {
        '5'
    } else if d == 6 {
        '6'
    } else if d == 7 {
        '7'
    } else if d == 8 {
        '8'
    } else {
        '9'
    }
}

/// The decimal digits of `n`, most significant first.
pub open spec fn dec_digits(n: nat) -> Seq<char>
    decreases n,
{
    if n < 10 {
        seq![digit_char(n)]
    } else {
        dec_digits(n / 10) + seq![digit_char(n % 10)]
    }
}

fn digit_str(d: u128) -> (r: &'static str)
    requires
        d < 10,
    ensures
        r@ == seq![digit_char(d as nat)],
{
    let s: &'static str = if d == 0 {
        "0"
    } else if d == 1 {
        "1"
    } else if d == 2 {
        "2"
    } else if d == 3 {
        "3"
    } else if d == 4 {
        "4"
    } else if d == 5 {
        "5"
    } else if d == 6 {
        "6"
    } else if d == 7 {
        "7"
    } else if d == 8 {
        "8"
    } else {
        "9"
    };
    proof {
        reveal_strlit("0");
        reveal_strlit("1");
        reveal_strlit("2");
        reveal_strlit("3");
        reveal_strlit("4");
        reveal_strlit("5");
        reveal_strlit("6");
        reveal_strlit("7");
        reveal_strlit("8");
        reveal_strlit("9");
    }
    s
}

/// Renders `n` in decimal.
pub fn dec_render(n: u128) -> (r: String)
    ensures
        r@ == dec_digits(n as nat),
    decreases n,
{
    if n < 10 {
        digit_str(n).to_owned()
    } else {
        let mut r = dec_render(n / 10);
        r.append(digit_str(n % 10));
        r
    }
}

/// Creates a simple triple statement from its three terms.
pub fn create_triple(subject: Term, predicate: Term, object: Term) -> (r: Statement)
    ensures
        r@ == (SpecStatement { subject: subject@, predicate: predicate@, object: object@ }),
{
    Statement { subject, predicate, object }
}


/// The statements of `v` with later duplicates removed, keeping first
/// occurrences in order. Statement sets, not sequences, carry a formula's
/// meaning, so equivalence is decided over this deduplicated form.
pub open spec fn dedup_stmts(v: Seq<SpecStatement>) -> Seq<SpecStatement>
    decreases v.len(),
{
    if v.len() == 0 {
        Seq::empty()
    } else if v.subrange(0, v.len() - 1).contains(v[v.len() - 1]) {
        dedup_stmts(v.subrange(0, v.len() - 1))
    } else {
        dedup_stmts(v.subrange(0, v.len() - 1)).push(v[v.len() - 1])
    }
}

fn dedup_statements(v: &Vec<Statement>) -> (r: Vec<Statement>)
    ensures
        stmts_view(r@) == dedup_stmts(stmts_view(v@)),
{
    let ghost full = stmts_view(v@);
    proof {
        lemma_stmts_view(v@);
        assert(full.subrange(0, 0) =~= Seq::<SpecStatement>::empty());
    }
    let mut r: Vec<Statement> = Vec::new();
    let n = v.len();
    for i in 0..n
        invariant
            n == v@.len(),
            full == stmts_view(v@),
            n == full.len(),
            stmts_view(r@) == dedup_stmts(full.subrange(0, i as int)),
        decreases n - i,
    {
        proof {
            lemma_stmts_view(v@);
        }
        let mut seen = false;
        for j in 0..i
            invariant
                i < n,
                n == v@.len(),
                full == stmts_view(v@),
                n == full.len(),
                seen <==> exists|j2: int| 0 <= j2 < j && full[j2] == full[i as int],
            decreases i - j,
        {
            proof {
                lemma_stmts_view(v@);
            }
            let same = statement_eq(&v[j], &v[i]);
            if same {
                proof {
                    assert(full[j as int] == full[i as int]);
                }
                seen = true;
            }
        }
        proof {
            lemma_stmts_view(v@);
            let prefix = full.subrange(0, i as int);
            assert(full.subrange(0, i + 1).subrange(0, i as int) =~= prefix);
            assert(full.subrange(0, i + 1)[i as int] == full[i as int]);
            if seen {
                let j2 = choose|j2: int| 0 <= j2 < i && full[j2] == full[i as int];
                assert(prefix[j2] == full[i as int]);
                assert(prefix.contains(full[i as int]));
            }
            if prefix.contains(full[i as int]) {
                let j2 = choose|j2: int| 0 <= j2 < prefix.len() && prefix[j2] == full[i as int];
                assert(full[j2] == full[i as int]);
            }
            assert(seen == prefix.contains(full[i as int]));
        }
        if !seen {
            let ghost prev = r@;
            let copy = statement_dup(&v[i]);
            r.push(copy);
            proof {
                assert(r@.subrange(0, r@.len() - 1) =~= prev);
                lemma_stmts_view(prev);
                lemma_stmts_view(r@);
            }
        }
    }
    proof {
        assert(full.subrange(0, n as int) =~= full);
    }
    r
}

/// Formula equivalence, as the model defines it: there is a bijective,
/// quantifier-kind-preserving renaming of the occurring quantified
/// variables under which the two statement sets are identical.
///
/// Stated as a renaming search: an injective map from the left formula's
/// deduplicated statements onto the right's (equal counts make the
/// injection a bijection, so the renamed statement set is exactly the
/// right set), built from variable bindings that are injective and match
/// universals to universals and existentials to existentials. Unquantified
/// variables and nested formulas must match structurally.
pub open spec fn spec_equivalent(a: SpecFormula, b: SpecFormula) -> bool {
    &&& dedup_stmts(a.statements).len() == dedup_stmts(b.statements).len()
    &&& exists|sf: Map<Seq<char>, SpecTerm>|
        #[trigger] alpha_match(
            dedup_stmts(a.statements),
            dedup_stmts(b.statements),
            a.universals,
            a.existentials,
            b.universals,
            b.existentials,
            sf,
        )
}

/// Decides formula equivalence: a backtracking search for a bijective,
/// quantifier-kind-preserving renaming of the quantified variables making
/// the two statement sets identical.
pub fn formulas_equivalent(a: &Formula, b: &Formula) -> (r: bool)
    ensures
        r == spec_equivalent(a@, b@),
{
    let da = dedup_statements(&a.statements);
    let db = dedup_statements(&b.statements);
    proof {
        lemma_stmts_view(da@);
        lemma_stmts_view(db@);
    }
    if da.len() != db.len() {
        return false;
    }
    let outcome = alpha_match_exec(
        &da,
        &db,
        &a.universal_vars,
        &a.existential_vars,
        &b.universal_vars,
        &b.existential_vars,
    );
    match outcome {
        Some(sf) => {
            proof {
                assert(alpha_match(
                    dedup_stmts(a@.statements),
                    dedup_stmts(b@.statements),
                    a@.universals,
                    a@.existentials,
                    b@.universals,
                    b@.existentials,
                    sf@,
                ));
            }
            true
        },
        None => {
            proof {
                assert forall|sf: Map<Seq<char>, SpecTerm>| !alpha_match(
                    dedup_stmts(a@.statements),
                    dedup_stmts(b@.statements),
                    a@.universals,
                    a@.existentials,
                    b@.universals,
                    b@.existentials,
                    sf,
                ) by {
                    assert(!alpha_match(
                        stmts_view(da@),
                        stmts_view(db@),
                        names_view(a.universal_vars@),
                        names_view(a.existential_vars@),
                        names_view(b.universal_vars@),
                        names_view(b.existential_vars@),
                        sf,
                    ));
                }
            }
            false
        },
    }
}

/// The `?name ` items of a quantifier declaration line, in list order.
pub open spec fn names_line(vars: Seq<String>) -> Seq<char>
    decreases vars.len(),
{
    if vars.len() == 0 {
        Seq::empty()
    } else {
        names_line(vars.subrange(0, vars.len() - 1)) + "?"@ + vars[vars.len() - 1]@ + " "@
    }
}

/// One line per statement, in order.
pub open spec fn stmts_lines(sts: Seq<SpecStatement>) -> Seq<char>
    decreases sts.len(),
{
    if sts.len() == 0 {
        Seq::empty()
    } else {
        stmts_lines(sts.subrange(0, sts.len() - 1)) + spec_statement_render(sts[sts.len() - 1])
            + "\n"@
    }
}

/// The N3 text of a formula: a header, `@forAll` and `@forSome`
/// declarations for the quantified variables in declaration order, and one
/// line per statement.
pub open spec fn spec_formula_to_n3(f: Formula) -> Seq<char> {
    "# N3 Formula\n\n"@ + (if f.universal_vars@.len() > 0 {
        "@forAll "@ + names_line(f.universal_vars@) + ".\n"@
    } else {
        Seq::empty()
    }) + (if f.existential_vars@.len() > 0 {
        "@forSome "@ + names_line(f.existential_vars@) + ".\n"@
    } else {
        Seq::empty()
    }) + (if f.universal_vars@.len() > 0 || f.existential_vars@.len() > 0 {
        "\n"@
    } else {
        Seq::empty()
    }) + stmts_lines(stmts_view(f.statements@))
}

fn append_names(out: &mut String, vars: &Vec<String>)
    ensures
        final(out)@ == old(out)@ + names_line(vars@),
{
    let ghost base = out@;
    let n = vars.len();
    proof {
        assert(names_line(vars@.subrange(0, 0)) =~= Seq::<char>::empty());
        assert(base + names_line(vars@.subrange(0, 0)) =~= base);
    }
    for i in 0..n
        invariant
            n == vars@.len(),
            out@ == base + names_line(vars@.subrange(0, i as int)),
        decreases n - i,
    {
        out.append("?");
        out.append(vars[i].as_str());
        out.append(" ");
        proof {
            assert(vars@.subrange(0, i + 1).subrange(0, i as int) =~= vars@.subrange(0, i as int));
            assert(vars@.subrange(0, i + 1)[i as int] == vars@[i as int]);
        }
    }
    proof {
        assert(vars@.subrange(0, vars@.len() as int) =~= vars@);
    }
}

/// Converts a formula to its N3 textual representation, for diagnostics.
#[verifier::rlimit(60)]
pub fn formula_to_n3_string(formula: &Formula) -> (r: String)
    ensures
        r@ == spec_formula_to_n3(*formula),
{
    let mut out = "# N3 Formula\n\n".to_owned();
    if formula.universal_vars.len() > 0 {
        out.append("@forAll ");
        append_names(&mut out, &formula.universal_vars);
        out.append(".\n");
    }
    if formula.existential_vars.len() > 0 {
        out.append("@forSome ");
        append_names(&mut out, &formula.existential_vars);
        out.append(".\n");
    }
    if formula.universal_vars.len() > 0 || formula.existential_vars.len() > 0 {
        out.append("\n");
    }
    let ghost before = out@;
    let n = formula.statements.len();
    proof {
        lemma_stmts_view(formula.statements@);
        assert(stmts_lines(stmts_view(formula.statements@).subrange(0, 0)) =~= Seq::<
            char,
        >::empty());
        assert(before + stmts_lines(stmts_view(formula.statements@).subrange(0, 0)) =~= before);
    }
    for i in 0..n
        invariant
            n == formula.statements@.len(),
            out@ == before + stmts_lines(stmts_view(formula.statements@).subrange(0, i as int)),
        decreases n - i,
    {
        proof {
            lemma_stmts_view(formula.statements@);
        }
        let line = formula.statements[i].render();
        out.append(line.as_str());
        out.append("\n");
        proof {
            let full = stmts_view(formula.statements@);
            assert(full.subrange(0, i + 1).subrange(0, i as int) =~= full.subrange(0, i as int));
            assert(full.subrange(0, i + 1)[i as int] == full[i as int]);
        }
    }
    proof {
        let full = stmts_view(formula.statements@);
        assert(full.subrange(0, full.len() as int) =~= full);
    }
    out
}

} // verus!
