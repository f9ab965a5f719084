//! The knowledge base: an append-only sequence of formulas addressed by
//! stable position, with a secondary index from predicate terms to the
//! locations (formula index, statement offset) where they occur.

use vstd::prelude::*;

use crate::model::{Formula, SpecFormula, SpecTerm, Term};
use crate::model::{formula_view, lemma_stmts_view, stmt_view, term_dup, term_eq, term_view};

verus! {

/// An append-only store of formulas with a predicate index.
pub struct KnowledgeBase {
    entries: Vec<Formula>,
    index: Vec<(Term, usize, usize)>,
}

/// The index entries contributed by formula `f` at position `fi`: one entry
/// per statement, keyed by its predicate.
pub open spec fn formula_index_entries(f: SpecFormula, fi: int) -> Seq<(SpecTerm, int, int)> {
    Seq::new(f.statements.len(), |si: int| (f.statements[si].predicate, fi, si))
}

/// The full index of a knowledge base: the concatenation of each entry's
/// contribution, in order of appends.
pub open spec fn kb_index_view(kb: Seq<SpecFormula>) -> Seq<(SpecTerm, int, int)>
    decreases kb.len(),
{
    if kb.len() == 0 {
        Seq::empty()
    } else {
        kb_index_view(kb.subrange(0, kb.len() - 1)) + formula_index_entries(
            kb[kb.len() - 1],
            kb.len() - 1,
        )
    }
}

/// The location that produced index entry `x`: which formula, computed by
/// walking the per-formula contributions.
pub open spec fn locate_fi(kb: Seq<SpecFormula>, x: int) -> int
    decreases kb.len(),
{
    if kb.len() == 0 {
        0
    } else if x < kb_index_view(kb.subrange(0, kb.len() - 1)).len() {
        locate_fi(kb.subrange(0, kb.len() - 1), x)
    } else {
        kb.len() - 1
    }
}

/// The statement offset that produced index entry `x`.
pub open spec fn locate_si(kb: Seq<SpecFormula>, x: int) -> int
    decreases kb.len(),
{
    if kb.len() == 0 {
        0
    } else if x < kb_index_view(kb.subrange(0, kb.len() - 1)).len() {
        locate_si(kb.subrange(0, kb.len() - 1), x)
    } else {
        x - kb_index_view(kb.subrange(0, kb.len() - 1)).len()
    }
}

/// Index entry `x` describes a real location: its formula index and
/// statement offset are in range and the keyed predicate is the one stored
/// there.
pub open spec fn index_entry_ok(kb: Seq<SpecFormula>, x: int) -> bool {
    &&& 0 <= locate_fi(kb, x) < kb.len()
    &&& 0 <= locate_si(kb, x) < kb[locate_fi(kb, x)].statements.len()
    &&& kb_index_view(kb)[x] == (
        kb[locate_fi(kb, x)].statements[locate_si(kb, x)].predicate,
        locate_fi(kb, x),
        locate_si(kb, x),
    )
}

proof fn lemma_kb_index(kb: Seq<SpecFormula>)
    ensures
        forall|x: int| 0 <= x < kb_index_view(kb).len() ==> #[trigger] index_entry_ok(kb, x),
        forall|fi: int, si: int|
            #![trigger kb[fi].statements[si]]
            0 <= fi < kb.len() && 0 <= si < kb[fi].statements.len() ==> kb_index_view(kb).contains(
                (kb[fi].statements[si].predicate, fi, si),
            ),
    decreases kb.len(),
{
    if kb.len() == 0 {
        assert(kb_index_view(kb) =~= Seq::<(SpecTerm, int, int)>::empty());
    }
    if kb.len() > 0 {
        let rest = kb.subrange(0, kb.len() - 1);
        lemma_kb_index(rest);
        let tail = formula_index_entries(kb[kb.len() - 1], kb.len() - 1);
        assert forall|x: int| 0 <= x < kb_index_view(kb).len() implies #[trigger] index_entry_ok(
            kb,
            x,
        ) by {
            if x < kb_index_view(rest).len() {
                assert(index_entry_ok(rest, x));
                assert(kb_index_view(kb)[x] == kb_index_view(rest)[x]);
                assert(rest[locate_fi(rest, x)] == kb[locate_fi(rest, x)]);
            } else {
                let si = x - kb_index_view(rest).len();
                assert(kb_index_view(kb)[x] == tail[si]);
            }
        }
        assert forall|fi: int, si: int|
            #![trigger kb[fi].statements[si]]
            0 <= fi < kb.len() && 0 <= si < kb[fi].statements.len() implies kb_index_view(
            kb,
        ).contains((kb[fi].statements[si].predicate, fi, si)) by {
            if fi < kb.len() - 1 {
                assert(rest[fi] == kb[fi]);
                assert(kb_index_view(rest).contains((rest[fi].statements[si].predicate, fi, si)));
                let x = choose|x: int|
                    0 <= x < kb_index_view(rest).len() && kb_index_view(rest)[x] == (
                    rest[fi].statements[si].predicate,
                    fi,
                    si,
                    );
                assert(kb_index_view(kb)[x] == (kb[fi].statements[si].predicate, fi, si));
            } else {
                assert(tail[si] == (kb[fi].statements[si].predicate, fi, si));
                assert(kb_index_view(kb)[kb_index_view(rest).len() + si] == (
                kb[fi].statements[si].predicate,
                fi,
                si,
                ));
            }
        }
    }
}

impl View for KnowledgeBase {
    type V = Seq<SpecFormula>;

    closed spec fn view(&self) -> Seq<SpecFormula> {
        Seq::new(self.entries@.len(), |i: int| formula_view(self.entries@[i]))
    }
}

impl KnowledgeBase {
    /// The stored index, viewed mathematically.
    pub closed spec fn index_view(&self) -> Seq<(SpecTerm, int, int)> {
        Seq::new(
            self.index@.len(),
            |x: int|
                (term_view(self.index@[x].0), self.index@[x].1 as int, self.index@[x].2 as int),
        )
    }

    /// The index lists exactly each statement location keyed by predicate.
    pub open spec fn wf(&self) -> bool {
        self.index_view() == kb_index_view(self@)
    }

    /// Creates an empty knowledge base.
    pub fn new() -> (r: KnowledgeBase)
        ensures
            r.wf(),
            r@ == Seq::<SpecFormula>::empty(),
    {
        let r = KnowledgeBase { entries: Vec::new(), index: Vec::new() };
        proof {
            assert(r@ =~= Seq::<SpecFormula>::empty());
            assert(r.index_view() =~= kb_index_view(r@));
        }
        r
    }

    /// The number of entries.
    pub fn len(&self) -> (r: usize)
        ensures
            r == self@.len(),
    {
        self.entries.len()
    }

    /// A copy of the entry at position `idx`.
    pub fn entry(&self, idx: usize) -> (r: Formula)
        requires
            idx < self@.len(),
        ensures
            r@ == self@[idx as int],
    {
        crate::model::formula_dup(&self.entries[idx])
    }

    /// Appends a formula, indexes its statements, and returns its stable
    /// position. Entries are never removed or changed afterwards.
    pub fn add(&mut self, f: Formula) -> (idx: usize)
        requires
            old(self).wf(),
        ensures
            final(self).wf(),
            final(self)@ == old(self)@.push(f@),
            idx == old(self)@.len(),
    {
        let idx = self.entries.len();
        let ghost fv = f@;
        proof {
            lemma_stmts_view(f.statements@);
        }
        let n = f.statements.len();
        for si in 0..n
            invariant
                n == f.statements@.len(),
                fv == formula_view(f),
                n == fv.statements.len(),
                idx == self.entries@.len(),
                self.index@.len() == kb_index_view(self@).len() + si,
                self.index_view().subrange(0, kb_index_view(self@).len() as int) == kb_index_view(
                    self@,
                ),
                forall|x: int|
                    0 <= x < si ==> self.index_view()[kb_index_view(self@).len() + x] == (
                    fv.statements[x].predicate,
                    idx as int,
                    x,
                    ),
                old(self)@ == self@,
                old(self).wf(),
            decreases n - si,
        {
            let ghost before = self.index_view();
            let key = term_dup(&f.statements[si].predicate);
            self.index.push((key, idx, si));
            proof {
                lemma_stmts_view(f.statements@);
                assert(self.index_view() =~= before.push(
                    (fv.statements[si as int].predicate, idx as int, si as int),
                ));
                assert(self.index_view().subrange(0, kb_index_view(self@).len() as int)
                    =~= kb_index_view(self@));
            }
        }
        self.entries.push(f);
        proof {
            assert(self@.subrange(0, self@.len() - 1) =~= old(self)@);
            assert(self@ =~= old(self)@.push(fv));
            assert(self@[self@.len() - 1] == fv);
            assert(self.index_view() =~= kb_index_view(old(self)@) + formula_index_entries(
                fv,
                idx as int,
            ));
            assert(self.index_view() =~= kb_index_view(self@));
        }
        idx
    }

    /// All locations (formula position, statement offset) whose statement
    /// has a predicate structurally equal to `p`.
    pub fn lookup(&self, p: &Term) -> (r: Vec<(usize, usize)>)
        requires
            self.wf(),
        ensures
            forall|y: int|
                0 <= y < r@.len() ==> {
                    let fi = (#[trigger] r@[y]).0 as int;
                    let si = r@[y].1 as int;
                    &&& 0 <= fi < self@.len()
                    &&& 0 <= si < self@[fi].statements.len()
                    &&& self@[fi].statements[si].predicate == p@
                },
            forall|fi: int, si: int|
                #![trigger self@[fi].statements[si]]
                0 <= fi < self@.len() && 0 <= si < self@[fi].statements.len()
                    && self@[fi].statements[si].predicate == p@ ==> r@.contains(
                    (fi as usize, si as usize),
                ),
    {
        proof {
            lemma_kb_index(self@);
        }
        let mut r: Vec<(usize, usize)> = Vec::new();
        let n = self.index.len();
        proof {
            assert(n == kb_index_view(self@).len());
        }
        for x in 0..n
            invariant
                self.wf(),
                n == self.index@.len(),
                forall|y: int|
                    0 <= y < r@.len() ==> {
                        let fi = (#[trigger] r@[y]).0 as int;
                        let si = r@[y].1 as int;
                        &&& 0 <= fi < self@.len()
                        &&& 0 <= si < self@[fi].statements.len()
                        &&& self@[fi].statements[si].predicate == p@
                    },
                forall|x2: int|
                    0 <= x2 < x && (#[trigger] self.index_view()[x2]).0 == p@ ==> r@.contains(
                        (self.index_view()[x2].1 as usize, self.index_view()[x2].2 as usize),
                    ),
            decreases n - x,
        {
            let ghost rbefore = r@;
            let hit = term_eq(&self.index[x].0, p);
            if hit {
                r.push((self.index[x].1, self.index[x].2));
                proof {
                    lemma_kb_index(self@);
                    assert(r@[r@.len() - 1] == (self.index@[x as int].1, self.index@[x as int].2));
                    assert(self.index_view()[x as int] == (
                        p@,
                        r@[r@.len() - 1].0 as int,
                        r@[r@.len() - 1].1 as int,
                    ));
                    assert(index_entry_ok(self@, x as int));
                    assert forall|x2: int|
                        0 <= x2 < x + 1 && (#[trigger] self.index_view()[x2]).0 == p@ implies
                        r@.contains(
                            (self.index_view()[x2].1 as usize, self.index_view()[x2].2 as usize),
                        ) by {
                        if x2 < x {
                            let y = choose|y: int|
                                0 <= y < rbefore.len() && rbefore[y] == (
                                self.index_view()[x2].1 as usize,
                                self.index_view()[x2].2 as usize,
                                );
                            assert(r@[y] == rbefore[y]);
                        } else {
                            assert(r@[r@.len() - 1] == (
                                self.index_view()[x2].1 as usize,
                                self.index_view()[x2].2 as usize,
                            ));
                        }
                    }
                }
            }
        }
        proof {
            assert forall|fi: int, si: int|
                #![trigger self@[fi].statements[si]]
                0 <= fi < self@.len() && 0 <= si < self@[fi].statements.len()
                    && self@[fi].statements[si].predicate == p@ implies r@.contains(
                (fi as usize, si as usize),
            ) by {
                assert(kb_index_view(self@).contains((self@[fi].statements[si].predicate, fi, si)));
                let x2 = choose|x2: int|
                    0 <= x2 < kb_index_view(self@).len() && kb_index_view(self@)[x2] == (
                    self@[fi].statements[si].predicate,
                    fi,
                    si,
                    );
                assert(self.index_view()[x2].0 == p@);
            }
        }
        r
    }
}

} // verus!
