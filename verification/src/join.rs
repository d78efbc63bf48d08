//! The equation builder: the relational join of the three flat collections.
//!
//! Every row declaration opens an empty, row-named term list and records the
//! row's operator tag; every column entry appends one term to its row's
//! list, creating the list — and an unknown (empty) operator tag — on the
//! fly when the row was never declared; every right-hand-side entry sets the
//! row's value, later entries overwriting earlier ones.  The join keeps rows
//! in first-appearance order, so the rendered document is deterministic.
//!
//! The association lists are specified by [`find_key`], [`get_key`] and
//! [`set_key`]; the whole join by [`build_all`], implemented by
//! [`Mps::interpret`].

use vstd::prelude::*;

verus! {

use crate::lexer::str_eq;
use crate::model::{
    Mps,
    Term,
    TermV,
    RowDeclV,
    ColumnEntryV,
    RhsEntryV,
    rows_view,
    cols_view,
    rhsents_view,
    eqns_view,
    types_view,
    rvals_view,
};
use crate::number::{Coeff, CoeffV};

/// The index of the first entry with the given key, if any.
pub open spec fn find_key<V>(s: Seq<(Seq<char>, V)>, k: Seq<char>) -> Option<int>
    decreases s.len(),
{
    if s.len() == 0 {
        None
    } else if s[0].0 == k {
        Some(0int)
    } else {
        match find_key(s.drop_first(), k) {
            Some(i) => Some(i + 1),
            None => None,
        }
    }
}

/// The value stored under the given key, if any.
pub open spec fn get_key<V>(s: Seq<(Seq<char>, V)>, k: Seq<char>) -> Option<V> {
    match find_key(s, k) {
        Some(i) => Some(s[i].1),
        None => None,
    }
}

/// Stores a value under a key: overwrites in place when the key is present,
/// appends at the end when it is not.
pub open spec fn set_key<V>(s: Seq<(Seq<char>, V)>, k: Seq<char>, v: V) -> Seq<(Seq<char>, V)> {
    match find_key(s, k) {
        Some(i) => s.update(i, (k, v)),
        None => s.push((k, v)),
    }
}

/// `find_key` returns the index of the first entry with the key, and `None`
/// exactly when no entry has it.
pub proof fn lemma_find_key_props<V>(s: Seq<(Seq<char>, V)>, k: Seq<char>)
    ensures
        match find_key(s, k) {
            Some(i) => 0 <= i < s.len() && s[i].0 == k && (forall|j: int|
                0 <= j < i ==> (#[trigger] s[j]).0 != k),
            None => forall|j: int| 0 <= j < s.len() ==> (#[trigger] s[j]).0 != k,
        },
    decreases s.len(),
{
    if s.len() > 0 && s[0].0 != k {
        let d = s.drop_first();
        lemma_find_key_props(d, k);
        assert(forall|j: int| 1 <= j < s.len() ==> (#[trigger] s[j]) == d[j - 1]);
        match find_key(d, k) {
            Some(i) => {
                assert(find_key(s, k) == Some(i + 1));
                assert(s[i + 1] == d[i]);
                assert(forall|j: int| 0 <= j < i + 1 ==> (#[trigger] s[j]).0 != k);
            },
            None => {
                assert(forall|j: int| 0 <= j < s.len() ==> (#[trigger] s[j]).0 != k);
            },
        }
    }
}

/// If `i` is the first index whose key matches, `find_key` returns it.
pub proof fn lemma_find_key_is<V>(s: Seq<(Seq<char>, V)>, k: Seq<char>, i: int)
    requires
        0 <= i < s.len(),
        s[i].0 == k,
        forall|j: int| 0 <= j < i ==> (#[trigger] s[j]).0 != k,
    ensures
        find_key(s, k) == Some(i),
{
    lemma_find_key_props(s, k);
    match find_key(s, k) {
        Some(fi) => {
            if fi < i {
                assert((s[fi]).0 != k);
            } else if fi > i {
                assert((s[i]).0 != k);
            }
        },
        None => {
            assert((s[i]).0 != k);
        },
    }
}

/// Appends a term to a row's list, creating the list when the row has no
/// entry yet.
pub open spec fn add_term(
    eqns: Seq<(Seq<char>, Seq<TermV>)>,
    row: Seq<char>,
    t: TermV,
) -> Seq<(Seq<char>, Seq<TermV>)> {
    match find_key(eqns, row) {
        Some(i) => eqns.update(i, (row, eqns[i].1.push(t))),
        None => eqns.push((row, seq![t])),
    }
}

/// The first pass of the join: each declared row opens an empty term list
/// and records its operator tag.
pub open spec fn rows_pass(
    eqns: Seq<(Seq<char>, Seq<TermV>)>,
    types: Seq<(Seq<char>, Seq<char>)>,
    rows: Seq<RowDeclV>,
) -> (Seq<(Seq<char>, Seq<TermV>)>, Seq<(Seq<char>, Seq<char>)>)
    decreases rows.len(),
{
    if rows.len() == 0 {
        (eqns, types)
    } else {
        rows_pass(
            set_key(eqns, rows[0].name, Seq::<TermV>::empty()),
            set_key(types, rows[0].name, rows[0].op),
            rows.drop_first(),
        )
    }
}

/// The second pass of the join: each column entry appends its term to its
/// row's list; a row never declared gets its list — and an unknown, empty
/// operator tag — synthesised on the fly.
pub open spec fn cols_pass(
    eqns: Seq<(Seq<char>, Seq<TermV>)>,
    types: Seq<(Seq<char>, Seq<char>)>,
    cols: Seq<ColumnEntryV>,
) -> (Seq<(Seq<char>, Seq<TermV>)>, Seq<(Seq<char>, Seq<char>)>)
    decreases cols.len(),
{
    if cols.len() == 0 {
        (eqns, types)
    } else {
        let c = cols[0];
        let eqns2 = add_term(eqns, c.row, TermV { var: c.var, coeff: c.coeff });
        let types2 = if find_key(types, c.row) is Some {
            types
        } else {
            types.push((c.row, Seq::<char>::empty()))
        };
        cols_pass(eqns2, types2, cols.drop_first())
    }
}

/// The third pass of the join: each right-hand-side entry sets its row's
/// value, later entries silently overwriting earlier ones.
pub open spec fn rhs_pass(
    rvals: Seq<(Seq<char>, CoeffV)>,
    ents: Seq<RhsEntryV>,
) -> Seq<(Seq<char>, CoeffV)>
    decreases ents.len(),
{
    if ents.len() == 0 {
        rvals
    } else {
        rhs_pass(set_key(rvals, ents[0].row, ents[0].value), ents.drop_first())
    }
}

/// The whole join: equations, row types and right-hand-side values built
/// from the three flat collections.
pub open spec fn build_all(rows: Seq<RowDeclV>, cols: Seq<ColumnEntryV>, rhs: Seq<RhsEntryV>) -> (
    Seq<(Seq<char>, Seq<TermV>)>,
    Seq<(Seq<char>, Seq<char>)>,
    Seq<(Seq<char>, CoeffV)>,
) {
    let (e1, t1) = rows_pass(Seq::empty(), Seq::empty(), rows);
    let (e2, t2) = cols_pass(e1, t1, cols);
    (e2, t2, rhs_pass(Seq::empty(), rhs))
}

/// The join is a function of the three collections alone: equal inputs give
/// byte-identical equation term lists, row types and right-hand-side
/// values, however often it is repeated.
pub proof fn lemma_join_deterministic(
    rows1: Seq<RowDeclV>,
    cols1: Seq<ColumnEntryV>,
    rhs1: Seq<RhsEntryV>,
    rows2: Seq<RowDeclV>,
    cols2: Seq<ColumnEntryV>,
    rhs2: Seq<RhsEntryV>,
)
    requires
        rows1 == rows2,
        cols1 == cols2,
        rhs1 == rhs2,
    ensures
        build_all(rows1, cols1, rhs1) == build_all(rows2, cols2, rhs2),
{
}

/// The index of the first equation for the given row name, if any.
fn find_eqn(eqns: &Vec<(String, Vec<Term>)>, k: &str) -> (r: Option<usize>)
    ensures
        match r {
            Some(i) => i < eqns@.len() && find_key(eqns_view(eqns@), k@) == Some(i as int),
            None => find_key(eqns_view(eqns@), k@) is None,
        },
{
    let mut i: usize = 0;
    while i < eqns.len()
        invariant
            i <= eqns@.len(),
            forall|j: int| 0 <= j < i ==> (#[trigger] eqns_view(eqns@)[j]).0 != k@,
        decreases eqns@.len() - i,
    {
        if str_eq(eqns[i].0.as_str(), k) {
            proof {
                assert(eqns_view(eqns@)[i as int].0 == eqns@[i as int].0@);
                lemma_find_key_is(eqns_view(eqns@), k@, i as int);
            }
            return Some(i);
        }
        i = i + 1;
    }
    proof {
        lemma_find_key_props(eqns_view(eqns@), k@);
    }
    None
}

/// The index of the first row-type entry for the given row name, if any.
pub(crate) fn find_type(types: &Vec<(String, String)>, k: &str) -> (r: Option<usize>)
    ensures
        match r {
            Some(i) => i < types@.len() && find_key(types_view(types@), k@) == Some(i as int),
            None => find_key(types_view(types@), k@) is None,
        },
{
    let mut i: usize = 0;
    while i < types.len()
        invariant
            i <= types@.len(),
            forall|j: int| 0 <= j < i ==> (#[trigger] types_view(types@)[j]).0 != k@,
        decreases types@.len() - i,
    {
        if str_eq(types[i].0.as_str(), k) {
            proof {
                assert(types_view(types@)[i as int].0 == types@[i as int].0@);
                lemma_find_key_is(types_view(types@), k@, i as int);
            }
            return Some(i);
        }
        i = i + 1;
    }
    proof {
        lemma_find_key_props(types_view(types@), k@);
    }
    None
}

/// The index of the first right-hand-side value for the given row name, if
/// any.
pub(crate) fn find_rval(rvals: &Vec<(String, Coeff)>, k: &str) -> (r: Option<usize>)
    ensures
        match r {
            Some(i) => i < rvals@.len() && find_key(rvals_view(rvals@), k@) == Some(i as int),
            None => find_key(rvals_view(rvals@), k@) is None,
        },
{
    let mut i: usize = 0;
    while i < rvals.len()
        invariant
            i <= rvals@.len(),
            forall|j: int| 0 <= j < i ==> (#[trigger] rvals_view(rvals@)[j]).0 != k@,
        decreases rvals@.len() - i,
    {
        if str_eq(rvals[i].0.as_str(), k) {
            proof {
                assert(rvals_view(rvals@)[i as int].0 == rvals@[i as int].0@);
                lemma_find_key_is(rvals_view(rvals@), k@, i as int);
            }
            return Some(i);
        }
        i = i + 1;
    }
    proof {
        lemma_find_key_props(rvals_view(rvals@), k@);
    }
    None
}

impl Mps {
    /// Performs the join, as [`build_all`] specifies: rebuilds the
    /// equation, row-type and right-hand-side lists from the parsed
    /// collections, which it leaves untouched.
    pub fn interpret(&mut self)
        ensures
            ({
                let (e, t, rv) = build_all(
                    rows_view(old(self).rows@),
                    cols_view(old(self).columns@),
                    rhsents_view(old(self).rhs@),
                );
                eqns_view(final(self).eqns@) == e && types_view(final(self).etypes@) == t
                    && rvals_view(final(self).rrhs@) == rv
            }),
            final(self).name == old(self).name,
            final(self).rows == old(self).rows,
            final(self).columns == old(self).columns,
            final(self).rhs == old(self).rhs,
    {
        self.eqns = Vec::new();
        self.etypes = Vec::new();
        self.rrhs = Vec::new();
        let ghost rdecls = rows_view(self.rows@);
        let ghost centries = cols_view(self.columns@);
        let ghost hentries = rhsents_view(self.rhs@);
        proof {
            assert(eqns_view(self.eqns@) =~= Seq::<(Seq<char>, Seq<TermV>)>::empty());
            assert(types_view(self.etypes@) =~= Seq::<(Seq<char>, Seq<char>)>::empty());
            assert(rvals_view(self.rrhs@) =~= Seq::<(Seq<char>, CoeffV)>::empty());
            assert(rdecls.skip(0) =~= rdecls);
        }
        let nr = self.rows.len();
        let mut i: usize = 0;
        while i < nr
            invariant
                i <= nr,
                nr == self.rows@.len(),
                self.name == old(self).name,
                self.rows == old(self).rows,
                self.columns == old(self).columns,
                self.rhs == old(self).rhs,
                rdecls == rows_view(self.rows@),
                self.rrhs@ == Seq::<(String, Coeff)>::empty(),
                rows_pass(eqns_view(self.eqns@), types_view(self.etypes@), rdecls.skip(i as int))
                    == rows_pass(
                    Seq::<(Seq<char>, Seq<TermV>)>::empty(),
                    Seq::<(Seq<char>, Seq<char>)>::empty(),
                    rdecls,
                ),
            decreases nr - i,
        {
            let ghost pre_eqns = eqns_view(self.eqns@);
            let ghost pre_types = types_view(self.etypes@);
            proof {
                assert(rdecls.skip(i as int)[0] == rdecls[i as int]);
                assert(rdecls.skip(i as int).drop_first() =~= rdecls.skip(i as int + 1));
            }
            let name = self.rows[i].name.clone();
            let op = self.rows[i].op.clone();
            match find_eqn(&self.eqns, name.as_str()) {
                Some(j) => {
                    let slot = &mut self.eqns[j];
                    *slot = (name.clone(), Vec::new());
                    proof {
                        assert(eqns_view(self.eqns@) =~~= pre_eqns.update(
                            j as int,
                            (rdecls[i as int].name, Seq::<TermV>::empty()),
                        ));
                    }
                },
                None => {
                    self.eqns.push((name.clone(), Vec::new()));
                    proof {
                        assert(eqns_view(self.eqns@) =~~= pre_eqns.push(
                            (rdecls[i as int].name, Seq::<TermV>::empty()),
                        ));
                    }
                },
            }
            match find_type(&self.etypes, name.as_str()) {
                Some(j) => {
                    let slot = &mut self.etypes[j];
                    *slot = (name, op);
                    proof {
                        assert(types_view(self.etypes@) =~~= pre_types.update(
                            j as int,
                            (rdecls[i as int].name, rdecls[i as int].op),
                        ));
                    }
                },
                None => {
                    self.etypes.push((name, op));
                    proof {
                        assert(types_view(self.etypes@) =~~= pre_types.push(
                            (rdecls[i as int].name, rdecls[i as int].op),
                        ));
                    }
                },
            }
            proof {
                assert(eqns_view(self.eqns@) == set_key(
                    pre_eqns,
                    rdecls[i as int].name,
                    Seq::<TermV>::empty(),
                ));
                assert(types_view(self.etypes@) == set_key(
                    pre_types,
                    rdecls[i as int].name,
                    rdecls[i as int].op,
                ));
            }
            i = i + 1;
        }
        proof {
            assert(rdecls.skip(nr as int) =~= Seq::<RowDeclV>::empty());
            assert(centries.skip(0) =~= centries);
        }
        let ghost after_rows = rows_pass(
            Seq::<(Seq<char>, Seq<TermV>)>::empty(),
            Seq::<(Seq<char>, Seq<char>)>::empty(),
            rdecls,
        );
        let nc = self.columns.len();
        let mut i2: usize = 0;
        while i2 < nc
            invariant
                i2 <= nc,
                nc == self.columns@.len(),
                self.name == old(self).name,
                self.rows == old(self).rows,
                self.columns == old(self).columns,
                self.rhs == old(self).rhs,
                centries == cols_view(self.columns@),
                self.rrhs@ == Seq::<(String, Coeff)>::empty(),
                cols_pass(eqns_view(self.eqns@), types_view(self.etypes@), centries.skip(i2 as int))
                    == cols_pass(after_rows.0, after_rows.1, centries),
            decreases nc - i2,
        {
            let ghost pre_eqns = eqns_view(self.eqns@);
            let ghost pre_types = types_view(self.etypes@);
            proof {
                assert(centries.skip(i2 as int)[0] == centries[i2 as int]);
                assert(centries.skip(i2 as int).drop_first() =~= centries.skip(i2 as int + 1));
            }
            let row = self.columns[i2].row.clone();
            let term = Term {
                var: self.columns[i2].var.clone(),
                coeff: self.columns[i2].coeff.clone(),
            };
            proof {
                assert(term@ == TermV {
                    var: centries[i2 as int].var,
                    coeff: centries[i2 as int].coeff,
                });
            }
            match find_eqn(&self.eqns, row.as_str()) {
                Some(j) => {
                    let ghost old_terms = eqns_view(self.eqns@)[j as int].1;
                    proof {
                        lemma_find_key_props(pre_eqns, centries[i2 as int].row);
                        assert(pre_eqns[j as int].0 == centries[i2 as int].row);
                    }
                    let slot = &mut self.eqns[j];
                    slot.1.push(term);
                    proof {
                        assert(eqns_view(self.eqns@) =~~= pre_eqns.update(
                            j as int,
                            (centries[i2 as int].row, old_terms.push(term@)),
                        ));
                    }
                },
                None => {
                    let mut tl: Vec<Term> = Vec::new();
                    tl.push(term);
                    self.eqns.push((row.clone(), tl));
                    proof {
                        assert(eqns_view(self.eqns@) =~~= pre_eqns.push(
                            (
                                centries[i2 as int].row,
                                seq![
                                    TermV {
                                        var: centries[i2 as int].var,
                                        coeff: centries[i2 as int].coeff,
                                    },
                                ],
                            ),
                        ));
                    }
                },
            }
            match find_type(&self.etypes, row.as_str()) {
                Some(j) => {
                },
                None => {
                    self.etypes.push((row, String::new()));
                    proof {
                        assert(types_view(self.etypes@) =~~= pre_types.push(
                            (centries[i2 as int].row, Seq::<char>::empty()),
                        ));
                    }
                },
            }
            proof {
                assert(eqns_view(self.eqns@) == add_term(
                    pre_eqns,
                    centries[i2 as int].row,
                    TermV { var: centries[i2 as int].var, coeff: centries[i2 as int].coeff },
                ));
            }
            i2 = i2 + 1;
        }
        proof {
            assert(centries.skip(nc as int) =~= Seq::<ColumnEntryV>::empty());
            assert(hentries.skip(0) =~= hentries);
        }
        let nh = self.rhs.len();
        let mut i3: usize = 0;
        while i3 < nh
            invariant
                i3 <= nh,
                nh == self.rhs@.len(),
                self.name == old(self).name,
                self.rows == old(self).rows,
                self.columns == old(self).columns,
                self.rhs == old(self).rhs,
                hentries == rhsents_view(self.rhs@),
                eqns_view(self.eqns@) == cols_pass(after_rows.0, after_rows.1, centries).0,
                types_view(self.etypes@) == cols_pass(after_rows.0, after_rows.1, centries).1,
                rhs_pass(rvals_view(self.rrhs@), hentries.skip(i3 as int)) == rhs_pass(
                    Seq::<(Seq<char>, CoeffV)>::empty(),
                    hentries,
                ),
            decreases nh - i3,
        {
            let ghost pre_rvals = rvals_view(self.rrhs@);
            proof {
                assert(hentries.skip(i3 as int)[0] == hentries[i3 as int]);
                assert(hentries.skip(i3 as int).drop_first() =~= hentries.skip(i3 as int + 1));
            }
            let row = self.rhs[i3].row.clone();
            let value = self.rhs[i3].value.clone();
            match find_rval(&self.rrhs, row.as_str()) {
                Some(j) => {
                    let slot = &mut self.rrhs[j];
                    *slot = (row, value);
                    proof {
                        assert(rvals_view(self.rrhs@) =~~= pre_rvals.update(
                            j as int,
                            (hentries[i3 as int].row, hentries[i3 as int].value),
                        ));
                    }
                },
                None => {
                    self.rrhs.push((row, value));
                    proof {
                        assert(rvals_view(self.rrhs@) =~~= pre_rvals.push(
                            (hentries[i3 as int].row, hentries[i3 as int].value),
                        ));
                    }
                },
            }
            proof {
                assert(rvals_view(self.rrhs@) == set_key(
                    pre_rvals,
                    hentries[i3 as int].row,
                    hentries[i3 as int].value,
                ));
            }
            i3 = i3 + 1;
        }
        proof {
            assert(hentries.skip(nh as int) =~= Seq::<RhsEntryV>::empty());
        }
    }
}

} // verus!
