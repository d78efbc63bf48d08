//! The LP-format renderer.
//!
//! A row's term list is rendered as a signed sum: each term emits a sign
//! token (`-` when negative, `+` when positive and not first, nothing when
//! positive and first), then — unless the coefficient's absolute value is
//! exactly one — the absolute value and a `*`, then the variable name, all
//! joined by single spaces with one leading space before the list.  Rows
//! typed `N` go under `Optimize`; every other row goes under `Subject To`
//! with its relational operator (`=`, `>=`, `<=`, or nothing for an unknown
//! tag) and its right-hand-side value, `0` when the row has none.  The
//! `Bounds` block is always empty.

use vstd::prelude::*;

verus! {

use vstd::string::StrSliceExecFns;
use vstd::string::StringExecFns;
use crate::lexer::str_eq;
use crate::model::{Mps, Term, TermV, eqns_view, types_view, rvals_view, terms_view};
use crate::number::{CoeffV, abs_text, full_text, is_unit};
use crate::join::{get_key, find_type, find_rval};

/// The sign token of a term, with its trailing separator: `- ` for a
/// negative coefficient, `+ ` for a positive one that is not the first
/// term, nothing for a positive first term.
pub open spec fn sign_blank(neg: bool, first: bool) -> Seq<char> {
    if neg {
        "-"@ + " "@
    } else if !first {
        "+"@ + " "@
    } else {
        Seq::empty()
    }
}

/// The body of a rendered term: the variable alone when the coefficient's
/// absolute value is one, else the absolute value, a `*`, and the variable.
pub open spec fn term_body(t: TermV) -> Seq<char> {
    if is_unit(t.coeff) {
        t.var
    } else {
        abs_text(t.coeff) + "*"@ + t.var
    }
}

/// One rendered term, with its leading space.
pub open spec fn term_text(t: TermV, first: bool) -> Seq<char> {
    " "@ + sign_blank(t.coeff.neg, first) + term_body(t)
}

/// A row's whole rendered term list.
pub open spec fn eqn_text(terms: Seq<TermV>) -> Seq<char>
    decreases terms.len(),
{
    if terms.len() == 0 {
        Seq::empty()
    } else {
        eqn_text(terms.drop_last()) + term_text(terms.last(), terms.len() == 1)
    }
}

/// The relational operator symbol of a row's operator tag; unknown tags
/// render as nothing.
pub open spec fn op_symbol(op: Seq<char>) -> Seq<char> {
    if op == "E"@ {
        "="@
    } else if op == "G"@ {
        ">="@
    } else if op == "L"@ {
        "<="@
    } else {
        Seq::empty()
    }
}

/// A row's operator tag in the row-type list; unknown rows have the empty
/// tag.
pub open spec fn type_of(types: Seq<(Seq<char>, Seq<char>)>, name: Seq<char>) -> Seq<char> {
    match get_key(types, name) {
        Some(op) => op,
        None => Seq::empty(),
    }
}

/// A row's rendered right-hand side: its value, or `0` when the row has no
/// entry.
pub open spec fn rhs_text(rvals: Seq<(Seq<char>, CoeffV)>, name: Seq<char>) -> Seq<char> {
    match get_key(rvals, name) {
        Some(c) => full_text(c),
        None => "0"@,
    }
}

/// One objective line under `Optimize`.
pub open spec fn obj_line(name: Seq<char>, terms: Seq<TermV>) -> Seq<char> {
    "    "@ + name + ": "@ + eqn_text(terms) + "\n"@
}

/// One constraint line under `Subject To`.
pub open spec fn con_line(
    name: Seq<char>,
    terms: Seq<TermV>,
    types: Seq<(Seq<char>, Seq<char>)>,
    rvals: Seq<(Seq<char>, CoeffV)>,
) -> Seq<char> {
    "    "@ + name + ": "@ + eqn_text(terms) + " "@ + op_symbol(type_of(types, name)) + " "@
        + rhs_text(rvals, name) + "\n"@
}

/// The objective lines: one for each row typed `N`, in row order.
pub open spec fn opt_lines(
    eqns: Seq<(Seq<char>, Seq<TermV>)>,
    types: Seq<(Seq<char>, Seq<char>)>,
) -> Seq<char>
    decreases eqns.len(),
{
    if eqns.len() == 0 {
        Seq::empty()
    } else {
        opt_lines(eqns.drop_last(), types) + if type_of(types, eqns.last().0) == "N"@ {
            obj_line(eqns.last().0, eqns.last().1)
        } else {
            Seq::<char>::empty()
        }
    }
}

/// The constraint lines: one for each row not typed `N`, in row order.
pub open spec fn con_lines(
    eqns: Seq<(Seq<char>, Seq<TermV>)>,
    types: Seq<(Seq<char>, Seq<char>)>,
    rvals: Seq<(Seq<char>, CoeffV)>,
) -> Seq<char>
    decreases eqns.len(),
{
    if eqns.len() == 0 {
        Seq::empty()
    } else {
        con_lines(eqns.drop_last(), types, rvals) + if type_of(types, eqns.last().0) == "N"@ {
            Seq::<char>::empty()
        } else {
            con_line(eqns.last().0, eqns.last().1, types, rvals)
        }
    }
}

/// The whole LP document.
pub open spec fn render_text(
    eqns: Seq<(Seq<char>, Seq<TermV>)>,
    types: Seq<(Seq<char>, Seq<char>)>,
    rvals: Seq<(Seq<char>, CoeffV)>,
) -> Seq<char> {
    "Optimize\n"@ + opt_lines(eqns, types) + "Subject To\n"@ + con_lines(eqns, types, rvals)
        + "Bounds\n"@ + "End"@
}

/// A coefficient of exactly minus one renders as the sign token alone
/// before the variable — no magnitude digit — wherever the term stands.
pub proof fn lemma_minus_one_renders_bare(t: TermV, first: bool)
    requires
        t.coeff.neg,
        t.coeff.int_digits == seq!['1'],
        t.coeff.frac_digits.len() == 0,
    ensures
        term_text(t, first) == " "@ + ("-"@ + " "@) + t.var,
{
}

/// A coefficient of exactly one as the first term renders as the variable
/// alone after the leading space — no sign, no magnitude digit.
pub proof fn lemma_one_first_renders_bare(t: TermV)
    requires
        !t.coeff.neg,
        t.coeff.int_digits == seq!['1'],
        t.coeff.frac_digits.len() == 0,
    ensures
        term_text(t, true) == " "@ + t.var,
{
    assert(" "@ + Seq::<char>::empty() + t.var =~= " "@ + t.var);
}

/// A row with no right-hand-side entry renders its right-hand side as `0`.
pub proof fn lemma_rhs_default_zero(rvals: Seq<(Seq<char>, CoeffV)>, name: Seq<char>)
    requires
        get_key(rvals, name) is None,
    ensures
        rhs_text(rvals, name) == "0"@,
{
}

/// Renders a row's term list, as [`eqn_text`] specifies.
pub fn make_eqn(terms: &Vec<Term>) -> (r: String)
    ensures
        r@ == eqn_text(terms_view(terms@)),
{
    let ghost tv = terms_view(terms@);
    let mut s = String::new();
    proof {
        assert(tv.take(0) =~= Seq::<TermV>::empty());
    }
    let n = terms.len();
    let mut i: usize = 0;
    while i < n
        invariant
            i <= n,
            n == terms@.len(),
            tv == terms_view(terms@),
            s@ == eqn_text(tv.take(i as int)),
        decreases n - i,
    {
        let ghost pre = s@;
        let t = &terms[i];
        s.append(" ");
        if t.coeff.neg {
            s.append("-");
            s.append(" ");
        } else if i != 0 {
            s.append("+");
            s.append(" ");
        }
        if t.coeff.unit_abs() {
            s.append(t.var.as_str());
        } else {
            let a = t.coeff.render_abs();
            s.append(a.as_str());
            s.append("*");
            s.append(t.var.as_str());
        }
        proof {
            assert(tv[i as int] == terms@[i as int]@);
            assert(s@ =~= pre + term_text(tv[i as int], i == 0));
            assert(tv.take(i as int + 1).drop_last() =~= tv.take(i as int));
            assert(tv.take(i as int + 1).last() == tv[i as int]);
            assert((tv.take(i as int + 1).len() == 1) == (i == 0));
        }
        i = i + 1;
    }
    proof {
        assert(tv.take(n as int) =~= tv);
    }
    s
}

impl Mps {
    /// Renders the whole problem as LP text, as [`render_text`] specifies:
    /// rows typed `N` under `Optimize` in row order, all other rows under
    /// `Subject To` with their operator symbol and right-hand side, an
    /// empty `Bounds` block, and a closing `End`.
    #[verifier::rlimit(100)]
    pub fn text(&self) -> (r: String)
        ensures
            r@ == render_text(
                eqns_view(self.eqns@),
                types_view(self.etypes@),
                rvals_view(self.rrhs@),
            ),
    {
        let ghost ev = eqns_view(self.eqns@);
        let ghost tyv = types_view(self.etypes@);
        let ghost rvv = rvals_view(self.rrhs@);
        let mut optimize = String::new();
        let mut st = String::new();
        proof {
            assert(ev.take(0) =~= Seq::<(Seq<char>, Seq<TermV>)>::empty());
        }
        let n = self.eqns.len();
        let mut i: usize = 0;
        while i < n
            invariant
                i <= n,
                n == self.eqns@.len(),
                ev == eqns_view(self.eqns@),
                tyv == types_view(self.etypes@),
                rvv == rvals_view(self.rrhs@),
                optimize@ == opt_lines(ev.take(i as int), tyv),
                st@ == con_lines(ev.take(i as int), tyv, rvv),
            decreases n - i,
        {
            let ghost pre_opt = optimize@;
            let ghost pre_st = st@;
            let name = self.eqns[i].0.clone();
            let eqn = make_eqn(&self.eqns[i].1);
            let ty: String = match find_type(&self.etypes, name.as_str()) {
                Some(j) => self.etypes[j].1.clone(),
                None => String::new(),
            };
            proof {
                assert(ev[i as int].0 == self.eqns@[i as int].0@);
                assert(ev[i as int].1 == terms_view(self.eqns@[i as int].1@));
                assert(ty@ == type_of(tyv, ev[i as int].0));
            }
            if str_eq(ty.as_str(), "N") {
                optimize.append("    ");
                optimize.append(name.as_str());
                optimize.append(": ");
                optimize.append(eqn.as_str());
                optimize.append("\n");
                proof {
                    assert(optimize@ =~= pre_opt + obj_line(ev[i as int].0, ev[i as int].1));
                }
            } else {
                st.append("    ");
                st.append(name.as_str());
                st.append(": ");
                st.append(eqn.as_str());
                st.append(" ");
                if str_eq(ty.as_str(), "E") {
                    st.append("=");
                } else if str_eq(ty.as_str(), "G") {
                    st.append(">=");
                } else if str_eq(ty.as_str(), "L") {
                    st.append("<=");
                }
                st.append(" ");
                match find_rval(&self.rrhs, name.as_str()) {
                    Some(j) => {
                        let v = self.rrhs[j].1.render_full();
                        st.append(v.as_str());
                        proof {
                            assert(rvv[j as int].1 == self.rrhs@[j as int].1@);
                            assert(rhs_text(rvv, ev[i as int].0) == full_text(rvv[j as int].1));
                        }
                    },
                    None => {
                        st.append("0");
                    },
                }
                st.append("\n");
                proof {
                    assert(st@ =~= pre_st + con_line(ev[i as int].0, ev[i as int].1, tyv, rvv));
                }
            }
            proof {
                assert(ev.take(i as int + 1).drop_last() =~= ev.take(i as int));
                assert(ev.take(i as int + 1).last() == ev[i as int]);
            }
            i = i + 1;
        }
        proof {
            assert(ev.take(n as int) =~= ev);
        }
        let mut out = String::new();
        out.append("Optimize\n");
        out.append(optimize.as_str());
        out.append("Subject To\n");
        out.append(st.as_str());
        out.append("Bounds\n");
        out.append("End");
        out
    }
}

} // verus!
