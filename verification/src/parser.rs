//! The MPS section parser.
//!
//! A line without leading whitespace is a header line: its first token
//! selects the next section (`NAME` also records the problem name and
//! returns to the idle state; an unrecognised keyword is recoverable and
//! keeps the current section).  Any other line is a data line of the current
//! section: `ROWS` lines yield operator/name pairs, `COLUMNS` and `RHS`
//! lines yield a leading label and row/value pairs, and a dangling unpaired
//! token is dropped.  A paired value field that is not valid decimal text is
//! fatal.
//!
//! The whole pass is specified by [`run_lines`], a fold of [`line_step`]
//! over the file's lines, and implemented by [`Mps::parse`].

use vstd::prelude::*;

verus! {

use vstd::string::StrSliceExecFns;
use crate::lexer::{
    is_space,
    skip_spaces,
    drop_nonspace,
    tokens_of,
    trim_of,
    strs_view,
    tokenize,
    trim,
    str_eq,
    first_nonspace,
    nonspace_end,
    lemma_tokens_none,
    lemma_tokens_first,
    lemma_skip_spaces_at,
    lemma_nonspace_run,
};
use crate::number::{valid_number, coeff_of, parse_coeff, Coeff};
use crate::model::{
    Mps,
    Section,
    NumericParseError,
    RowDecl,
    RowDeclV,
    ColumnEntry,
    ColumnEntryV,
    RhsEntry,
    RhsEntryV,
    Term,
    rows_view,
    cols_view,
    rhsents_view,
};

/// The state of the section parser: the current section and everything
/// accumulated so far.
pub ghost struct ParseSt {
    pub section: Section,
    pub name: Seq<char>,
    pub rows: Seq<RowDeclV>,
    pub columns: Seq<ColumnEntryV>,
    pub rhs: Seq<RhsEntryV>,
}

/// The state before any line has been read.
pub open spec fn init_state() -> ParseSt {
    ParseSt {
        section: Section::Idle,
        name: Seq::empty(),
        rows: Seq::empty(),
        columns: Seq::empty(),
        rhs: Seq::empty(),
    }
}

/// A header line is one that does not begin with a space.
pub open spec fn is_header_line(line: Seq<char>) -> bool {
    !(line.len() > 0 && line[0] == ' ')
}

/// The line after its first token: what a `NAME` header records (trimmed)
/// as the problem name.
pub open spec fn rest_after_token(line: Seq<char>) -> Seq<char> {
    drop_nonspace(skip_spaces(line))
}

/// The effect of a header line: the first token selects the next section;
/// `NAME` records the problem name and returns to idle; an empty line or an
/// unrecognised keyword leaves the state unchanged.
pub open spec fn header_step(st: ParseSt, line: Seq<char>) -> ParseSt {
    let toks = tokens_of(line);
    if toks.len() == 0 {
        st
    } else if toks[0] == "NAME"@ {
        ParseSt {
            section: Section::Idle,
            name: trim_of(rest_after_token(line)),
            rows: st.rows,
            columns: st.columns,
            rhs: st.rhs,
        }
    } else if toks[0] == "ROWS"@ {
        ParseSt { section: Section::Rows, ..st }
    } else if toks[0] == "COLUMNS"@ {
        ParseSt { section: Section::Columns, ..st }
    } else if toks[0] == "RHS"@ {
        ParseSt { section: Section::Rhs, ..st }
    } else if toks[0] == "BOUNDS"@ {
        ParseSt { section: Section::Bounds, ..st }
    } else if toks[0] == "ENDATA"@ {
        ParseSt { section: Section::Endata, ..st }
    } else {
        st
    }
}

/// The row declarations of a `ROWS` data line: its tokens taken in
/// (operator, name) pairs; a dangling final token has no pair and is
/// dropped.
pub open spec fn row_pairs(toks: Seq<Seq<char>>) -> Seq<RowDeclV> {
    Seq::new(toks.len() / 2, |i: int| RowDeclV { op: toks[2 * i], name: toks[2 * i + 1] })
}

/// How many (row, value) pairs follow the leading label of a `COLUMNS` or
/// `RHS` data line.
pub open spec fn pair_count(toks: Seq<Seq<char>>) -> nat {
    if toks.len() == 0 {
        0
    } else {
        ((toks.len() - 1) / 2) as nat
    }
}

/// Every paired value field of the line is valid decimal text.
pub open spec fn pairs_valid(toks: Seq<Seq<char>>) -> bool {
    forall|i: int| 0 <= i < pair_count(toks) ==> valid_number(#[trigger] toks[2 * i + 2])
}

/// The column entries of a `COLUMNS` data line: the first token is the
/// variable, and each (row, value) pair binds it to a row with an exact
/// decimal coefficient.
pub open spec fn col_entries(toks: Seq<Seq<char>>) -> Seq<ColumnEntryV> {
    Seq::new(
        pair_count(toks),
        |i: int|
            ColumnEntryV { var: toks[0], row: toks[2 * i + 1], coeff: coeff_of(toks[2 * i + 2]) },
    )
}

/// The right-hand-side entries of an `RHS` data line: the first token is
/// the set label, and each (row, value) pair gives a row's value.
pub open spec fn rhs_entries(toks: Seq<Seq<char>>) -> Seq<RhsEntryV> {
    Seq::new(
        pair_count(toks),
        |i: int|
            RhsEntryV { label: toks[0], row: toks[2 * i + 1], value: coeff_of(toks[2 * i + 2]) },
    )
}

/// The first paired value field, from pair `i` on, that is not valid
/// decimal text.
pub open spec fn first_invalid_from(toks: Seq<Seq<char>>, i: int) -> Seq<char>
    decreases pair_count(toks) - i,
{
    if i < 0 || i >= pair_count(toks) {
        Seq::empty()
    } else if !valid_number(toks[2 * i + 2]) {
        toks[2 * i + 2]
    } else {
        first_invalid_from(toks, i + 1)
    }
}

/// The first paired value field of the line that is not valid decimal text.
pub open spec fn first_invalid(toks: Seq<Seq<char>>) -> Seq<char> {
    first_invalid_from(toks, 0)
}

pub proof fn lemma_first_invalid_at(toks: Seq<Seq<char>>, j: int, p: int)
    requires
        0 <= j <= p < pair_count(toks),
        forall|i: int| j <= i < p ==> valid_number(#[trigger] toks[2 * i + 2]),
        !valid_number(toks[2 * p + 2]),
    ensures
        first_invalid_from(toks, j) == toks[2 * p + 2],
    decreases p - j,
{
    if j < p {
        lemma_first_invalid_at(toks, j + 1, p);
    }
}

/// A well-formed `ROWS` data line yields one row declaration per complete
/// token pair: with an even token count, exactly half the tokens.
pub proof fn lemma_row_decl_count(toks: Seq<Seq<char>>)
    ensures
        row_pairs(toks).len() == toks.len() / 2,
        toks.len() % 2 == 0 ==> 2 * row_pairs(toks).len() == toks.len(),
{
}

/// A `COLUMNS` or `RHS` data line yields one entry per complete pair after
/// its label: `(tokenCount - 1) / 2` of them when the line has any tokens.
pub proof fn lemma_entry_count(toks: Seq<Seq<char>>)
    ensures
        col_entries(toks).len() == pair_count(toks),
        rhs_entries(toks).len() == pair_count(toks),
        toks.len() > 0 ==> pair_count(toks) == ((toks.len() - 1) / 2) as nat,
        toks.len() == 0 ==> pair_count(toks) == 0,
{
}

/// A dangling unpaired token is dropped without error: appending one more
/// token to a `ROWS` line of complete pairs, or to a `COLUMNS`/`RHS` line
/// of a label and complete pairs, changes neither the produced entries nor
/// their validity.
pub proof fn lemma_trailing_token_dropped(toks: Seq<Seq<char>>, extra: Seq<char>)
    requires
        toks.len() % 2 == 1,
    ensures
        row_pairs(toks.drop_last()) == row_pairs(toks),
        pair_count(toks.push(extra)) == pair_count(toks),
        col_entries(toks.push(extra)) == col_entries(toks),
        rhs_entries(toks.push(extra)) == rhs_entries(toks),
        pairs_valid(toks.push(extra)) == pairs_valid(toks),
{
    let t2 = toks.push(extra);
    assert(row_pairs(toks.drop_last()) =~= row_pairs(toks));
    assert(pair_count(t2) == pair_count(toks));
    assert(col_entries(t2) =~= col_entries(toks));
    assert(rhs_entries(t2) =~= rhs_entries(toks));
    if pairs_valid(t2) {
        assert forall|i: int| 0 <= i < pair_count(toks) implies valid_number(
            #[trigger] toks[2 * i + 2],
        ) by {
            assert(toks[2 * i + 2] == t2[2 * i + 2]);
            assert(valid_number(t2[2 * i + 2]));
        }
        assert(pairs_valid(toks));
    }
    if pairs_valid(toks) {
        assert forall|i: int| 0 <= i < pair_count(t2) implies valid_number(
            #[trigger] t2[2 * i + 2],
        ) by {
            assert(t2[2 * i + 2] == toks[2 * i + 2]);
            assert(valid_number(toks[2 * i + 2]));
        }
        assert(pairs_valid(t2));
    }
}

/// The effect of a data line on the current section's collection.  In the
/// `BOUNDS` and `ENDATA` sections (and before any section) data lines are
/// read and discarded.
pub open spec fn data_step(st: ParseSt, line: Seq<char>) -> Result<ParseSt, Seq<char>> {
    let toks = tokens_of(line);
    match st.section {
        Section::Rows => Ok(ParseSt { rows: st.rows + row_pairs(toks), ..st }),
        Section::Columns => if pairs_valid(toks) {
            Ok(ParseSt { columns: st.columns + col_entries(toks), ..st })
        } else {
            Err(first_invalid(toks))
        },
        Section::Rhs => if pairs_valid(toks) {
            Ok(ParseSt { rhs: st.rhs + rhs_entries(toks), ..st })
        } else {
            Err(first_invalid(toks))
        },
        _ => Ok(st),
    }
}

/// The effect of one line of the file.
pub open spec fn line_step(st: ParseSt, line: Seq<char>) -> Result<ParseSt, Seq<char>> {
    if is_header_line(line) {
        Ok(header_step(st, line))
    } else {
        data_step(st, line)
    }
}

/// The section parser: a fold of [`line_step`] over the file's lines.
/// An error carries the offending value token and aborts the run.
pub open spec fn run_lines(st: ParseSt, lines: Seq<Seq<char>>) -> Result<ParseSt, Seq<char>>
    decreases lines.len(),
{
    if lines.len() == 0 {
        Ok(st)
    } else {
        match line_step(st, lines[0]) {
            Ok(st2) => run_lines(st2, lines.drop_first()),
            Err(t) => Err(t),
        }
    }
}

/// The parser state that an [`Mps`] value and a current section represent.
pub open spec fn st_of(m: Mps, section: Section) -> ParseSt {
    ParseSt {
        section,
        name: m.name@,
        rows: rows_view(m.rows@),
        columns: cols_view(m.columns@),
        rhs: rhsents_view(m.rhs@),
    }
}

impl Mps {
    /// An empty problem: no name, no facts, no equations.
    pub fn new() -> (m: Mps)
        ensures
            st_of(m, Section::Idle) == init_state(),
            m.eqns@ == Seq::<(String, Vec<Term>)>::empty(),
            m.etypes@ == Seq::<(String, String)>::empty(),
            m.rrhs@ == Seq::<(String, Coeff)>::empty(),
    {
        let m = Mps {
            name: String::new(),
            rows: Vec::new(),
            columns: Vec::new(),
            rhs: Vec::new(),
            eqns: Vec::new(),
            etypes: Vec::new(),
            rrhs: Vec::new(),
        };
        proof {
            assert(rows_view(m.rows@) =~= Seq::<RowDeclV>::empty());
            assert(cols_view(m.columns@) =~= Seq::<ColumnEntryV>::empty());
            assert(rhsents_view(m.rhs@) =~= Seq::<RhsEntryV>::empty());
        }
        m
    }

    /// Consumes a `ROWS` data line: every complete (operator, name) token
    /// pair becomes a row declaration, in order; a dangling token is
    /// dropped.
    pub fn rows(&mut self, line: &str)
        ensures
            rows_view(final(self).rows@) == rows_view(old(self).rows@) + row_pairs(
                tokens_of(line@),
            ),
            final(self).name == old(self).name,
            final(self).columns == old(self).columns,
            final(self).rhs == old(self).rhs,
            final(self).eqns == old(self).eqns,
            final(self).etypes == old(self).etypes,
            final(self).rrhs == old(self).rrhs,
    {
        let toks = tokenize(line);
        let total = toks.len();
        let npairs = total / 2;
        let ghost tv = tokens_of(line@);
        proof {
            assert(rows_view(self.rows@) + row_pairs(tv).take(0) =~= rows_view(self.rows@));
        }
        let mut p: usize = 0;
        while p < npairs
            invariant
                p <= npairs,
                npairs == total / 2,
                total == toks@.len(),
                strs_view(toks@) == tv,
                tv == tokens_of(line@),
                rows_view(self.rows@) == rows_view(old(self).rows@) + row_pairs(tv).take(p as int),
                self.name == old(self).name,
                self.columns == old(self).columns,
                self.rhs == old(self).rhs,
                self.eqns == old(self).eqns,
                self.etypes == old(self).etypes,
                self.rrhs == old(self).rrhs,
            decreases npairs - p,
        {
            proof {
                assert(2 * p + 1 < total);
            }
            let decl = RowDecl { op: toks[2 * p].clone(), name: toks[2 * p + 1].clone() };
            proof {
                assert(decl@ == row_pairs(tv)[p as int]);
                assert(rows_view(self.rows@.push(decl)) =~= rows_view(self.rows@).push(decl@));
                assert(row_pairs(tv).take(p as int + 1) =~= row_pairs(tv).take(p as int).push(
                    row_pairs(tv)[p as int],
                ));
                assert(rows_view(old(self).rows@) + row_pairs(tv).take(p as int + 1) =~= (rows_view(
                    old(self).rows@,
                ) + row_pairs(tv).take(p as int)).push(row_pairs(tv)[p as int]));
            }
            self.rows.push(decl);
            p = p + 1;
        }
        proof {
            assert(row_pairs(tv).take(npairs as int) =~= row_pairs(tv));
        }
    }

    /// Consumes a `COLUMNS` data line.  Succeeds exactly when every paired
    /// value field is valid decimal text, appending one entry per pair;
    /// otherwise reports the first invalid field and leaves the collections
    /// unchanged.
    pub fn columns(&mut self, line: &str) -> (r: Result<(), NumericParseError>)
        ensures
            r is Ok <==> pairs_valid(tokens_of(line@)),
            r is Ok ==> cols_view(final(self).columns@) == cols_view(old(self).columns@)
                + col_entries(tokens_of(line@)),
            r matches Err(e) ==> e.token@ == first_invalid(tokens_of(line@)) && final(self).columns
                == old(self).columns,
            final(self).name == old(self).name,
            final(self).rows == old(self).rows,
            final(self).rhs == old(self).rhs,
            final(self).eqns == old(self).eqns,
            final(self).etypes == old(self).etypes,
            final(self).rrhs == old(self).rrhs,
    {
        let toks = tokenize(line);
        let total = toks.len();
        let npairs = if total == 0 {
            0
        } else {
            (total - 1) / 2
        };
        let ghost tv = tokens_of(line@);
        let mut tmp: Vec<ColumnEntry> = Vec::new();
        proof {
            assert(cols_view(tmp@) =~= col_entries(tv).take(0));
        }
        let mut p: usize = 0;
        while p < npairs
            invariant
                p <= npairs,
                npairs == pair_count(tv),
                total == toks@.len(),
                strs_view(toks@) == tv,
                tv == tokens_of(line@),
                forall|i: int| 0 <= i < p ==> valid_number(#[trigger] tv[2 * i + 2]),
                cols_view(tmp@) == col_entries(tv).take(p as int),
                self.name == old(self).name,
                self.rows == old(self).rows,
                self.columns == old(self).columns,
                self.rhs == old(self).rhs,
                self.eqns == old(self).eqns,
                self.etypes == old(self).etypes,
                self.rrhs == old(self).rrhs,
            decreases npairs - p,
        {
            proof {
                assert(2 * p + 2 < total);
            }
            match parse_coeff(toks[2 * p + 2].as_str()) {
                Some(c) => {
                    let entry = ColumnEntry {
                        var: toks[0].clone(),
                        row: toks[2 * p + 1].clone(),
                        coeff: c,
                    };
                    proof {
                        assert(entry@ == col_entries(tv)[p as int]);
                        assert(cols_view(tmp@.push(entry)) =~= cols_view(tmp@).push(entry@));
                        assert(col_entries(tv).take(p as int + 1) =~= col_entries(tv).take(
                            p as int,
                        ).push(col_entries(tv)[p as int]));
                    }
                    tmp.push(entry);
                    p = p + 1;
                },
                None => {
                    proof {
                        lemma_first_invalid_at(tv, 0, p as int);
                    }
                    return Err(NumericParseError { token: toks[2 * p + 2].clone() });
                },
            }
        }
        proof {
            assert(col_entries(tv).take(npairs as int) =~= col_entries(tv));
            assert(cols_view(self.columns@ + tmp@) =~= cols_view(self.columns@) + cols_view(tmp@));
        }
        self.columns.append(&mut tmp);
        Ok(())
    }

    /// Consumes an `RHS` data line, exactly as [`Mps::columns`] does but
    /// producing right-hand-side entries.
    pub fn rhs(&mut self, line: &str) -> (r: Result<(), NumericParseError>)
        ensures
            r is Ok <==> pairs_valid(tokens_of(line@)),
            r is Ok ==> rhsents_view(final(self).rhs@) == rhsents_view(old(self).rhs@)
                + rhs_entries(tokens_of(line@)),
            r matches Err(e) ==> e.token@ == first_invalid(tokens_of(line@)) && final(self).rhs
                == old(self).rhs,
            final(self).name == old(self).name,
            final(self).rows == old(self).rows,
            final(self).columns == old(self).columns,
            final(self).eqns == old(self).eqns,
            final(self).etypes == old(self).etypes,
            final(self).rrhs == old(self).rrhs,
    {
        let toks = tokenize(line);
        let total = toks.len();
        let npairs = if total == 0 {
            0
        } else {
            (total - 1) / 2
        };
        let ghost tv = tokens_of(line@);
        let mut tmp: Vec<RhsEntry> = Vec::new();
        proof {
            assert(rhsents_view(tmp@) =~= rhs_entries(tv).take(0));
        }
        let mut p: usize = 0;
        while p < npairs
            invariant
                p <= npairs,
                npairs == pair_count(tv),
                total == toks@.len(),
                strs_view(toks@) == tv,
                tv == tokens_of(line@),
                forall|i: int| 0 <= i < p ==> valid_number(#[trigger] tv[2 * i + 2]),
                rhsents_view(tmp@) == rhs_entries(tv).take(p as int),
                self.name == old(self).name,
                self.rows == old(self).rows,
                self.columns == old(self).columns,
                self.rhs == old(self).rhs,
                self.eqns == old(self).eqns,
                self.etypes == old(self).etypes,
                self.rrhs == old(self).rrhs,
            decreases npairs - p,
        {
            proof {
                assert(2 * p + 2 < total);
            }
            match parse_coeff(toks[2 * p + 2].as_str()) {
                Some(c) => {
                    let entry = RhsEntry {
                        label: toks[0].clone(),
                        row: toks[2 * p + 1].clone(),
                        value: c,
                    };
                    proof {
                        assert(entry@ == rhs_entries(tv)[p as int]);
                        assert(rhsents_view(tmp@.push(entry)) =~= rhsents_view(tmp@).push(entry@));
                        assert(rhs_entries(tv).take(p as int + 1) =~= rhs_entries(tv).take(
                            p as int,
                        ).push(rhs_entries(tv)[p as int]));
                    }
                    tmp.push(entry);
                    p = p + 1;
                },
                None => {
                    proof {
                        lemma_first_invalid_at(tv, 0, p as int);
                    }
                    return Err(NumericParseError { token: toks[2 * p + 2].clone() });
                },
            }
        }
        proof {
            assert(rhs_entries(tv).take(npairs as int) =~= rhs_entries(tv));
            assert(rhsents_view(self.rhs@ + tmp@) =~= rhsents_view(self.rhs@) + rhsents_view(
                tmp@,
            ));
        }
        self.rhs.append(&mut tmp);
        Ok(())
    }

    /// Consumes a header line: returns the next section and, for a `NAME`
    /// header, records the trimmed remainder of the line as the problem
    /// name, as [`header_step`] specifies.
    pub fn idle(&mut self, line: &str, cur: Section) -> (next: Section)
        ensures
            next == header_step(st_of(*old(self), cur), line@).section,
            final(self).name@ == header_step(st_of(*old(self), cur), line@).name,
            final(self).rows == old(self).rows,
            final(self).columns == old(self).columns,
            final(self).rhs == old(self).rhs,
            final(self).eqns == old(self).eqns,
            final(self).etypes == old(self).etypes,
            final(self).rrhs == old(self).rrhs,
    {
        let n = line.unicode_len();
        let a = first_nonspace(line, 0);
        if a == n {
            proof {
                lemma_tokens_none(line@);
            }
            return cur;
        }
        let e = nonspace_end(line, a);
        proof {
            assert(e > a) by {
                if e == a {
                    assert(is_space(line@[a as int]));
                }
            }
            lemma_tokens_first(line@, a as int, e as int);
        }
        let tok = line.substring_char(a, e);
        if str_eq(tok, "NAME") {
            let rest = line.substring_char(e, n);
            let trimmed = trim(rest);
            proof {
                lemma_skip_spaces_at(line@, a as int);
                lemma_nonspace_run(line@.skip(a as int), e - a);
                assert(line@.skip(a as int).skip(e - a) =~= line@.skip(e as int));
                assert(rest@ =~= line@.skip(e as int));
            }
            self.name = trimmed;
            return Section::Idle;
        }
        if str_eq(tok, "ROWS") {
            return Section::Rows;
        }
        if str_eq(tok, "COLUMNS") {
            return Section::Columns;
        }
        if str_eq(tok, "RHS") {
            return Section::Rhs;
        }
        if str_eq(tok, "BOUNDS") {
            return Section::Bounds;
        }
        if str_eq(tok, "ENDATA") {
            return Section::Endata;
        }
        cur
    }

    /// Parses a whole MPS document, given as its sequence of lines.  On
    /// success the returned problem holds the name and the three flat
    /// collections that [`run_lines`] specifies, with the join not yet
    /// performed; a numeric parse error aborts the run and reports the
    /// first invalid value token.
    pub fn parse(lines: &Vec<String>) -> (r: Result<Mps, NumericParseError>)
        ensures
            match run_lines(init_state(), strs_view(lines@)) {
                Ok(st) => r matches Ok(m) && m.name@ == st.name && rows_view(m.rows@) == st.rows
                    && cols_view(m.columns@) == st.columns && rhsents_view(m.rhs@) == st.rhs
                    && m.eqns@ == Seq::<(String, Vec<Term>)>::empty() && m.etypes@ == Seq::<
                    (String, String),
                >::empty() && m.rrhs@ == Seq::<(String, Coeff)>::empty(),
                Err(t) => r matches Err(e) && e.token@ == t,
            },
    {
        let mut m = Mps::new();
        let mut section = Section::Idle;
        let nl = lines.len();
        let ghost lv = strs_view(lines@);
        proof {
            assert(lv.skip(0) =~= lv);
        }
        let mut idx: usize = 0;
        while idx < nl
            invariant
                idx <= nl,
                nl == lines@.len(),
                lv == strs_view(lines@),
                m.eqns@ == Seq::<(String, Vec<Term>)>::empty(),
                m.etypes@ == Seq::<(String, String)>::empty(),
                m.rrhs@ == Seq::<(String, Coeff)>::empty(),
                run_lines(init_state(), lv) == run_lines(st_of(m, section), lv.skip(idx as int)),
            decreases nl - idx,
        {
            let ghost pre = st_of(m, section);
            let ghost rest = lv.skip(idx as int);
            proof {
                assert(rest[0] == lines@[idx as int]@);
                assert(rest.drop_first() =~= lv.skip(idx as int + 1));
            }
            let line = lines[idx].as_str();
            let header = line.unicode_len() == 0 || line.get_char(0) != ' ';
            if header {
                section = m.idle(line, section);
                proof {
                    assert(st_of(m, section) == header_step(pre, line@));
                    assert(run_lines(pre, rest) == run_lines(
                        st_of(m, section),
                        lv.skip(idx as int + 1),
                    ));
                }
            } else {
                match section {
                    Section::Rows => {
                        m.rows(line);
                        proof {
                            assert(st_of(m, section) == data_step(pre, line@)->Ok_0);
                        }
                    },
                    Section::Columns => {
                        match m.columns(line) {
                            Ok(u) => {
                                proof {
                                    assert(st_of(m, section) == data_step(pre, line@)->Ok_0);
                                }
                            },
                            Err(e) => {
                                proof {
                                    assert(run_lines(pre, rest) == Err::<ParseSt, Seq<char>>(
                                        first_invalid(tokens_of(line@)),
                                    ));
                                }
                                return Err(e);
                            },
                        }
                    },
                    Section::Rhs => {
                        match m.rhs(line) {
                            Ok(u) => {
                                proof {
                                    assert(st_of(m, section) == data_step(pre, line@)->Ok_0);
                                }
                            },
                            Err(e) => {
                                proof {
                                    assert(run_lines(pre, rest) == Err::<ParseSt, Seq<char>>(
                                        first_invalid(tokens_of(line@)),
                                    ));
                                }
                                return Err(e);
                            },
                        }
                    },
                    Section::Idle => {
                        proof {
                            assert(st_of(m, section) == data_step(pre, line@)->Ok_0);
                        }
                    },
                    Section::Bounds => {
                        proof {
                            assert(st_of(m, section) == data_step(pre, line@)->Ok_0);
                        }
                    },
                    Section::Endata => {
                        proof {
                            assert(st_of(m, section) == data_step(pre, line@)->Ok_0);
                        }
                    },
                }
                proof {
                    assert(run_lines(pre, rest) == run_lines(
                        st_of(m, section),
                        lv.skip(idx as int + 1),
                    ));
                }
            }
            idx = idx + 1;
        }
        proof {
            assert(lv.skip(nl as int) =~= Seq::<Seq<char>>::empty());
        }
        Ok(m)
    }
}

} // verus!
