//! The data model of the translator.
//!
//! The section parser accumulates three flat collections of facts read from
//! the file — row declarations, column coefficients, right-hand-side values —
//! and the equation builder joins them into ordered, row-keyed association
//! lists.  Every exec type has a ghost view over `Seq<char>` models.

use vstd::prelude::*;

verus! {

use crate::number::{Coeff, CoeffV};

/// One declared row: its operator tag (`N`, `E`, `G`, `L`, or whatever the
/// file held) and its name.
pub struct RowDecl {
    pub op: String,
    pub name: String,
}

/// The model of a [`RowDecl`].
pub ghost struct RowDeclV {
    pub op: Seq<char>,
    pub name: Seq<char>,
}

impl View for RowDecl {
    type V = RowDeclV;

    open spec fn view(&self) -> RowDeclV {
        RowDeclV { op: self.op@, name: self.name@ }
    }
}

/// One (variable, row, coefficient) fact from the `COLUMNS` section.
pub struct ColumnEntry {
    pub var: String,
    pub row: String,
    pub coeff: Coeff,
}

/// The model of a [`ColumnEntry`].
pub ghost struct ColumnEntryV {
    pub var: Seq<char>,
    pub row: Seq<char>,
    pub coeff: CoeffV,
}

impl View for ColumnEntry {
    type V = ColumnEntryV;

    open spec fn view(&self) -> ColumnEntryV {
        ColumnEntryV { var: self.var@, row: self.row@, coeff: self.coeff@ }
    }
}

/// One (set label, row, value) fact from the `RHS` section.
pub struct RhsEntry {
    pub label: String,
    pub row: String,
    pub value: Coeff,
}

/// The model of an [`RhsEntry`].
pub ghost struct RhsEntryV {
    pub label: Seq<char>,
    pub row: Seq<char>,
    pub value: CoeffV,
}

impl View for RhsEntry {
    type V = RhsEntryV;

    open spec fn view(&self) -> RhsEntryV {
        RhsEntryV { label: self.label@, row: self.row@, value: self.value@ }
    }
}

/// One additive term of an equation: a variable and its coefficient.
pub struct Term {
    pub var: String,
    pub coeff: Coeff,
}

/// The model of a [`Term`].
pub ghost struct TermV {
    pub var: Seq<char>,
    pub coeff: CoeffV,
}

impl View for Term {
    type V = TermV;

    open spec fn view(&self) -> TermV {
        TermV { var: self.var@, coeff: self.coeff@ }
    }
}

pub open spec fn rows_view(v: Seq<RowDecl>) -> Seq<RowDeclV> {
    v.map_values(|r: RowDecl| r@)
}

pub open spec fn cols_view(v: Seq<ColumnEntry>) -> Seq<ColumnEntryV> {
    v.map_values(|c: ColumnEntry| c@)
}

pub open spec fn rhsents_view(v: Seq<RhsEntry>) -> Seq<RhsEntryV> {
    v.map_values(|e: RhsEntry| e@)
}

pub open spec fn terms_view(v: Seq<Term>) -> Seq<TermV> {
    v.map_values(|t: Term| t@)
}

/// View of the equation list: row name to ordered term list.
pub open spec fn eqns_view(v: Seq<(String, Vec<Term>)>) -> Seq<(Seq<char>, Seq<TermV>)> {
    v.map_values(|p: (String, Vec<Term>)| (p.0@, terms_view(p.1@)))
}

/// View of the row-type list: row name to operator tag.
pub open spec fn types_view(v: Seq<(String, String)>) -> Seq<(Seq<char>, Seq<char>)> {
    v.map_values(|p: (String, String)| (p.0@, p.1@))
}

/// View of the right-hand-side value list: row name to value.
pub open spec fn rvals_view(v: Seq<(String, Coeff)>) -> Seq<(Seq<char>, CoeffV)> {
    v.map_values(|p: (String, Coeff)| (p.0@, p.1@))
}

/// The section a line of the file belongs to.  `Idle` is the initial state
/// and the state after a `NAME` header.
#[derive(Clone, Copy)]
pub enum Section {
    Idle,
    Rows,
    Columns,
    Rhs,
    Bounds,
    Endata,
}

/// The fatal parse error: a paired coefficient field of a `COLUMNS` or
/// `RHS` data line was not valid decimal text.
#[derive(Debug)]
pub struct NumericParseError {
    pub token: String,
}

/// The whole problem: the flat collections filled by the section parser,
/// and the row-keyed association lists built by the equation builder.
pub struct Mps {
    pub name: String,
    pub rows: Vec<RowDecl>,
    pub columns: Vec<ColumnEntry>,
    pub rhs: Vec<RhsEntry>,
    pub eqns: Vec<(String, Vec<Term>)>,
    pub etypes: Vec<(String, String)>,
    pub rrhs: Vec<(String, Coeff)>,
}

} // verus!
