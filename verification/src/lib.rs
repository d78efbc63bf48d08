//! Translator from the MPS linear-program text format to the free-form LP
//! (CPLEX-style) text format.
//!
//! The library is organised as two verified components consumed in
//! sequence: a section parser that folds the raw line sequence into flat
//! collections of row declarations, column coefficients and right-hand-side
//! values ([`parser`]), and an equation builder and renderer that joins
//! those collections by row label and prints the problem as LP text
//! ([`join`], [`render`]).  Numeric coefficients are kept as exact decimal
//! digit strings ([`number`]); tokenisation of data lines lives in
//! [`lexer`].

pub mod join;
pub mod lexer;
pub mod model;
pub mod number;
pub mod parser;
pub mod render;

use vstd::prelude::*;

verus! {

use crate::lexer::strs_view;
use crate::model::{Mps, NumericParseError};
use crate::parser::{run_lines, init_state};
use crate::join::build_all;
use crate::render::render_text;

/// Translates a whole MPS document, given as its sequence of lines, into
/// LP text: parse, join, render.  Fails exactly when some paired value
/// field of a `COLUMNS` or `RHS` data line is not valid decimal text, and
/// then reports the first such token in scan order.
pub fn mps_to_lp(lines: &Vec<String>) -> (r: Result<String, NumericParseError>)
    ensures
        match run_lines(init_state(), strs_view(lines@)) {
            Ok(st) => r matches Ok(out) && ({
                let (eq, ty, rv) = build_all(st.rows, st.columns, st.rhs);
                out@ == render_text(eq, ty, rv)
            }),
            Err(t) => r matches Err(e) && e.token@ == t,
        },
{
    let mut m = match Mps::parse(lines) {
        Ok(parsed) => parsed,
        Err(e) => {
            return Err(e);
        },
    };
    m.interpret();
    Ok(m.text())
}

} // verus!
