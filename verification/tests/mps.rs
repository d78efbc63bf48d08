use mps2lp::lexer::tokenize;
use mps2lp::model::{Mps, Term};
use mps2lp::mps_to_lp;
use mps2lp::number::Coeff;
use mps2lp::render::make_eqn;

fn lines(v: &[&str]) -> Vec<String> {
    let mut out: Vec<String> = Vec::new();
    for s in v {
        out.push(s.to_string());
    }
    out
}

fn coeff(neg: bool, int_digits: &str, frac_digits: &str) -> Coeff {
    Coeff { neg, int_digits: int_digits.to_string(), frac_digits: frac_digits.to_string() }
}

fn term(var: &str, c: Coeff) -> Term {
    Term { var: var.to_string(), coeff: c }
}

#[test]
fn tokenize_splits_on_whitespace() {
    let toks = tokenize("  N  COST ");
    assert_eq!(toks, vec!["N".to_string(), "COST".to_string()]);
    let none = tokenize("   ");
    assert!(none.is_empty());
}

#[test]
fn parse_coeff_canonicalizes() {
    let c = mps2lp::number::parse_coeff("2").unwrap();
    assert!(!c.neg);
    assert_eq!(c.int_digits, "2");
    assert_eq!(c.frac_digits, "");

    let c = mps2lp::number::parse_coeff("007.2500").unwrap();
    assert!(!c.neg);
    assert_eq!(c.int_digits, "7");
    assert_eq!(c.frac_digits, "25");

    let c = mps2lp::number::parse_coeff("-1").unwrap();
    assert!(c.neg);
    assert_eq!(c.int_digits, "1");
    assert_eq!(c.frac_digits, "");

    let c = mps2lp::number::parse_coeff("-0.0").unwrap();
    assert!(!c.neg);
    assert_eq!(c.int_digits, "0");
    assert_eq!(c.frac_digits, "");

    let c = mps2lp::number::parse_coeff("+.5").unwrap();
    assert!(!c.neg);
    assert_eq!(c.int_digits, "0");
    assert_eq!(c.frac_digits, "5");

    let c = mps2lp::number::parse_coeff("10").unwrap();
    assert_eq!(c.int_digits, "10");
}

#[test]
fn parse_coeff_rejects_bad_text() {
    assert!(mps2lp::number::parse_coeff("abc").is_none());
    assert!(mps2lp::number::parse_coeff("").is_none());
    assert!(mps2lp::number::parse_coeff(".").is_none());
    assert!(mps2lp::number::parse_coeff("-").is_none());
    assert!(mps2lp::number::parse_coeff("1.2.3").is_none());
    assert!(mps2lp::number::parse_coeff("1x").is_none());
}

#[test]
fn rows_line_even_count() {
    let m = Mps::parse(&lines(&["ROWS", " N COST L LIM"])).unwrap();
    assert_eq!(m.rows.len(), 2);
    assert_eq!(m.rows[0].op, "N");
    assert_eq!(m.rows[0].name, "COST");
    assert_eq!(m.rows[1].op, "L");
    assert_eq!(m.rows[1].name, "LIM");
}

#[test]
fn rows_line_trailing_token_dropped() {
    let m = Mps::parse(&lines(&["ROWS", " N COST L"])).unwrap();
    assert_eq!(m.rows.len(), 1);
    assert_eq!(m.rows[0].name, "COST");
}

#[test]
fn columns_line_pair_count() {
    let m = Mps::parse(&lines(&["COLUMNS", " X COST 2 LIM"])).unwrap();
    assert_eq!(m.columns.len(), 1);
    assert_eq!(m.columns[0].var, "X");
    assert_eq!(m.columns[0].row, "COST");
    assert_eq!(m.columns[0].coeff.int_digits, "2");

    let m = Mps::parse(&lines(&["COLUMNS", " X COST 2 LIM 3"])).unwrap();
    assert_eq!(m.columns.len(), 2);
}

#[test]
fn rhs_line_pair_count() {
    let m = Mps::parse(&lines(&["RHS", " RHS1 LIM 10 COST"])).unwrap();
    assert_eq!(m.rhs.len(), 1);
    assert_eq!(m.rhs[0].label, "RHS1");
    assert_eq!(m.rhs[0].row, "LIM");
    assert_eq!(m.rhs[0].value.int_digits, "10");
}

#[test]
fn objective_round_trip() {
    let out = mps_to_lp(&lines(&["ROWS", " N COST", "COLUMNS", " X COST 2"])).unwrap();
    assert_eq!(out, "Optimize\n    COST:  2*X\nSubject To\nBounds\nEnd");
}

#[test]
fn constraint_round_trip() {
    let out = mps_to_lp(&lines(&[
        "ROWS",
        " L LIM",
        "COLUMNS",
        " X LIM 1",
        "RHS",
        " RHS1 LIM 10",
    ]))
    .unwrap();
    assert_eq!(out, "Optimize\nSubject To\n    LIM:  X <= 10\nBounds\nEnd");
}

#[test]
fn minus_one_renders_sign_only() {
    let eqn = make_eqn(&vec![term("X", coeff(true, "1", ""))]);
    assert_eq!(eqn, " - X");
}

#[test]
fn plus_one_first_renders_bare() {
    let eqn = make_eqn(&vec![term("X", coeff(false, "1", ""))]);
    assert_eq!(eqn, " X");
}

#[test]
fn signed_sum_rendering() {
    let eqn = make_eqn(&vec![
        term("X", coeff(false, "2", "")),
        term("Y", coeff(true, "3", "5")),
        term("Z", coeff(false, "1", "")),
    ]);
    assert_eq!(eqn, " 2*X - 3.5*Y + Z");
}

#[test]
fn rhs_defaults_to_zero() {
    let out = mps_to_lp(&lines(&["ROWS", " L LIM", "COLUMNS", " X LIM 1"])).unwrap();
    assert_eq!(out, "Optimize\nSubject To\n    LIM:  X <= 0\nBounds\nEnd");
}

#[test]
fn join_is_deterministic() {
    let mut m = Mps::parse(&lines(&[
        "ROWS",
        " N COST L LIM",
        "COLUMNS",
        " X COST 2 LIM 1",
        " Y COST 3",
        "RHS",
        " R LIM 10",
    ]))
    .unwrap();
    m.interpret();
    let first = m.text();
    m.interpret();
    let second = m.text();
    assert_eq!(first, second);
}

#[test]
fn numeric_error_reports_first_bad_token() {
    let r = Mps::parse(&lines(&["COLUMNS", " X A 1 B bad C 2"]));
    match r {
        Err(e) => assert_eq!(e.token, "bad"),
        Ok(_) => panic!("expected a numeric parse error"),
    }
}

#[test]
fn name_header_records_trimmed_name() {
    let m = Mps::parse(&lines(&["NAME   test problem  ", "ROWS", " N COST"])).unwrap();
    assert_eq!(m.name, "test problem");
    assert_eq!(m.rows.len(), 1);
}

#[test]
fn unknown_header_keyword_keeps_state() {
    let m = Mps::parse(&lines(&["ROWS", " N COST", "FOO BAR", " L LIM"])).unwrap();
    assert_eq!(m.rows.len(), 2);
}

#[test]
fn undeclared_row_is_synthesized() {
    let out = mps_to_lp(&lines(&["ROWS", " N COST", "COLUMNS", " X COST 1 MYST 2"])).unwrap();
    assert_eq!(
        out,
        "Optimize\n    COST:  X\nSubject To\n    MYST:  2*X  0\nBounds\nEnd"
    );
}

#[test]
fn later_rhs_entry_overwrites() {
    let out = mps_to_lp(&lines(&[
        "ROWS",
        " L LIM",
        "COLUMNS",
        " X LIM 1",
        "RHS",
        " R LIM 5",
        " R LIM 7",
    ]))
    .unwrap();
    assert_eq!(out, "Optimize\nSubject To\n    LIM:  X <= 7\nBounds\nEnd");
}

#[test]
fn bounds_lines_are_discarded() {
    let out = mps_to_lp(&lines(&[
        "ROWS",
        " N COST",
        "COLUMNS",
        " X COST 2",
        "BOUNDS",
        " UP B X 4",
    ]))
    .unwrap();
    assert_eq!(out, "Optimize\n    COST:  2*X\nSubject To\nBounds\nEnd");
}

#[test]
fn equality_and_ge_operators_render() {
    let out = mps_to_lp(&lines(&[
        "ROWS",
        " E EQ G GE",
        "COLUMNS",
        " X EQ 1 GE 2",
        "RHS",
        " R EQ 4 GE 5",
    ]))
    .unwrap();
    assert_eq!(
        out,
        "Optimize\nSubject To\n    EQ:  X = 4\n    GE:  2*X >= 5\nBounds\nEnd"
    );
}

#[test]
fn duplicate_row_declaration_resets_terms() {
    let mut m = Mps::parse(&lines(&["ROWS", " N C N C"])).unwrap();
    m.interpret();
    let out = m.text();
    assert_eq!(out, "Optimize\n    C: \nSubject To\nBounds\nEnd");
}

#[test]
fn tab_indented_line_is_a_header() {
    let m = Mps::parse(&lines(&["ROWS", "\t L LIM", " N COST"])).unwrap();
    assert_eq!(m.rows.len(), 1);
    assert_eq!(m.rows[0].name, "COST");
}

#[test]
fn negative_rhs_renders_with_sign() {
    let out = mps_to_lp(&lines(&[
        "ROWS",
        " G LOW",
        "COLUMNS",
        " X LOW 1",
        "RHS",
        " R LOW -2.5",
    ]))
    .unwrap();
    assert_eq!(out, "Optimize\nSubject To\n    LOW:  X >= -2.5\nBounds\nEnd");
}
