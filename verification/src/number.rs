//! Exact decimal coefficients.
//!
//! A coefficient or right-hand-side field of an MPS file is decimal text:
//! an optional sign, integer digits, and an optional fraction after a dot.
//! The library keeps such a value exactly, as a sign with canonical digit
//! strings — no leading zeros before the point, no trailing zeros after it,
//! and a non-negative zero — so that rendering reproduces the plain decimal
//! form of the value.

use vstd::prelude::*;

verus! {

use vstd::string::StrSliceExecFns;
use vstd::string::StringExecFns;
use crate::lexer::str_eq;

/// A decimal digit.
pub open spec fn is_digit(c: char) -> bool {
    (c as u32) >= ('0' as u32) && (c as u32) <= ('9' as u32)
}

/// Executable test for [`is_digit`].
pub fn is_digit_ch(c: char) -> (r: bool)
    ensures
        r == is_digit(c),
{
    (c as u32) >= ('0' as u32) && (c as u32) <= ('9' as u32)
}

/// Every character of the sequence is a decimal digit.
pub open spec fn all_digits(s: Seq<char>) -> bool {
    forall|i: int| 0 <= i < s.len() ==> is_digit(#[trigger] s[i])
}

/// The token starts with an explicit sign character.
pub open spec fn has_sign(s: Seq<char>) -> bool {
    s.len() > 0 && (s[0] == '+' || s[0] == '-')
}

/// The token with its sign character, if any, removed.
pub open spec fn body_of(s: Seq<char>) -> Seq<char> {
    if has_sign(s) {
        s.drop_first()
    } else {
        s
    }
}

/// The characters of the unsigned body before its first dot.
pub open spec fn int_raw(b: Seq<char>) -> Seq<char>
    decreases b.len(),
{
    if b.len() == 0 || b[0] == '.' {
        Seq::empty()
    } else {
        seq![b[0]] + int_raw(b.drop_first())
    }
}

/// The characters of the unsigned body after its first dot.
pub open spec fn frac_raw(b: Seq<char>) -> Seq<char>
    decreases b.len(),
{
    if b.len() == 0 {
        Seq::empty()
    } else if b[0] == '.' {
        b.drop_first()
    } else {
        frac_raw(b.drop_first())
    }
}

/// The unsigned body contains a dot.
pub open spec fn has_dot(b: Seq<char>) -> bool
    decreases b.len(),
{
    b.len() > 0 && (b[0] == '.' || has_dot(b.drop_first()))
}

/// Valid decimal text: an optional sign, then digits with at most one dot
/// among them and at least one digit in all.
pub open spec fn valid_number(s: Seq<char>) -> bool {
    let b = body_of(s);
    all_digits(int_raw(b)) && all_digits(frac_raw(b)) && int_raw(b).len() + frac_raw(b).len() >= 1
}

/// Removes leading `'0'` characters, keeping at least one character.
pub open spec fn strip_leading_zeros(s: Seq<char>) -> Seq<char>
    decreases s.len(),
{
    if s.len() > 1 && s[0] == '0' {
        strip_leading_zeros(s.drop_first())
    } else {
        s
    }
}

/// Removes trailing `'0'` characters.
pub open spec fn strip_trailing_zeros(s: Seq<char>) -> Seq<char>
    decreases s.len(),
{
    if s.len() > 0 && s.last() == '0' {
        strip_trailing_zeros(s.drop_last())
    } else {
        s
    }
}

/// The canonical integer digits of the token: its integer part without
/// leading zeros, or `"0"` when the integer part is empty.
pub open spec fn canon_int(s: Seq<char>) -> Seq<char> {
    strip_leading_zeros(seq!['0'] + int_raw(body_of(s)))
}

/// The canonical fraction digits of the token: its fraction part without
/// trailing zeros.
pub open spec fn canon_frac(s: Seq<char>) -> Seq<char> {
    strip_trailing_zeros(frac_raw(body_of(s)))
}

/// The token denotes the value zero.
pub open spec fn canon_is_zero(s: Seq<char>) -> bool {
    canon_int(s) == seq!['0'] && canon_frac(s).len() == 0
}

/// The canonical sign: negative exactly when the token carries a minus sign
/// and does not denote zero.
pub open spec fn canon_neg(s: Seq<char>) -> bool {
    s.len() > 0 && s[0] == '-' && !canon_is_zero(s)
}

/// The mathematical model of a [`Coeff`]: a sign and the two canonical
/// digit strings.
pub ghost struct CoeffV {
    pub neg: bool,
    pub int_digits: Seq<char>,
    pub frac_digits: Seq<char>,
}

/// The model of the coefficient that valid decimal text denotes.
pub open spec fn coeff_of(s: Seq<char>) -> CoeffV {
    CoeffV { neg: canon_neg(s), int_digits: canon_int(s), frac_digits: canon_frac(s) }
}

/// An exact decimal number: a sign and canonical digit strings for the
/// integer and fraction parts of its absolute value.
pub struct Coeff {
    pub neg: bool,
    pub int_digits: String,
    pub frac_digits: String,
}

impl View for Coeff {
    type V = CoeffV;

    open spec fn view(&self) -> CoeffV {
        CoeffV {
            neg: self.neg,
            int_digits: self.int_digits@,
            frac_digits: self.frac_digits@,
        }
    }
}

impl Clone for Coeff {
    fn clone(&self) -> (r: Self)
        ensures
            r == *self,
    {
        Coeff {
            neg: self.neg,
            int_digits: self.int_digits.clone(),
            frac_digits: self.frac_digits.clone(),
        }
    }
}

/// The absolute value of the coefficient rendered as decimal text.
pub open spec fn abs_text(c: CoeffV) -> Seq<char> {
    if c.frac_digits.len() == 0 {
        c.int_digits
    } else {
        c.int_digits + "."@ + c.frac_digits
    }
}

/// The signed value of the coefficient rendered as decimal text.
pub open spec fn full_text(c: CoeffV) -> Seq<char> {
    if c.neg {
        "-"@ + abs_text(c)
    } else {
        abs_text(c)
    }
}

/// The coefficient's absolute value is exactly one.
pub open spec fn is_unit(c: CoeffV) -> bool {
    c.int_digits == seq!['1'] && c.frac_digits.len() == 0
}

impl Coeff {
    /// Renders the absolute value, as [`abs_text`] specifies.
    pub fn render_abs(&self) -> (r: String)
        ensures
            r@ == abs_text(self@),
    {
        let mut s = self.int_digits.clone();
        if self.frac_digits.as_str().unicode_len() > 0 {
            s.append(".");
            s.append(self.frac_digits.as_str());
        }
        s
    }

    /// Renders the signed value, as [`full_text`] specifies.
    pub fn render_full(&self) -> (r: String)
        ensures
            r@ == full_text(self@),
    {
        let mut s = String::new();
        if self.neg {
            s.append("-");
        }
        let a = self.render_abs();
        s.append(a.as_str());
        s
    }

    /// The absolute value is exactly one, as [`is_unit`] specifies.
    pub fn unit_abs(&self) -> (r: bool)
        ensures
            r == is_unit(self@),
    {
        proof {
            reveal_strlit("1");
            assert(("1")@ =~= seq!['1']);
        }
        let one = str_eq(self.int_digits.as_str(), "1");
        one && self.frac_digits.as_str().unicode_len() == 0
    }
}

/// `int_raw`, `frac_raw` and `has_dot` split the body at its first dot.
pub proof fn lemma_int_frac_at(b: Seq<char>, j: int)
    requires
        0 <= j <= b.len(),
        forall|k: int| 0 <= k < j ==> #[trigger] b[k] != '.',
        j == b.len() || b[j] == '.',
    ensures
        int_raw(b) == b.take(j),
        has_dot(b) == (j < b.len()),
        frac_raw(b) == if j < b.len() {
            b.skip(j + 1)
        } else {
            Seq::<char>::empty()
        },
    decreases j,
{
    if j == 0 {
        assert(int_raw(b) =~= b.take(0));
        if b.len() > 0 {
            assert(b[0] == '.');
            assert(frac_raw(b) =~= b.skip(1));
        }
    } else {
        assert(b[0] != '.');
        let d = b.drop_first();
        assert(forall|k: int| 0 <= k < j - 1 ==> #[trigger] d[k] != '.');
        lemma_int_frac_at(d, j - 1);
        assert(seq![b[0]] + d.take(j - 1) =~= b.take(j));
        if j < b.len() {
            assert(d.skip(j) =~= b.skip(j + 1));
        }
    }
}

/// Prefixing a zero does not change the canonical form of a non-empty
/// digit string.
pub proof fn lemma_strip_leading_cons0(r: Seq<char>)
    requires
        r.len() >= 1,
    ensures
        strip_leading_zeros(seq!['0'] + r) == strip_leading_zeros(r),
{
    let z = seq!['0'] + r;
    assert(z.len() > 1 && z[0] == '0');
    assert(z.drop_first() =~= r);
}

/// `strip_leading_zeros` removes exactly the leading zeros, keeping the
/// last character.
pub proof fn lemma_strip_leading_at(r: Seq<char>, k: int)
    requires
        0 <= k < r.len(),
        forall|m: int| 0 <= m < k ==> #[trigger] r[m] == '0',
        k == r.len() - 1 || r[k] != '0',
    ensures
        strip_leading_zeros(r) == r.skip(k),
    decreases k,
{
    if k == 0 {
        if r.len() > 1 {
            assert(r[0] != '0');
        }
        assert(strip_leading_zeros(r) =~= r.skip(0)) by {
            assert(r.skip(0) =~= r);
        }
    } else {
        assert(r[0] == '0');
        let d = r.drop_first();
        assert(forall|m: int| 0 <= m < k - 1 ==> #[trigger] d[m] == '0');
        lemma_strip_leading_at(d, k - 1);
        assert(d.skip(k - 1) =~= r.skip(k));
    }
}

/// `strip_trailing_zeros` removes exactly the trailing zeros.
pub proof fn lemma_strip_trailing_zeros_at(r: Seq<char>, t: int)
    requires
        0 <= t <= r.len(),
        forall|m: int| t <= m < r.len() ==> #[trigger] r[m] == '0',
        t == 0 || r[t - 1] != '0',
    ensures
        strip_trailing_zeros(r) == r.take(t),
    decreases r.len(),
{
    if t == r.len() {
        assert(strip_trailing_zeros(r) =~= r.take(t)) by {
            assert(r.take(t) =~= r);
        }
    } else {
        assert(r.last() == '0');
        let d = r.drop_last();
        assert(forall|m: int| t <= m < d.len() ==> #[trigger] d[m] == '0');
        lemma_strip_trailing_zeros_at(d, t);
        assert(d.take(t) =~= r.take(t));
    }
}

/// The index of the first `'.'` at or after `from`, or the length.
fn first_dot(s: &str, from: usize) -> (r: usize)
    requires
        from <= s@.len(),
    ensures
        from <= r <= s@.len(),
        forall|k: int| from <= k < r ==> #[trigger] s@[k] != '.',
        r < s@.len() ==> s@[r as int] == '.',
{
    let n = s.unicode_len();
    let mut i = from;
    loop
        invariant
            from <= i <= n,
            n == s@.len(),
            forall|k: int| from <= k < i ==> #[trigger] s@[k] != '.',
        ensures
            from <= i <= n,
            forall|k: int| from <= k < i ==> #[trigger] s@[k] != '.',
            i < n ==> s@[i as int] == '.',
        decreases n - i,
    {
        if i < n {
            if s.get_char(i) == '.' {
                break;
            } else {
                i = i + 1;
            }
        } else {
            break;
        }
    }
    i
}

/// Whether every character in `[from, to)` is a decimal digit.
fn digits_range(s: &str, from: usize, to: usize) -> (r: bool)
    requires
        from <= to <= s@.len(),
    ensures
        r == forall|k: int| from <= k < to ==> is_digit(#[trigger] s@[k]),
{
    let mut i = from;
    while i < to
        invariant
            from <= i <= to,
            to <= s@.len(),
            forall|k: int| from <= k < i ==> is_digit(#[trigger] s@[k]),
        decreases to - i,
    {
        if !is_digit_ch(s.get_char(i)) {
            assert(!is_digit(s@[i as int]));
            return false;
        }
        i = i + 1;
    }
    true
}

/// The end of the run of leading zeros in `[from, to)`, stopping before the
/// last index so that one character always remains.
fn leading_zero_end(s: &str, from: usize, to: usize) -> (r: usize)
    requires
        from < to <= s@.len(),
    ensures
        from <= r < to,
        forall|m: int| from <= m < r ==> #[trigger] s@[m] == '0',
        r == to - 1 || s@[r as int] != '0',
{
    let mut i = from;
    loop
        invariant
            from <= i < to,
            to <= s@.len(),
            forall|m: int| from <= m < i ==> #[trigger] s@[m] == '0',
        ensures
            from <= i < to,
            forall|m: int| from <= m < i ==> #[trigger] s@[m] == '0',
            i == to - 1 || s@[i as int] != '0',
        decreases to - i,
    {
        if i < to - 1 {
            if s.get_char(i) == '0' {
                i = i + 1;
            } else {
                break;
            }
        } else {
            break;
        }
    }
    i
}

/// The start of the run of trailing zeros in `[from, to)`.
fn trailing_zero_start(s: &str, from: usize, to: usize) -> (r: usize)
    requires
        from <= to <= s@.len(),
    ensures
        from <= r <= to,
        forall|m: int| r <= m < to ==> #[trigger] s@[m] == '0',
        r == from || s@[r - 1] != '0',
{
    let mut i = to;
    loop
        invariant
            from <= i <= to,
            to <= s@.len(),
            forall|m: int| i <= m < to ==> #[trigger] s@[m] == '0',
        ensures
            from <= i <= to,
            forall|m: int| i <= m < to ==> #[trigger] s@[m] == '0',
            i == from || s@[i - 1] != '0',
        decreases i,
    {
        if i > from {
            if s.get_char(i - 1) == '0' {
                i = i - 1;
            } else {
                break;
            }
        } else {
            break;
        }
    }
    i
}

/// Parses a coefficient token.  Returns the exact decimal value when the
/// token is valid decimal text, and `None` otherwise.
pub fn parse_coeff(tok: &str) -> (r: Option<Coeff>)
    ensures
        r is Some <==> valid_number(tok@),
        r matches Some(c) ==> c@ == coeff_of(tok@),
{
    let n = tok.unicode_len();
    let mut o: usize = 0;
    let mut neg_raw = false;
    if n > 0 {
        let c0 = tok.get_char(0);
        if c0 == '-' {
            o = 1;
            neg_raw = true;
        } else if c0 == '+' {
            o = 1;
        }
    }
    let ghost b = body_of(tok@);
    proof {
        assert(b =~= tok@.skip(o as int));
    }
    let d = first_dot(tok, o);
    proof {
        assert(forall|k: int| 0 <= k < d - o ==> #[trigger] b[k] != '.');
        lemma_int_frac_at(b, d - o);
    }
    if !digits_range(tok, o, d) {
        proof {
            let bad = choose|k: int| o <= k < d && !is_digit(tok@[k]);
            assert(int_raw(b)[bad - o] == tok@[bad]);
            assert(!all_digits(int_raw(b)));
        }
        return None;
    }
    if d < n {
        if !digits_range(tok, d + 1, n) {
            proof {
                let bad = choose|k: int| d + 1 <= k < n && !is_digit(tok@[k]);
                assert(frac_raw(b)[bad - (d + 1)] == tok@[bad]);
                assert(!all_digits(frac_raw(b)));
            }
            return None;
        }
    }
    let int_len = d - o;
    let frac_len = if d < n {
        n - d - 1
    } else {
        0
    };
    if int_len == 0 && frac_len == 0 {
        proof {
            assert(int_raw(b).len() + frac_raw(b).len() == 0);
        }
        return None;
    }
    proof {
        assert(all_digits(int_raw(b))) by {
            assert(forall|k: int|
                0 <= k < int_raw(b).len() ==> is_digit(#[trigger] int_raw(b)[k]) == is_digit(
                    tok@[k + o],
                ));
        }
        assert(all_digits(frac_raw(b))) by {
            if d < n {
                assert(forall|k: int|
                    0 <= k < frac_raw(b).len() ==> is_digit(#[trigger] frac_raw(b)[k]) == is_digit(
                        tok@[k + d + 1],
                    ));
            }
        }
        assert(valid_number(tok@));
    }
    let int_str: String = if d == o {
        proof {
            reveal_strlit("0");
            assert(seq!['0'] + int_raw(b) =~= seq!['0']);
            assert(("0")@ =~= seq!['0']);
        }
        String::from_str("0")
    } else {
        let k = leading_zero_end(tok, o, d);
        proof {
            let raw = int_raw(b);
            assert(raw =~= tok@.subrange(o as int, d as int));
            lemma_strip_leading_cons0(raw);
            assert(forall|m: int| 0 <= m < k - o ==> #[trigger] raw[m] == '0');
            lemma_strip_leading_at(raw, k - o);
            assert(raw.skip(k - o) =~= tok@.subrange(k as int, d as int));
        }
        tok.substring_char(k, d).to_owned()
    };
    let frac_str: String = if d < n {
        let e = trailing_zero_start(tok, d + 1, n);
        proof {
            let fr = frac_raw(b);
            assert(fr =~= tok@.skip(d + 1));
            assert(forall|m: int|
                e - (d + 1) <= m < fr.len() ==> #[trigger] fr[m] == tok@[m + d + 1] && fr[m]
                    == '0');
            lemma_strip_trailing_zeros_at(fr, e - (d + 1));
            assert(fr.take(e - (d + 1)) =~= tok@.subrange(d + 1, e as int));
        }
        tok.substring_char(d + 1, e).to_owned()
    } else {
        String::new()
    };
    proof {
        assert(int_str@ == canon_int(tok@));
        assert(frac_str@ == canon_frac(tok@));
        reveal_strlit("0");
    }
    let int_zero = str_eq(int_str.as_str(), "0");
    let frac_empty = frac_str.as_str().unicode_len() == 0;
    proof {
        assert(("0")@ =~= seq!['0']);
    }
    let neg = neg_raw && !(int_zero && frac_empty);
    Some(Coeff { neg, int_digits: int_str, frac_digits: frac_str })
}

} // verus!
