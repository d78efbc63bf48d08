//! Whitespace tokenisation of MPS lines.
//!
//! A data line is split into whitespace-delimited tokens, exactly as the
//! section parser consumes it.  The splitting is specified by [`tokens_of`],
//! a recursive function over the line's character sequence, and implemented
//! by [`tokenize`].

use vstd::prelude::*;

verus! {

use vstd::string::StrSliceExecFns;

/// The whitespace characters that separate tokens and mark data lines.
pub open spec fn is_space(c: char) -> bool {
    c == ' ' || c == '\t' || c == '\n' || c == '\r' || c == '\x0b' || c == '\x0c'
}

/// Executable test for [`is_space`].
pub fn is_space_ch(c: char) -> (r: bool)
    ensures
        r == is_space(c),
{
    c == ' ' || c == '\t' || c == '\n' || c == '\r' || c == '\x0b' || c == '\x0c'
}

/// The sequence with its leading whitespace removed.
pub open spec fn skip_spaces(s: Seq<char>) -> Seq<char>
    decreases s.len(),
{
    if s.len() > 0 && is_space(s[0]) {
        skip_spaces(s.drop_first())
    } else {
        s
    }
}

/// The maximal whitespace-free prefix of the sequence.
pub open spec fn take_nonspace(s: Seq<char>) -> Seq<char>
    decreases s.len(),
{
    if s.len() > 0 && !is_space(s[0]) {
        seq![s[0]] + take_nonspace(s.drop_first())
    } else {
        Seq::empty()
    }
}

/// The sequence with its maximal whitespace-free prefix removed.
pub open spec fn drop_nonspace(s: Seq<char>) -> Seq<char>
    decreases s.len(),
{
    if s.len() > 0 && !is_space(s[0]) {
        drop_nonspace(s.drop_first())
    } else {
        s
    }
}

pub proof fn lemma_skip_spaces_len(s: Seq<char>)
    ensures
        skip_spaces(s).len() <= s.len(),
    decreases s.len(),
{
    if s.len() > 0 && is_space(s[0]) {
        lemma_skip_spaces_len(s.drop_first());
    }
}

pub proof fn lemma_drop_nonspace_len(s: Seq<char>)
    ensures
        drop_nonspace(s).len() <= s.len(),
        s.len() > 0 && !is_space(s[0]) ==> drop_nonspace(s).len() < s.len(),
    decreases s.len(),
{
    if s.len() > 0 && !is_space(s[0]) {
        lemma_drop_nonspace_len(s.drop_first());
    }
}

/// The whitespace-delimited tokens of a line, in order.
pub open spec fn tokens_of(s: Seq<char>) -> Seq<Seq<char>>
    decreases s.len(),
    via tokens_of_decreases
{
    let t = skip_spaces(s);
    if t.len() == 0 {
        Seq::empty()
    } else {
        seq![take_nonspace(t)] + tokens_of(drop_nonspace(t))
    }
}

#[via_fn]
proof fn tokens_of_decreases(s: Seq<char>) {
    lemma_skip_spaces_len(s);
    lemma_drop_nonspace_len(skip_spaces(s));
    if skip_spaces(s).len() > 0 {
        assert(!is_space(skip_spaces(s)[0])) by {
            lemma_skip_spaces_head(s);
        }
    }
}

/// The head of `skip_spaces(s)` is never whitespace.
pub proof fn lemma_skip_spaces_head(s: Seq<char>)
    ensures
        skip_spaces(s).len() > 0 ==> !is_space(skip_spaces(s)[0]),
    decreases s.len(),
{
    if s.len() > 0 && is_space(s[0]) {
        lemma_skip_spaces_head(s.drop_first());
    }
}

/// `skip_spaces` removes exactly the leading run of whitespace.
pub proof fn lemma_skip_spaces_at(s: Seq<char>, a: int)
    requires
        0 <= a <= s.len(),
        forall|k: int| 0 <= k < a ==> is_space(#[trigger] s[k]),
        a == s.len() || !is_space(s[a]),
    ensures
        skip_spaces(s) == s.skip(a),
    decreases a,
{
    if a == 0 {
        assert(skip_spaces(s) =~= s.skip(0)) by {
            assert(s.skip(0) =~= s);
        }
    } else {
        assert(is_space(s[0]));
        let d = s.drop_first();
        assert(forall|k: int| 0 <= k < a - 1 ==> is_space(#[trigger] d[k]));
        lemma_skip_spaces_at(d, a - 1);
        assert(d.skip(a - 1) =~= s.skip(a));
    }
}

/// `take_nonspace` and `drop_nonspace` split the sequence at the first
/// whitespace position.
pub proof fn lemma_nonspace_run(s: Seq<char>, j: int)
    requires
        0 <= j <= s.len(),
        forall|k: int| 0 <= k < j ==> !is_space(#[trigger] s[k]),
        j == s.len() || is_space(s[j]),
    ensures
        take_nonspace(s) == s.take(j),
        drop_nonspace(s) == s.skip(j),
    decreases j,
{
    if j == 0 {
        assert(take_nonspace(s) =~= s.take(0));
        assert(drop_nonspace(s) =~= s.skip(0)) by {
            assert(s.skip(0) =~= s);
        }
    } else {
        assert(!is_space(s[0]));
        let d = s.drop_first();
        assert(forall|k: int| 0 <= k < j - 1 ==> !is_space(#[trigger] d[k]));
        lemma_nonspace_run(d, j - 1);
        assert(seq![s[0]] + d.take(j - 1) =~= s.take(j));
        assert(d.skip(j - 1) =~= s.skip(j));
    }
}

/// A line whose characters are all whitespace has no tokens.
pub proof fn lemma_tokens_none(s: Seq<char>)
    requires
        forall|k: int| 0 <= k < s.len() ==> is_space(#[trigger] s[k]),
    ensures
        tokens_of(s) == Seq::<Seq<char>>::empty(),
{
    lemma_skip_spaces_at(s, s.len() as int);
    assert(s.skip(s.len() as int) =~= Seq::<char>::empty());
}

/// The first token of a line runs from its first non-whitespace character
/// `a` up to the next whitespace position `e`; the remaining tokens are
/// those of the rest of the line.
pub proof fn lemma_tokens_first(s: Seq<char>, a: int, e: int)
    requires
        0 <= a < e <= s.len(),
        forall|k: int| 0 <= k < a ==> is_space(#[trigger] s[k]),
        forall|k: int| a <= k < e ==> !is_space(#[trigger] s[k]),
        e == s.len() || is_space(s[e]),
    ensures
        tokens_of(s) == seq![s.subrange(a, e)] + tokens_of(s.skip(e)),
{
    lemma_skip_spaces_at(s, a);
    let t = s.skip(a);
    assert(t.len() == s.len() - a > 0);
    assert(forall|k: int| 0 <= k < e - a ==> !is_space(#[trigger] t[k]));
    lemma_nonspace_run(t, e - a);
    assert(t.take(e - a) =~= s.subrange(a, e));
    assert(t.skip(e - a) =~= s.skip(e));
}

/// The view of a vector of strings as a sequence of character sequences.
pub open spec fn strs_view(v: Seq<String>) -> Seq<Seq<char>> {
    v.map_values(|s: String| s@)
}

/// The index of the first non-whitespace character at or after `from`,
/// or the line's length if there is none.
pub fn first_nonspace(s: &str, from: usize) -> (r: usize)
    requires
        from <= s@.len(),
    ensures
        from <= r <= s@.len(),
        forall|k: int| from <= k < r ==> is_space(#[trigger] s@[k]),
        r < s@.len() ==> !is_space(s@[r as int]),
{
    let n = s.unicode_len();
    let mut i = from;
    loop
        invariant
            from <= i <= n,
            n == s@.len(),
            forall|k: int| from <= k < i ==> is_space(#[trigger] s@[k]),
        ensures
            from <= i <= n,
            forall|k: int| from <= k < i ==> is_space(#[trigger] s@[k]),
            i < n ==> !is_space(s@[i as int]),
        decreases n - i,
    {
        if i < n {
            if is_space_ch(s.get_char(i)) {
                i = i + 1;
            } else {
                break;
            }
        } else {
            break;
        }
    }
    i
}

/// The index of the first whitespace character at or after `from`,
/// or the line's length if there is none.
pub fn nonspace_end(s: &str, from: usize) -> (r: usize)
    requires
        from <= s@.len(),
    ensures
        from <= r <= s@.len(),
        forall|k: int| from <= k < r ==> !is_space(#[trigger] s@[k]),
        r < s@.len() ==> is_space(s@[r as int]),
{
    let n = s.unicode_len();
    let mut i = from;
    loop
        invariant
            from <= i <= n,
            n == s@.len(),
            forall|k: int| from <= k < i ==> !is_space(#[trigger] s@[k]),
        ensures
            from <= i <= n,
            forall|k: int| from <= k < i ==> !is_space(#[trigger] s@[k]),
            i < n ==> is_space(s@[i as int]),
        decreases n - i,
    {
        if i < n {
            if is_space_ch(s.get_char(i)) {
                break;
            } else {
                i = i + 1;
            }
        } else {
            break;
        }
    }
    i
}

/// Splits a line into its whitespace-delimited tokens.
pub fn tokenize(line: &str) -> (toks: Vec<String>)
    ensures
        strs_view(toks@) == tokens_of(line@),
{
    let n = line.unicode_len();
    let mut toks: Vec<String> = Vec::new();
    let mut i: usize = 0;
    proof {
        assert(line@.skip(0) =~= line@);
        assert(strs_view(toks@) =~= Seq::<Seq<char>>::empty());
        assert(strs_view(toks@) + tokens_of(line@) =~= tokens_of(line@));
    }
    while i < n
        invariant
            i <= n,
            n == line@.len(),
            tokens_of(line@) == strs_view(toks@) + tokens_of(line@.skip(i as int)),
        decreases n - i,
    {
        if is_space_ch(line.get_char(i)) {
            proof {
                let t = line@.skip(i as int);
                assert(is_space(t[0]));
                assert(t.drop_first() =~= line@.skip(i as int + 1));
                assert(skip_spaces(t) == skip_spaces(line@.skip(i as int + 1)));
            }
            i = i + 1;
        } else {
            let e = nonspace_end(line, i + 1);
            let tok = line.substring_char(i, e).to_owned();
            proof {
                let t = line@.skip(i as int);
                assert(forall|k: int|
                    0 <= k < e - i ==> !is_space(#[trigger] t[k]) && t[k] == line@[k + i]);
                lemma_nonspace_run(t, e - i);
                assert(skip_spaces(t) == t) by {
                    lemma_skip_spaces_at(t, 0);
                    assert(t.skip(0) =~= t);
                }
                assert(t.take(e - i) =~= line@.subrange(i as int, e as int));
                assert(t.skip(e - i) =~= line@.skip(e as int));
                assert(tokens_of(t) == seq![tok@] + tokens_of(line@.skip(e as int)));
                assert(strs_view(toks@.push(tok)) =~= strs_view(toks@).push(tok@));
                assert(strs_view(toks@).push(tok@) + tokens_of(line@.skip(e as int)) =~= strs_view(
                    toks@,
                ) + (seq![tok@] + tokens_of(line@.skip(e as int))));
            }
            toks.push(tok);
            i = e;
        }
    }
    proof {
        assert(line@.skip(n as int) =~= Seq::<char>::empty());
        assert(tokens_of(Seq::<char>::empty()) =~= Seq::<Seq<char>>::empty());
        assert(strs_view(toks@) + Seq::<Seq<char>>::empty() =~= strs_view(toks@));
    }
    toks
}

/// The sequence with trailing whitespace removed.
pub open spec fn strip_trailing_spaces(s: Seq<char>) -> Seq<char>
    decreases s.len(),
{
    if s.len() > 0 && is_space(s.last()) {
        strip_trailing_spaces(s.drop_last())
    } else {
        s
    }
}

/// The sequence with both leading and trailing whitespace removed.
pub open spec fn trim_of(s: Seq<char>) -> Seq<char> {
    strip_trailing_spaces(skip_spaces(s))
}

/// `strip_trailing_spaces` removes exactly the trailing run of whitespace.
pub proof fn lemma_strip_trailing_at(s: Seq<char>, z: int)
    requires
        0 <= z <= s.len(),
        forall|k: int| z <= k < s.len() ==> is_space(#[trigger] s[k]),
        z == 0 || !is_space(s[z - 1]),
    ensures
        strip_trailing_spaces(s) == s.take(z),
    decreases s.len(),
{
    if z == s.len() {
        assert(strip_trailing_spaces(s) =~= s.take(z)) by {
            assert(s.take(z) =~= s);
        }
    } else {
        assert(is_space(s.last()));
        let d = s.drop_last();
        assert(forall|k: int| z <= k < d.len() ==> is_space(#[trigger] d[k]));
        lemma_strip_trailing_at(d, z);
        assert(d.take(z) =~= s.take(z));
    }
}

/// Removes leading and trailing whitespace, as [`trim_of`] specifies.
pub fn trim(s: &str) -> (r: String)
    ensures
        r@ == trim_of(s@),
{
    let n = s.unicode_len();
    let a = first_nonspace(s, 0);
    if a == n {
        proof {
            lemma_skip_spaces_at(s@, n as int);
            assert(s@.skip(n as int) =~= Seq::<char>::empty());
        }
        return String::new();
    }
    let mut z = n;
    loop
        invariant
            a < z <= n,
            n == s@.len(),
            a < n,
            !is_space(s@[a as int]),
            forall|k: int| z <= k < n ==> is_space(#[trigger] s@[k]),
        ensures
            a < z <= n,
            forall|k: int| z <= k < n ==> is_space(#[trigger] s@[k]),
            !is_space(s@[z - 1]),
        decreases z,
    {
        if z > a + 1 && is_space_ch(s.get_char(z - 1)) {
            z = z - 1;
        } else {
            proof {
                if z == a + 1 {
                    assert(!is_space(s@[z - 1]));
                }
            }
            break;
        }
    }
    let r = s.substring_char(a, z).to_owned();
    proof {
        lemma_skip_spaces_at(s@, a as int);
        let t = s@.skip(a as int);
        assert(forall|k: int|
            z - a <= k < t.len() ==> is_space(#[trigger] t[k]) && t[k] == s@[k + a]);
        lemma_strip_trailing_at(t, z - a);
        assert(t.take(z - a) =~= s@.subrange(a as int, z as int));
    }
    r
}

/// Character-for-character string equality, reflected into the views.
pub fn str_eq(a: &str, b: &str) -> (r: bool)
    ensures
        r == (a@ == b@),
{
    let na = a.unicode_len();
    let nb = b.unicode_len();
    if na != nb {
        return false;
    }
    let mut i: usize = 0;
    while i < na
        invariant
            i <= na,
            na == a@.len(),
            nb == b@.len(),
            na == nb,
            forall|k: int| 0 <= k < i ==> a@[k] == b@[k],
        decreases na - i,
    {
        if a.get_char(i) != b.get_char(i) {
            return false;
        }
        i = i + 1;
    }
    proof {
        assert(a@ =~= b@);
    }
    true
}

} // verus!
