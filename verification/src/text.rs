//! Character-level text helpers: white-space trimming and comma splitting.

use vstd::prelude::*;

verus! {

/// The Unicode white-space characters, the set that record edges and
/// callsigns are trimmed of.
pub open spec fn is_ws_char(c: char) -> bool {
    c == ' ' || c == '\t' || c == '\n' || c == '\r' || c == '\u{0B}' || c == '\u{0C}'
        || c == '\u{85}' || c == '\u{A0}' || c == '\u{1680}' || c == '\u{2000}' || c == '\u{2001}'
        || c == '\u{2002}' || c == '\u{2003}' || c == '\u{2004}' || c == '\u{2005}'
        || c == '\u{2006}' || c == '\u{2007}' || c == '\u{2008}' || c == '\u{2009}'
        || c == '\u{200A}' || c == '\u{2028}' || c == '\u{2029}' || c == '\u{202F}'
        || c == '\u{205F}' || c == '\u{3000}'
}

#[verifier::when_used_as_spec(is_ws_char)]
pub fn is_whitespace_char(c: char) -> (r: bool)
    ensures
        r == is_ws_char(c),
{
    c == ' ' || c == '\t' || c == '\n' || c == '\r' || c == '\u{0B}' || c == '\u{0C}'
        || c == '\u{85}' || c == '\u{A0}' || c == '\u{1680}' || c == '\u{2000}' || c == '\u{2001}'
        || c == '\u{2002}' || c == '\u{2003}' || c == '\u{2004}' || c == '\u{2005}'
        || c == '\u{2006}' || c == '\u{2007}' || c == '\u{2008}' || c == '\u{2009}'
        || c == '\u{200A}' || c == '\u{2028}' || c == '\u{2029}' || c == '\u{202F}'
        || c == '\u{205F}' || c == '\u{3000}'
}

/// Index of the first character at or after `i` that is not white space
/// (`s.len()` if every character from `i` on is white space).
pub open spec fn trim_start_idx(s: Seq<char>, i: int) -> int
    decreases s.len() - i,
{
    if 0 <= i < s.len() && is_ws_char(s[i]) {
        trim_start_idx(s, i + 1)
    } else {
        i
    }
}

/// One past the last character before `j` that is not white space
/// (`0` if every character before `j` is white space).
pub open spec fn trim_end_idx(s: Seq<char>, j: int) -> int
    decreases j,
{
    if 0 < j <= s.len() && is_ws_char(s[j - 1]) {
        trim_end_idx(s, j - 1)
    } else {
        j
    }
}

/// `s` with leading and trailing white space removed.
pub open spec fn trimmed(s: Seq<char>) -> Seq<char> {
    let lo = trim_start_idx(s, 0);
    let hi = trim_end_idx(s, s.len() as int);
    if lo <= hi {
        s.subrange(lo, hi)
    } else {
        Seq::empty()
    }
}

proof fn lemma_trim_start_eq(s: Seq<char>, i: int, lo: int)
    requires
        0 <= i <= lo <= s.len(),
        forall|k: int| i <= k < lo ==> is_ws_char(s[k]),
        lo == s.len() || !is_ws_char(s[lo]),
    ensures
        trim_start_idx(s, i) == lo,
    decreases lo - i,
{
    if i < lo {
        lemma_trim_start_eq(s, i + 1, lo);
    }
}

proof fn lemma_trim_end_eq(s: Seq<char>, j: int, hi: int)
    requires
        0 <= hi <= j <= s.len(),
        forall|k: int| hi <= k < j ==> is_ws_char(s[k]),
        hi == 0 || !is_ws_char(s[hi - 1]),
    ensures
        trim_end_idx(s, j) == hi,
    decreases j - hi,
{
    if hi < j {
        lemma_trim_end_eq(s, j - 1, hi);
    }
}

/// `str::trim`: the slice of `s` with white space removed from both ends.
pub fn trim_str<'a>(s: &'a str) -> (r: &'a str)
    ensures
        r@ == trimmed(s@),
{
    let n = s.unicode_len();
    let mut lo: usize = 0;
    while lo < n && is_whitespace_char(s.get_char(lo))
        invariant
            0 <= lo <= n,
            n == s@.len(),
            forall|k: int| 0 <= k < lo ==> is_ws_char(s@[k]),
        decreases n - lo,
    {
        lo = lo + 1;
    }
    let mut hi: usize = n;
    while hi > lo && is_whitespace_char(s.get_char(hi - 1))
        invariant
            lo <= hi <= n,
            n == s@.len(),
            forall|k: int| hi <= k < n ==> is_ws_char(s@[k]),
            forall|k: int| 0 <= k < lo ==> is_ws_char(s@[k]),
            lo == n || !is_ws_char(s@[lo as int]),
        decreases hi,
    {
        hi = hi - 1;
    }
    proof {
        if hi == lo {
            // the backward scan met the forward scan: every character is
            // white space, so both scans in fact covered the whole string
            if lo < n {
                assert(is_ws_char(s@[lo as int]));
                assert(false);
            }
            lemma_trim_start_eq(s@, 0, n as int);
            lemma_trim_end_eq(s@, n as int, 0);
            assert(trimmed(s@) =~= s@.subrange(n as int, n as int));
        } else {
            lemma_trim_start_eq(s@, 0, lo as int);
            lemma_trim_end_eq(s@, n as int, hi as int);
        }
    }
    s.substring_char(lo, hi)
}

/// The comma-separated fields of `s`: split on every `,`, empty fields kept.
/// An empty input is one empty field; a split never has zero fields.
pub open spec fn split_commas(s: Seq<char>) -> Seq<Seq<char>>
    decreases s.len(),
{
    if s.len() == 0 {
        seq![Seq::<char>::empty()]
    } else if s[0] == ',' {
        seq![Seq::<char>::empty()] + split_commas(s.drop_first())
    } else {
        let rest = split_commas(s.drop_first());
        seq![seq![s[0]] + rest[0]] + rest.skip(1)
    }
}

pub proof fn lemma_split_commas_nonempty(s: Seq<char>)
    ensures
        split_commas(s).len() >= 1,
    decreases s.len(),
{
    if s.len() > 0 {
        lemma_split_commas_nonempty(s.drop_first());
    }
}

/// Splits `s` into its comma-separated fields, in order.
pub fn split_commas_str(s: &str) -> (r: Vec<String>)
    ensures
        r.deep_view() == split_commas(s@),
{
    let n = s.unicode_len();
    let mut out: Vec<String> = Vec::new();
    let mut cur: String = String::new();
    let mut i: usize = 0;
    proof {
        lemma_split_commas_nonempty(s@);
        assert(s@.skip(0) =~= s@);
        let f0 = split_commas(s@);
        assert(f0 =~= seq![f0[0]] + f0.skip(1));
        assert(cur@ + f0[0] =~= f0[0]);
    }
    while i < n
        invariant
            i <= n,
            n == s@.len(),
            split_commas(s@) =~= out.deep_view() + seq![cur@ + split_commas(s@.skip(i as int))[0]]
                + split_commas(s@.skip(i as int)).skip(1),
        decreases n - i,
    {
        let ghost fi = split_commas(s@.skip(i as int));
        let ghost rest = split_commas(s@.skip(i as int + 1));
        let c = s.get_char(i);
        proof {
            lemma_split_commas_nonempty(s@.skip(i as int + 1));
            assert(s@.skip(i as int).len() == n - i);
            assert(s@.skip(i as int)[0] == s@[i as int]);
            assert(s@.skip(i as int).drop_first() =~= s@.skip(i as int + 1));
            if c == ',' {
                assert(fi =~= seq![Seq::<char>::empty()] + rest);
                assert(fi[0] =~= Seq::<char>::empty());
                assert(fi.skip(1) =~= rest);
            } else {
                assert(fi =~= seq![seq![s@[i as int]] + rest[0]] + rest.skip(1));
                assert(fi[0] =~= seq![s@[i as int]] + rest[0]);
                assert(fi.skip(1) =~= rest.skip(1));
            }
        }
        if c == ',' {
            let ghost old_out = out.deep_view();
            let ghost old_cur = cur@;
            out.push(cur);
            cur = String::new();
            proof {
                assert(out.deep_view() =~= old_out + seq![old_cur]);
                assert(old_cur + fi[0] =~= old_cur);
                assert(rest =~= seq![rest[0]] + rest.skip(1));
                assert(cur@ + rest[0] =~= rest[0]);
                assert(old_out + seq![old_cur + fi[0]] + fi.skip(1) =~= (old_out + seq![old_cur])
                    + seq![cur@ + rest[0]] + rest.skip(1));
            }
        } else {
            let piece = s.substring_char(i, i + 1);
            let ghost old_cur = cur@;
            proof {
                assert(piece@ =~= seq![s@[i as int]]);
            }
            cur.append(piece);
            proof {
                assert(cur@ =~= old_cur + seq![s@[i as int]]);
                assert(old_cur + fi[0] =~= cur@ + rest[0]);
            }
        }
        i = i + 1;
    }
    proof {
        let fe = split_commas(s@.skip(n as int));
        assert(s@.skip(n as int) =~= Seq::<char>::empty());
        assert(fe =~= seq![Seq::<char>::empty()]);
        assert(cur@ + fe[0] =~= cur@);
        assert(fe.skip(1) =~= Seq::<Seq<char>>::empty());
    }
    let ghost old_out = out.deep_view();
    let ghost last = cur@;
    out.push(cur);
    proof {
        assert(out.deep_view() =~= old_out + seq![last]);
        assert(split_commas(s@) =~= out.deep_view());
    }
    out
}

} // verus!
