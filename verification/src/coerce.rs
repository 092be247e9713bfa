//! Per-field coercion primitives.
//!
//! Each primitive takes the optional text found at a record position and
//! yields an optional typed value: a missing position or text that fails to
//! coerce becomes an absent field, never an error.

use vstd::prelude::*;
use vstd::string::StringExecFns;

verus! {

pub open spec fn is_digit_char(c: char) -> bool {
    48 <= c as int && c as int <= 57
}

/// The numeric value of a decimal digit character.
pub open spec fn digit_val(c: char) -> nat {
    (c as int - 48) as nat
}

pub open spec fn all_digits(s: Seq<char>) -> bool {
    forall|k: int| 0 <= k < s.len() ==> is_digit_char(s[k])
}

/// The value of a string of decimal digits, most significant first.
pub open spec fn digits_val(s: Seq<char>) -> nat
    decreases s.len(),
{
    if s.len() == 0 {
        0
    } else {
        digits_val(s.drop_last()) * 10 + digit_val(s.last())
    }
}

pub open spec fn pow10(k: nat) -> nat
    decreases k,
{
    if k == 0 {
        1
    } else {
        10 * pow10((k - 1) as nat)
    }
}

/// The signed integer denoted by `s`: an optional `+` or `-` sign, then at
/// least one decimal digit, with a value that fits in an `i32`; anything
/// else denotes nothing.
pub open spec fn int_of_chars(s: Seq<char>) -> Option<i32> {
    let neg = s.len() > 0 && s[0] == '-';
    let ds = if s.len() > 0 && (s[0] == '+' || s[0] == '-') {
        s.drop_first()
    } else {
        s
    };
    if ds.len() > 0 && all_digits(ds) {
        if neg {
            if digits_val(ds) <= 0x8000_0000 {
                Some((0 - digits_val(ds) as int) as i32)
            } else {
                None
            }
        } else {
            if digits_val(ds) <= 0x7FFF_FFFF {
                Some(digits_val(ds) as int as i32)
            } else {
                None
            }
        }
    } else {
        None
    }
}

/// Integer coercion of a field: absent stays absent, text that is not a
/// well-formed `i32` becomes absent.
pub open spec fn int_opt_of(o: Option<Seq<char>>) -> Option<i32> {
    match o {
        Some(s) => int_of_chars(s),
        None => None,
    }
}

/// Boolean coercion of a field: the text is read as an integer and compared
/// with zero; text that is not an integer becomes absent.
pub open spec fn bool_opt_of(o: Option<Seq<char>>) -> Option<bool> {
    match int_opt_of(o) {
        Some(v) => Some(v != 0),
        None => None,
    }
}

proof fn lemma_digits_val_upper(s: Seq<char>)
    requires
        all_digits(s),
    ensures
        digits_val(s) < pow10(s.len() as nat),
    decreases s.len(),
{
    if s.len() > 0 {
        assert(all_digits(s.drop_last()));
        lemma_digits_val_upper(s.drop_last());
        assert(digit_val(s.last()) <= 9);
    }
}

proof fn lemma_digits_val_lower(s: Seq<char>)
    requires
        all_digits(s),
        s.len() > 0,
        s[0] != '0',
    ensures
        digits_val(s) >= pow10((s.len() - 1) as nat),
    decreases s.len(),
{
    if s.len() == 1 {
        assert(digit_val(s[0]) >= 1);
    } else {
        let t = s.drop_last();
        assert(all_digits(t));
        assert(t[0] == s[0]);
        lemma_digits_val_lower(t);
    }
}

proof fn lemma_digits_val_leading_zeros(s: Seq<char>, k: int)
    requires
        0 <= k <= s.len(),
        forall|j: int| 0 <= j < k ==> s[j] == '0',
    ensures
        digits_val(s) == digits_val(s.skip(k)),
    decreases s.len(),
{
    if k == s.len() {
        assert(s.skip(k) =~= Seq::<char>::empty());
        lemma_digits_val_all_zero(s);
    } else {
        let t = s.drop_last();
        lemma_digits_val_leading_zeros(t, k);
        assert(s.skip(k).drop_last() =~= t.skip(k));
        assert(s.skip(k).last() == s.last());
        assert(s.skip(k).len() > 0);
    }
}

proof fn lemma_digits_val_all_zero(s: Seq<char>)
    requires
        forall|j: int| 0 <= j < s.len() ==> s[j] == '0',
    ensures
        digits_val(s) == 0,
    decreases s.len(),
{
    if s.len() > 0 {
        lemma_digits_val_all_zero(s.drop_last());
        assert(digit_val(s.last()) == 0);
    }
}

proof fn lemma_pow10_mono(a: nat, b: nat)
    requires
        a <= b,
    ensures
        pow10(a) <= pow10(b),
    decreases b,
{
    if a < b {
        lemma_pow10_mono(a, (b - 1) as nat);
    }
}

fn is_digit(c: char) -> (r: bool)
    ensures
        r == is_digit_char(c),
{
    let v = c as u32;
    48 <= v && v <= 57
}

/// The `i32` denoted by `s`, or nothing if `s` is not a well-formed signed
/// decimal integer that fits.
fn int_from_str(s: &str) -> (r: Option<i32>)
    ensures
        r == int_of_chars(s@),
{
    let n = s.unicode_len();
    let ghost sv = s@;
    let mut neg = false;
    let mut start: usize = 0;
    if n > 0 {
        let c0 = s.get_char(0);
        if c0 == '-' {
            neg = true;
            start = 1;
        } else if c0 == '+' {
            start = 1;
        }
    }
    let ghost ds = if start == 1 { sv.drop_first() } else { sv };
    proof {
        assert(ds =~= sv.skip(start as int));
    }
    if start == n {
        return None;
    }
    let mut ok = true;
    let mut i = start;
    while i < n
        invariant
            start <= i <= n,
            n == sv.len(),
            sv == s@,
            ok == all_digits(sv.subrange(start as int, i as int)),
        decreases n - i,
    {
        let ghost pre = sv.subrange(start as int, i as int);
        let ghost nxt = sv.subrange(start as int, i + 1);
        let d = is_digit(s.get_char(i));
        proof {
            assert(forall|k: int| 0 <= k < pre.len() ==> pre[k] == nxt[k]);
            assert(nxt[i - start] == sv[i as int]);
            if ok && d {
                assert(forall|k: int| 0 <= k < nxt.len() ==> is_digit_char(nxt[k]));
            }
        }
        ok = ok && d;
        i = i + 1;
    }
    proof {
        assert(sv.subrange(start as int, n as int) =~= ds);
    }
    if !ok {
        return None;
    }
    proof {
        assert(all_digits(ds));
    }
    let mut z = start;
    while z < n && s.get_char(z) == '0'
        invariant
            start <= z <= n,
            n == sv.len(),
            sv == s@,
            forall|k: int| start <= k < z ==> sv[k] == '0',
        decreases n - z,
    {
        z = z + 1;
    }
    proof {
        lemma_digits_val_leading_zeros(ds, z - start);
        assert(ds.skip(z - start) =~= sv.skip(z as int));
    }
    let ghost t = sv.skip(z as int);
    proof {
        assert(forall|k: int| 0 <= k < t.len() ==> t[k] == sv[k + z]);
        assert(all_digits(t));
        assert(digits_val(ds) == digits_val(t));
    }
    if n - z > 10 {
        proof {
            assert(t[0] == sv[z as int]);
            assert(t[0] != '0');
            lemma_digits_val_lower(t);
            lemma_pow10_mono(10, (t.len() - 1) as nat);
            reveal_with_fuel(pow10, 12);
            assert(pow10(10) == 10_000_000_000);
            assert(digits_val(t) >= 10_000_000_000);
        }
        return None;
    }
    let mut acc: u64 = 0;
    let mut j = z;
    proof {
        assert(sv.subrange(z as int, z as int) =~= Seq::<char>::empty());
    }
    while j < n
        invariant
            z <= j <= n,
            n == sv.len(),
            sv == s@,
            n - z <= 10,
            all_digits(t),
            t =~= sv.skip(z as int),
            acc == digits_val(sv.subrange(z as int, j as int)),
        decreases n - j,
    {
        let c = s.get_char(j);
        proof {
            assert(t[j - z] == sv[j as int]);
            assert(is_digit_char(sv[j as int]));
            let pre = sv.subrange(z as int, j as int);
            assert(all_digits(pre)) by {
                assert(forall|k: int| 0 <= k < pre.len() ==> pre[k] == t[k]);
            }
            lemma_digits_val_upper(pre);
            lemma_pow10_mono(pre.len() as nat, 10);
            reveal_with_fuel(pow10, 12);
            assert(pow10(10) == 10_000_000_000);
            assert(acc < 10_000_000_000);
            let nxt = sv.subrange(z as int, j + 1);
            assert(nxt.drop_last() =~= pre);
            assert(nxt.last() == sv[j as int]);
            assert(digits_val(nxt) == digits_val(pre) * 10 + digit_val(sv[j as int]));
        }
        let d = (c as u32 - 48) as u64;
        acc = acc * 10 + d;
        j = j + 1;
    }
    proof {
        assert(sv.subrange(z as int, n as int) =~= t);
        assert(acc == digits_val(ds));
    }
    if neg {
        if acc <= 0x8000_0000 {
            Some((-(acc as i64)) as i32)
        } else {
            None
        }
    } else {
        if acc <= 0x7FFF_FFFF {
            Some(acc as i32)
        } else {
            None
        }
    }
}

/// Integer coercion: absent or malformed text yields an absent field.
pub fn parse_int(opt: Option<&str>) -> (r: Option<i32>)
    ensures
        r == int_opt_of(opt.deep_view()),
{
    match opt {
        Some(s) => int_from_str(s),
        None => None,
    }
}

/// Boolean coercion: the text is read as an integer, zero means `false` and
/// any non-zero integer means `true`; non-integer text yields absent.
pub fn parse_bool(opt: Option<&str>) -> (r: Option<bool>)
    ensures
        r == bool_opt_of(opt.deep_view()),
{
    match parse_int(opt) {
        Some(v) => Some(v != 0),
        None => None,
    }
}

/// `c` equals the lower-case letter `l`, ignoring case.
pub open spec fn eq_ci(c: char, l: char) -> bool {
    c == l || c as int + 32 == l as int
}

/// The spellings of an infinity or not-a-number value, ignoring case.
pub open spec fn inf_nan_syntax(b: Seq<char>) -> bool {
    (b.len() == 3 && eq_ci(b[0], 'i') && eq_ci(b[1], 'n') && eq_ci(b[2], 'f')) || (b.len() == 8
        && eq_ci(b[0], 'i') && eq_ci(b[1], 'n') && eq_ci(b[2], 'f') && eq_ci(b[3], 'i') && eq_ci(
        b[4],
        'n',
    ) && eq_ci(b[5], 'i') && eq_ci(b[6], 't') && eq_ci(b[7], 'y')) || (b.len() == 3 && eq_ci(
        b[0],
        'n',
    ) && eq_ci(b[1], 'a') && eq_ci(b[2], 'n'))
}

/// Digits with at most one decimal point and at least one digit:
/// `1`, `1.`, `1.5` and `.5` are mantissas, `.` and the empty text are not.
pub open spec fn mantissa_syntax(t: Seq<char>) -> bool {
    (t.len() > 0 && all_digits(t)) || (exists|d: int|
        0 <= d < t.len() && t[d] == '.' && all_digits(t.take(d)) && all_digits(t.skip(d + 1)) && (d
            > 0 || t.len() > d + 1))
}

/// An exponent: an optional sign, then at least one digit.
pub open spec fn exp_syntax(u: Seq<char>) -> bool {
    let v = if u.len() > 0 && (u[0] == '+' || u[0] == '-') {
        u.drop_first()
    } else {
        u
    };
    v.len() > 0 && all_digits(v)
}

pub open spec fn is_exp_marker(c: char) -> bool {
    c == 'e' || c == 'E'
}

/// A mantissa, optionally followed by an exponent marker and an exponent.
pub open spec fn number_syntax(b: Seq<char>) -> bool {
    mantissa_syntax(b) || (exists|p: int|
        0 <= p < b.len() && is_exp_marker(b[p]) && mantissa_syntax(b.take(p)) && exp_syntax(
            b.skip(p + 1),
        ))
}

/// The texts that denote a single-precision floating-point value: an
/// optional sign, then an infinity or not-a-number spelling or a decimal
/// number with optional exponent.
pub open spec fn float_syntax(s: Seq<char>) -> bool {
    let b = if s.len() > 0 && (s[0] == '+' || s[0] == '-') {
        s.drop_first()
    } else {
        s
    };
    inf_nan_syntax(b) || number_syntax(b)
}

/// Float coercion of a field. A floating-point value cannot itself stand in
/// a verified structure, so the coercion keeps the text exactly as it
/// appeared whenever it denotes such a value, and drops it otherwise; the
/// numeric reading happens at serialization, outside this library.
pub open spec fn float_text_of(o: Option<Seq<char>>) -> Option<Seq<char>> {
    match o {
        Some(s) => if float_syntax(s) {
            Some(s)
        } else {
            None
        },
        None => None,
    }
}

proof fn lemma_mantissa_no_marker(t: Seq<char>)
    requires
        mantissa_syntax(t),
    ensures
        forall|k: int| 0 <= k < t.len() ==> !is_exp_marker(t[k]),
{
    if t.len() > 0 && all_digits(t) {
    } else {
        let d = choose|d: int|
            0 <= d < t.len() && t[d] == '.' && all_digits(t.take(d)) && all_digits(t.skip(d + 1))
                && (d > 0 || t.len() > d + 1);
        assert forall|k: int| 0 <= k < t.len() implies !is_exp_marker(t[k]) by {
            if k < d {
                assert(t.take(d)[k] == t[k]);
                assert(is_digit_char(t[k]));
            } else if k > d {
                assert(t.skip(d + 1)[k - d - 1] == t[k]);
                assert(is_digit_char(t[k]));
            }
        }
    }
}

fn eq_ignore_case(c: char, l: char) -> (r: bool)
    ensures
        r == eq_ci(c, l),
{
    c == l || (c as u32).wrapping_add(32) == l as u32
}

fn scan_digits(s: &str, a: usize, b: usize) -> (r: bool)
    requires
        a <= b <= s@.len(),
    ensures
        r == all_digits(s@.subrange(a as int, b as int)),
{
    let mut ok = true;
    let mut i = a;
    while i < b
        invariant
            a <= i <= b <= s@.len(),
            ok == all_digits(s@.subrange(a as int, i as int)),
        decreases b - i,
    {
        let ghost pre = s@.subrange(a as int, i as int);
        let ghost nxt = s@.subrange(a as int, i + 1);
        let d = is_digit(s.get_char(i));
        proof {
            assert(forall|k: int| 0 <= k < pre.len() ==> pre[k] == nxt[k]);
            assert(nxt[i - a] == s@[i as int]);
            if ok && d {
                assert(forall|k: int| 0 <= k < nxt.len() ==> is_digit_char(nxt[k]));
            }
        }
        ok = ok && d;
        i = i + 1;
    }
    ok
}

fn find_dot(s: &str, a: usize, b: usize) -> (r: Option<usize>)
    requires
        a <= b <= s@.len(),
    ensures
        match r {
            Some(p) => a <= p < b && s@[p as int] == '.' && forall|k: int|
                a <= k < p ==> s@[k] != '.',
            None => forall|k: int| a <= k < b ==> s@[k] != '.',
        },
{
    let mut i = a;
    while i < b
        invariant
            a <= i <= b <= s@.len(),
            forall|k: int| a <= k < i ==> s@[k] != '.',
        decreases b - i,
    {
        if s.get_char(i) == '.' {
            return Some(i);
        }
        i = i + 1;
    }
    None
}

fn find_marker(s: &str, a: usize, b: usize) -> (r: Option<usize>)
    requires
        a <= b <= s@.len(),
    ensures
        match r {
            Some(p) => a <= p < b && is_exp_marker(s@[p as int]) && forall|k: int|
                a <= k < p ==> !is_exp_marker(s@[k]),
            None => forall|k: int| a <= k < b ==> !is_exp_marker(s@[k]),
        },
{
    let mut i = a;
    while i < b
        invariant
            a <= i <= b <= s@.len(),
            forall|k: int| a <= k < i ==> !is_exp_marker(s@[k]),
        decreases b - i,
    {
        let c = s.get_char(i);
        if c == 'e' || c == 'E' {
            return Some(i);
        }
        i = i + 1;
    }
    None
}

fn check_mantissa(s: &str, a: usize, b: usize) -> (r: bool)
    requires
        a <= b <= s@.len(),
    ensures
        r == mantissa_syntax(s@.subrange(a as int, b as int)),
{
    let ghost t = s@.subrange(a as int, b as int);
    match find_dot(s, a, b) {
        None => {
            let r = scan_digits(s, a, b) && b > a;
            proof {
                if !r {
                    assert forall|d: int|
                        0 <= d < t.len() implies !(t[d] == '.' && all_digits(t.take(d))
                        && all_digits(t.skip(d + 1)) && (d > 0 || t.len() > d + 1)) by {
                        assert(t[d] == s@[a + d]);
                    }
                }
            }
            r
        },
        Some(p) => {
            let left = scan_digits(s, a, p);
            let right = scan_digits(s, p + 1, b);
            let r = left && right && (p > a || b > p + 1);
            let ghost dp = p - a;
            proof {
                assert(t[dp] == s@[p as int]);
                assert(t.take(dp) =~= s@.subrange(a as int, p as int));
                assert(t.skip(dp + 1) =~= s@.subrange(p + 1, b as int));
                if r {
                    assert(mantissa_syntax(t));
                } else {
                    assert(!(t.len() > 0 && all_digits(t))) by {
                        assert(!is_digit_char(t[dp]));
                    }
                    assert forall|d: int|
                        0 <= d < t.len() implies !(t[d] == '.' && all_digits(t.take(d))
                        && all_digits(t.skip(d + 1)) && (d > 0 || t.len() > d + 1)) by {
                        if t[d] == '.' && all_digits(t.take(d)) && all_digits(t.skip(d + 1)) && (d
                            > 0 || t.len() > d + 1) {
                            if d < dp {
                                assert(s@[a + d] == t[d]);
                                assert(false);
                            } else if d > dp {
                                assert(t.take(d)[dp] == t[dp]);
                                assert(is_digit_char(t[dp]));
                                assert(false);
                            } else {
                                assert(false);
                            }
                        }
                    }
                }
            }
            r
        },
    }
}

fn check_exp(s: &str, a: usize, b: usize) -> (r: bool)
    requires
        a <= b <= s@.len(),
    ensures
        r == exp_syntax(s@.subrange(a as int, b as int)),
{
    let ghost u = s@.subrange(a as int, b as int);
    if a == b {
        return false;
    }
    let c0 = s.get_char(a);
    let a2: usize = if c0 == '+' || c0 == '-' {
        a + 1
    } else {
        a
    };
    proof {
        assert(u[0] == s@[a as int]);
        if a2 == a + 1 {
            assert(u.drop_first() =~= s@.subrange(a2 as int, b as int));
        }
    }
    scan_digits(s, a2, b) && b > a2
}

fn check_inf_nan(s: &str, a: usize, b: usize) -> (r: bool)
    requires
        a <= b <= s@.len(),
    ensures
        r == inf_nan_syntax(s@.subrange(a as int, b as int)),
{
    let ghost t = s@.subrange(a as int, b as int);
    if b - a == 3 {
        let c0 = s.get_char(a);
        let c1 = s.get_char(a + 1);
        let c2 = s.get_char(a + 2);
        proof {
            assert(t[0] == s@[a as int] && t[1] == s@[a + 1] && t[2] == s@[a + 2]);
        }
        (eq_ignore_case(c0, 'i') && eq_ignore_case(c1, 'n') && eq_ignore_case(c2, 'f')) || (
        eq_ignore_case(c0, 'n') && eq_ignore_case(c1, 'a') && eq_ignore_case(c2, 'n'))
    } else if b - a == 8 {
        let c0 = s.get_char(a);
        let c1 = s.get_char(a + 1);
        let c2 = s.get_char(a + 2);
        let c3 = s.get_char(a + 3);
        let c4 = s.get_char(a + 4);
        let c5 = s.get_char(a + 5);
        let c6 = s.get_char(a + 6);
        let c7 = s.get_char(a + 7);
        proof {
            assert(t[0] == s@[a as int] && t[1] == s@[a + 1] && t[2] == s@[a + 2] && t[3] == s@[a
                + 3] && t[4] == s@[a + 4] && t[5] == s@[a + 5] && t[6] == s@[a + 6] && t[7] == s@[a
                + 7]);
        }
        eq_ignore_case(c0, 'i') && eq_ignore_case(c1, 'n') && eq_ignore_case(c2, 'f')
            && eq_ignore_case(c3, 'i') && eq_ignore_case(c4, 'n') && eq_ignore_case(c5, 'i')
            && eq_ignore_case(c6, 't') && eq_ignore_case(c7, 'y')
    } else {
        false
    }
}

fn check_float(s: &str) -> (r: bool)
    ensures
        r == float_syntax(s@),
{
    let n = s.unicode_len();
    let mut a: usize = 0;
    if n > 0 {
        let c0 = s.get_char(0);
        if c0 == '+' || c0 == '-' {
            a = 1;
        }
    }
    let ghost b = if a == 1 {
        s@.drop_first()
    } else {
        s@
    };
    proof {
        assert(b =~= s@.subrange(a as int, n as int));
    }
    if check_inf_nan(s, a, n) {
        return true;
    }
    match find_marker(s, a, n) {
        None => {
            let r = check_mantissa(s, a, n);
            proof {
                assert(b =~= s@.subrange(a as int, n as int));
                assert forall|p: int| 0 <= p < b.len() implies !is_exp_marker(b[p]) by {
                    assert(b[p] == s@[a + p]);
                }
            }
            r
        },
        Some(p) => {
            let m = check_mantissa(s, a, p);
            let e = check_exp(s, p + 1, n);
            let ghost bp = p - a;
            proof {
                assert(b[bp] == s@[p as int]);
                assert(b.take(bp) =~= s@.subrange(a as int, p as int));
                assert(b.skip(bp + 1) =~= s@.subrange(p + 1, n as int));
                if m && e {
                    assert(number_syntax(b));
                } else {
                    if mantissa_syntax(b) {
                        lemma_mantissa_no_marker(b);
                        assert(false);
                    }
                    assert forall|q: int|
                        0 <= q < b.len() implies !(is_exp_marker(b[q]) && mantissa_syntax(
                        b.take(q),
                    ) && exp_syntax(b.skip(q + 1))) by {
                        if is_exp_marker(b[q]) && mantissa_syntax(b.take(q)) && exp_syntax(
                            b.skip(q + 1),
                        ) {
                            if q < bp {
                                assert(b[q] == s@[a + q]);
                                assert(false);
                            } else if q > bp {
                                lemma_mantissa_no_marker(b.take(q));
                                assert(b.take(q)[bp] == b[bp]);
                                assert(false);
                            } else {
                                assert(false);
                            }
                        }
                    }
                }
            }
            m && e
        },
    }
}

/// Float coercion: the text is kept when it denotes a single-precision
/// value, and dropped otherwise; absent stays absent.
pub fn parse_float(opt: Option<&str>) -> (r: Option<String>)
    ensures
        r.deep_view() == float_text_of(opt.deep_view()),
{
    match opt {
        Some(s) => if check_float(s) {
            Some(String::from_str(s))
        } else {
            None
        },
        None => None,
    }
}

/// Verbatim string coercion: the text is kept exactly as it stands, so an
/// empty field stays an empty (present) string.
pub fn parse_string(opt: Option<&str>) -> (r: Option<String>)
    ensures
        r.deep_view() == opt.deep_view(),
{
    match opt {
        Some(s) => Some(String::from_str(s)),
        None => None,
    }
}

} // verus!
