//! Classification of unquoted scalars.
//!
//! An accumulated scalar is exactly `null`, `true` or `false` (case
//! sensitively), or else a number if its right-trimmed text matches the
//! decimal floating-point literal grammar, or else a plain string. The
//! grammar is the one Rust's standard library accepts when parsing a float
//! from text: an optional sign, then either a case-insensitive `inf`,
//! `infinity` or `nan`, or digits with at most one decimal point and at
//! least one digit, optionally followed by `e`/`E`, an optional sign, and
//! one or more digits.

use vstd::prelude::*;

use crate::token::JsonTokenKind;

verus! {

/// An ASCII decimal digit.
pub open spec fn is_ascii_digit(c: char) -> bool {
    48 <= (c as u32) <= 57
}

/// A Unicode whitespace character (the `White_Space` property).
pub open spec fn is_unicode_whitespace(c: char) -> bool {
    let u = c as u32;
    ||| u == 0x9
    ||| u == 0xA
    ||| u == 0xB
    ||| u == 0xC
    ||| u == 0xD
    ||| u == 0x20
    ||| u == 0x85
    ||| u == 0xA0
    ||| u == 0x1680
    ||| (0x2000 <= u && u <= 0x200A)
    ||| u == 0x2028
    ||| u == 0x2029
    ||| u == 0x202F
    ||| u == 0x205F
    ||| u == 0x3000
}

/// `s` with every trailing whitespace character removed.
pub open spec fn trim_end(s: Seq<char>) -> Seq<char>
    decreases s.len(),
{
    if s.len() > 0 && is_unicode_whitespace(s.last()) {
        trim_end(s.drop_last())
    } else {
        s
    }
}

/// `s` with one leading `+` or `-` removed, if present.
pub open spec fn strip_sign(s: Seq<char>) -> Seq<char> {
    if s.len() > 0 && (s[0] == '+' || s[0] == '-') {
        s.subrange(1, s.len() as int)
    } else {
        s
    }
}

/// `inf`, case-insensitively.
pub open spec fn is_inf_text(s: Seq<char>) -> bool {
    &&& s.len() == 3
    &&& (s[0] == 'i' || s[0] == 'I')
    &&& (s[1] == 'n' || s[1] == 'N')
    &&& (s[2] == 'f' || s[2] == 'F')
}

/// `infinity`, case-insensitively.
pub open spec fn is_infinity_text(s: Seq<char>) -> bool {
    &&& s.len() == 8
    &&& (s[0] == 'i' || s[0] == 'I')
    &&& (s[1] == 'n' || s[1] == 'N')
    &&& (s[2] == 'f' || s[2] == 'F')
    &&& (s[3] == 'i' || s[3] == 'I')
    &&& (s[4] == 'n' || s[4] == 'N')
    &&& (s[5] == 'i' || s[5] == 'I')
    &&& (s[6] == 't' || s[6] == 'T')
    &&& (s[7] == 'y' || s[7] == 'Y')
}

/// `nan`, case-insensitively.
pub open spec fn is_nan_text(s: Seq<char>) -> bool {
    &&& s.len() == 3
    &&& (s[0] == 'n' || s[0] == 'N')
    &&& (s[1] == 'a' || s[1] == 'A')
    &&& (s[2] == 'n' || s[2] == 'N')
}

/// An exponent marker.
pub open spec fn is_exp_marker(c: char) -> bool {
    c == 'e' || c == 'E'
}

/// A mantissa: one or more characters, each a digit or a decimal point, with
/// at least one digit and at most one decimal point.
pub open spec fn is_mantissa(s: Seq<char>) -> bool {
    &&& s.len() > 0
    &&& (forall|j: int| 0 <= j < s.len() ==> is_ascii_digit(#[trigger] s[j]) || s[j] == '.')
    &&& (exists|j: int| 0 <= j < s.len() && is_ascii_digit(#[trigger] s[j]))
    &&& (forall|p: int, q: int|
        0 <= p < s.len() && 0 <= q < s.len() && #[trigger] s[p] == '.' && #[trigger] s[q] == '.'
            ==> p == q)
}

/// An exponent's digits: an optional sign followed by one or more digits.
pub open spec fn is_exp_digits(s: Seq<char>) -> bool {
    let t = strip_sign(s);
    t.len() > 0 && (forall|j: int| 0 <= j < t.len() ==> is_ascii_digit(#[trigger] t[j]))
}

/// A signless number: a mantissa, optionally followed by an exponent marker
/// and exponent digits.
pub open spec fn is_number_body(s: Seq<char>) -> bool {
    ||| is_mantissa(s)
    ||| (exists|k: int|
        0 <= k < s.len() && is_exp_marker(#[trigger] s[k]) && is_mantissa(s.subrange(0, k))
            && is_exp_digits(s.subrange(k + 1, s.len() as int)))
}

/// A decimal floating-point literal, as Rust's standard library accepts when
/// parsing a float from text.
pub open spec fn is_float_literal(s: Seq<char>) -> bool {
    let t = strip_sign(s);
    is_inf_text(t) || is_infinity_text(t) || is_nan_text(t) || is_number_body(t)
}

/// `null`, exactly.
pub open spec fn is_null_text(s: Seq<char>) -> bool {
    s.len() == 4 && s[0] == 'n' && s[1] == 'u' && s[2] == 'l' && s[3] == 'l'
}

/// `true`, exactly.
pub open spec fn is_true_text(s: Seq<char>) -> bool {
    s.len() == 4 && s[0] == 't' && s[1] == 'r' && s[2] == 'u' && s[3] == 'e'
}

/// `false`, exactly.
pub open spec fn is_false_text(s: Seq<char>) -> bool {
    s.len() == 5 && s[0] == 'f' && s[1] == 'a' && s[2] == 'l' && s[3] == 's' && s[4] == 'e'
}

/// The kind of an unquoted scalar: one of the three keywords, a number if
/// the right-trimmed text is a decimal floating-point literal, and otherwise
/// a plain string.
pub open spec fn spec_classify(text: Seq<char>) -> JsonTokenKind {
    if is_null_text(text) {
        JsonTokenKind::Null
    } else if is_true_text(text) {
        JsonTokenKind::True
    } else if is_false_text(text) {
        JsonTokenKind::False
    } else if is_float_literal(trim_end(text)) {
        JsonTokenKind::Number
    } else {
        JsonTokenKind::String
    }
}

/// Whether `c` is Unicode whitespace.
pub fn is_whitespace_char(c: char) -> (b: bool)
    ensures
        b == is_unicode_whitespace(c),
{
    let u = c as u32;
    u == 0x9 || u == 0xA || u == 0xB || u == 0xC || u == 0xD || u == 0x20 || u == 0x85 || u == 0xA0
        || u == 0x1680 || (0x2000 <= u && u <= 0x200A) || u == 0x2028 || u == 0x2029 || u == 0x202F
        || u == 0x205F || u == 0x3000
}

/// The number of characters of `s` that remain once trailing whitespace is
/// removed.
pub fn trimmed_len(s: &str, n: usize) -> (t: usize)
    requires
        n == s@.len(),
    ensures
        t <= n,
        trim_end(s@) == s@.subrange(0, t as int),
{
    let mut t: usize = n;
    proof {
        assert(s@.subrange(0, n as int) =~= s@);
    }
    loop
        invariant
            0 <= t <= n,
            n == s@.len(),
            trim_end(s@) == trim_end(s@.subrange(0, t as int)),
        decreases t,
    {
        if t == 0 {
            proof {
                assert(s@.subrange(0, 0).len() == 0);
            }
            return 0;
        }
        let c = s.get_char(t - 1);
        if is_whitespace_char(c) {
            proof {
                assert(s@.subrange(0, t as int).last() == c);
                assert(s@.subrange(0, t as int).drop_last() =~= s@.subrange(0, t - 1));
            }
            t = t - 1;
        } else {
            proof {
                assert(s@.subrange(0, t as int).last() == c);
                assert(trim_end(s@.subrange(0, t as int)) == s@.subrange(0, t as int));
            }
            return t;
        }
    }
}

/// Whether the first `n` characters of `s` form a decimal floating-point
/// literal.
#[verifier::loop_isolation(false)]
pub fn is_number_str(s: &str, n: usize) -> (b: bool)
    requires
        n <= s@.len(),
    ensures
        b == is_float_literal(s@.subrange(0, n as int)),
{
    let ghost t = s@.subrange(0, n as int);
    let mut i0: usize = 0;
    if n > 0 {
        let c0 = s.get_char(0);
        if c0 == '+' || c0 == '-' {
            i0 = 1;
        }
    }
    let ghost u = strip_sign(t);
    proof {
        if i0 == 1 {
            assert(t.subrange(1, t.len() as int) =~= s@.subrange(1, n as int));
            assert(u =~= s@.subrange(i0 as int, n as int));
        } else {
            assert(u =~= s@.subrange(i0 as int, n as int));
        }
        assert(u.len() == n - i0);
        assert(forall|x: int| 0 <= x < u.len() ==> #[trigger] u[x] == s@[i0 + x]);
    }
    // The special forms inf, infinity and nan, case-insensitively.
    if n - i0 == 3 {
        let c0 = s.get_char(i0);
        let c1 = s.get_char(i0 + 1);
        let c2 = s.get_char(i0 + 2);
        if (c0 == 'i' || c0 == 'I') && (c1 == 'n' || c1 == 'N') && (c2 == 'f' || c2 == 'F') {
            return true;
        }
        if (c0 == 'n' || c0 == 'N') && (c1 == 'a' || c1 == 'A') && (c2 == 'n' || c2 == 'N') {
            return true;
        }
    }
    if n - i0 == 8 {
        let c0 = s.get_char(i0);
        let c1 = s.get_char(i0 + 1);
        let c2 = s.get_char(i0 + 2);
        let c3 = s.get_char(i0 + 3);
        let c4 = s.get_char(i0 + 4);
        let c5 = s.get_char(i0 + 5);
        let c6 = s.get_char(i0 + 6);
        let c7 = s.get_char(i0 + 7);
        if (c0 == 'i' || c0 == 'I') && (c1 == 'n' || c1 == 'N') && (c2 == 'f' || c2 == 'F') && (c3
            == 'i' || c3 == 'I') && (c4 == 'n' || c4 == 'N') && (c5 == 'i' || c5 == 'I') && (c6
            == 't' || c6 == 'T') && (c7 == 'y' || c7 == 'Y') {
            return true;
        }
    }
    proof {
        // None of the special forms matched.
        if u.len() == 3 {
            assert(u[0] == s@[i0 as int]);
            assert(u[1] == s@[i0 + 1]);
            assert(u[2] == s@[i0 + 2]);
        }
        if u.len() == 8 {
            assert(u[0] == s@[i0 as int]);
            assert(u[1] == s@[i0 + 1]);
            assert(u[2] == s@[i0 + 2]);
            assert(u[3] == s@[i0 + 3]);
            assert(u[4] == s@[i0 + 4]);
            assert(u[5] == s@[i0 + 5]);
            assert(u[6] == s@[i0 + 6]);
            assert(u[7] == s@[i0 + 7]);
        }
        assert(!is_inf_text(u) && !is_nan_text(u) && !is_infinity_text(u));
    }
    // The mantissa: digits with at most one decimal point, stopping at an
    // exponent marker.
    let mut k: usize = i0;
    let mut saw_digit = false;
    let mut saw_dot = false;
    let mut exp_at: Option<usize> = None;
    while k < n && exp_at.is_none()
        invariant
            i0 <= k <= n,
            n <= s@.len(),
            t == s@.subrange(0, n as int),
            u == strip_sign(t),
            u.len() == n - i0,
            forall|x: int| 0 <= x < u.len() ==> #[trigger] u[x] == s@[i0 + x],
            forall|j: int|
                i0 <= j < k ==> is_ascii_digit(#[trigger] s@[j]) || s@[j] == '.',
            saw_digit <==> (exists|j: int| i0 <= j < k && is_ascii_digit(#[trigger] s@[j])),
            saw_dot <==> (exists|j: int| i0 <= j < k && #[trigger] s@[j] == '.'),
            forall|p: int, q: int|
                i0 <= p < k && i0 <= q < k && #[trigger] s@[p] == '.' && #[trigger] s@[q] == '.'
                    ==> p == q,
            match exp_at {
                Some(e) => e == k && k < n && is_exp_marker(s@[e as int]),
                None => true,
            },
        decreases n - k + (if exp_at.is_none() {
            1int
        } else {
            0int
        }),
    {
        let c = s.get_char(k);
        let cu = c as u32;
        if 48 <= cu && cu <= 57 {
            saw_digit = true;
            k = k + 1;
        } else if c == '.' {
            if saw_dot {
                // A second decimal point: no split into mantissa and
                // exponent can succeed, since every exponent marker lies at
                // or beyond this point and would leave both points in the
                // mantissa.
                proof {
                    let d1 = choose|j: int| i0 <= j < k && #[trigger] s@[j] == '.';
                    assert(u[d1 - i0] == '.' && u[k - i0] == '.');
                    assert(!is_mantissa(u));
                    assert forall|kk: int|
                        0 <= kk < u.len() && is_exp_marker(#[trigger] u[kk]) implies !(is_mantissa(
                        u.subrange(0, kk),
                    ) && is_exp_digits(u.subrange(kk + 1, u.len() as int))) by {
                        assert(kk + i0 >= k);
                        if kk > k - i0 {
                            assert(u.subrange(0, kk)[d1 - i0] == '.');
                            assert(u.subrange(0, kk)[k - i0] == '.');
                            assert(!is_mantissa(u.subrange(0, kk)));
                        }
                    }
                    assert(!is_number_body(u));
                }
                return false;
            }
            saw_dot = true;
            k = k + 1;
        } else if c == 'e' || c == 'E' {
            exp_at = Some(k);
        } else {
            // A character that is neither digit, point, nor exponent
            // marker: it poisons the mantissa of every possible split.
            proof {
                assert(u[k - i0] == s@[k as int]);
                assert(!is_mantissa(u));
                assert forall|kk: int|
                    0 <= kk < u.len() && is_exp_marker(#[trigger] u[kk]) implies !(is_mantissa(
                    u.subrange(0, kk),
                ) && is_exp_digits(u.subrange(kk + 1, u.len() as int))) by {
                    assert(kk + i0 >= k);
                    if kk > k - i0 {
                        assert(u.subrange(0, kk)[k - i0] == s@[k as int]);
                        assert(!is_mantissa(u.subrange(0, kk)));
                    }
                }
                assert(!is_number_body(u));
            }
            return false;
        }
    }
    if !saw_digit {
        // No digit before the end or the exponent marker: every candidate
        // mantissa is digitless.
        proof {
            match exp_at {
                None => {
                    assert(!is_mantissa(u));
                    assert forall|kk: int|
                        0 <= kk < u.len() && is_exp_marker(#[trigger] u[kk]) implies !(is_mantissa(
                        u.subrange(0, kk),
                    ) && is_exp_digits(u.subrange(kk + 1, u.len() as int))) by {
                        assert(u[kk] == s@[i0 + kk]);
                    }
                    assert(!is_number_body(u));
                },
                Some(e) => {
                    assert(u[e - i0] == s@[e as int]);
                    assert(!is_mantissa(u));
                    assert forall|kk: int|
                        0 <= kk < u.len() && is_exp_marker(#[trigger] u[kk]) implies !(is_mantissa(
                        u.subrange(0, kk),
                    ) && is_exp_digits(u.subrange(kk + 1, u.len() as int))) by {
                        if kk < e - i0 {
                            assert(u[kk] == s@[i0 + kk]);
                        } else if kk == e - i0 {
                            let mp = u.subrange(0, kk);
                            assert forall|j: int| 0 <= j < mp.len() implies !is_ascii_digit(
                                #[trigger] mp[j],
                            ) by {
                                assert(mp[j] == s@[i0 + j]);
                            }
                            assert(!is_mantissa(mp));
                        } else {
                            assert(u.subrange(0, kk)[e - i0] == s@[e as int]);
                            assert(!is_mantissa(u.subrange(0, kk)));
                        }
                    }
                    assert(!is_number_body(u));
                },
            }
        }
        return false;
    }
    let e = match exp_at {
        None => {
            // Digits and at most one point, nothing else: a plain mantissa.
            proof {
                let d = choose|j: int| i0 <= j < k && is_ascii_digit(#[trigger] s@[j]);
                assert(is_ascii_digit(u[d - i0]));
                assert(is_mantissa(u));
            }
            return true;
        },
        Some(e) => e,
    };
    // An exponent: an optional sign, then one or more digits.
    let mut j: usize = e + 1;
    if j < n {
        let cj = s.get_char(j);
        if cj == '+' || cj == '-' {
            j = j + 1;
        }
    }
    let ghost j0 = j as int;
    let ghost ep = u.subrange(e - i0 + 1, u.len() as int);
    proof {
        assert(forall|x: int| 0 <= x < ep.len() ==> #[trigger] ep[x] == s@[e + 1 + x]);
        if j0 > e + 1 {
            assert(ep.len() > 0 && (ep[0] == '+' || ep[0] == '-'));
            assert(strip_sign(ep) =~= u.subrange(e - i0 + 2, u.len() as int));
        } else {
            assert(strip_sign(ep) == ep);
        }
        assert(forall|x: int|
            0 <= x < strip_sign(ep).len() ==> #[trigger] strip_sign(ep)[x] == s@[j0 + x]);
        assert(strip_sign(ep).len() == n - j0);
    }
    if j == n {
        // No digits after the marker and optional sign.
        proof {
            lemma_no_exp_split(s@, u, i0 as int, k as int, e as int, n as int);
        }
        return false;
    }
    while j < n
        invariant
            j0 <= j <= n,
            n <= s@.len(),
            u == strip_sign(s@.subrange(0, n as int)),
            u.len() == n - i0,
            i0 <= k <= n,
            i0 <= e < n,
            e - i0 < u.len(),
            e < j0 <= e + 2,
            j0 <= n,
            is_exp_marker(s@[e as int]),
            forall|x: int| 0 <= x < u.len() ==> #[trigger] u[x] == s@[i0 + x],
            ep == u.subrange(e - i0 + 1, u.len() as int),
            strip_sign(ep).len() == n - j0,
            forall|x: int|
                0 <= x < strip_sign(ep).len() ==> #[trigger] strip_sign(ep)[x] == s@[j0 + x],
            forall|x: int| j0 <= x < j ==> is_ascii_digit(#[trigger] s@[x]),
            forall|jj: int|
                i0 <= jj < e ==> is_ascii_digit(#[trigger] s@[jj]) || s@[jj] == '.',
            exists|jj: int| i0 <= jj < e && is_ascii_digit(#[trigger] s@[jj]),
            forall|p: int, q: int|
                i0 <= p < e && i0 <= q < e && #[trigger] s@[p] == '.' && #[trigger] s@[q] == '.'
                    ==> p == q,
        decreases n - j,
    {
        let c = s.get_char(j);
        let cu = c as u32;
        if 48 <= cu && cu <= 57 {
            j = j + 1;
        } else {
            // A non-digit inside the exponent.
            proof {
                assert(strip_sign(ep)[j - j0] == s@[j as int]);
                assert(!is_exp_digits(ep));
                lemma_no_exp_split(s@, u, i0 as int, k as int, e as int, n as int);
            }
            return false;
        }
    }
    // A mantissa up to the marker, then sign and digits: a number.
    proof {
        let mp = u.subrange(0, e - i0);
        assert(forall|x: int| 0 <= x < mp.len() ==> #[trigger] mp[x] == s@[i0 + x]);
        let d = choose|jj: int| i0 <= jj < e && is_ascii_digit(#[trigger] s@[jj]);
        assert(is_ascii_digit(mp[d - i0]));
        assert(is_mantissa(mp));
        assert(forall|x: int|
            0 <= x < strip_sign(ep).len() ==> is_ascii_digit(#[trigger] strip_sign(ep)[x]));
        assert(is_exp_digits(ep));
        assert(is_exp_marker(u[e - i0]));
        assert(is_number_body(u));
    }
    true
}

/// When the characters before the exponent marker at `e` are digits and
/// points but the part after `e` fails to be exponent digits, no split of
/// the stripped text into mantissa and exponent succeeds.
proof fn lemma_no_exp_split(s: Seq<char>, u: Seq<char>, i0: int, k: int, e: int, n: int)
    requires
        0 <= i0 <= e < n <= s.len(),
        u.len() == n - i0,
        forall|x: int| 0 <= x < u.len() ==> #[trigger] u[x] == s[i0 + x],
        is_exp_marker(s[e]),
        forall|j: int| i0 <= j < e ==> is_ascii_digit(#[trigger] s[j]) || s[j] == '.',
        !is_exp_digits(u.subrange(e - i0 + 1, u.len() as int)),
    ensures
        !is_number_body(u),
{
    assert(u[e - i0] == s[e]);
    assert(!is_mantissa(u));
    assert forall|kk: int|
        0 <= kk < u.len() && is_exp_marker(#[trigger] u[kk]) implies !(is_mantissa(
        u.subrange(0, kk),
    ) && is_exp_digits(u.subrange(kk + 1, u.len() as int))) by {
        if kk < e - i0 {
            assert(u[kk] == s[i0 + kk]);
        } else if kk > e - i0 {
            assert(u.subrange(0, kk)[e - i0] == s[e]);
            assert(!is_mantissa(u.subrange(0, kk)));
        }
    }
}

/// The kind of an unquoted scalar's text.
pub fn classify_scalar(text: &str) -> (k: JsonTokenKind)
    ensures
        k == spec_classify(text@),
{
    let n = text.unicode_len();
    if n == 4 {
        let c0 = text.get_char(0);
        let c1 = text.get_char(1);
        let c2 = text.get_char(2);
        let c3 = text.get_char(3);
        if c0 == 'n' && c1 == 'u' && c2 == 'l' && c3 == 'l' {
            return JsonTokenKind::Null;
        }
        if c0 == 't' && c1 == 'r' && c2 == 'u' && c3 == 'e' {
            return JsonTokenKind::True;
        }
    }
    if n == 5 {
        let c0 = text.get_char(0);
        let c1 = text.get_char(1);
        let c2 = text.get_char(2);
        let c3 = text.get_char(3);
        let c4 = text.get_char(4);
        if c0 == 'f' && c1 == 'a' && c2 == 'l' && c3 == 's' && c4 == 'e' {
            return JsonTokenKind::False;
        }
    }
    let tn = trimmed_len(text, n);
    if is_number_str(text, tn) {
        JsonTokenKind::Number
    } else {
        JsonTokenKind::String
    }
}

} // verus!
