//! Recognising numbers written as text.
use vstd::prelude::*;

verus! {

/// An ASCII decimal digit.
pub open spec fn is_digit(c: char) -> bool {
    '0' <= c && c <= '9'
}

pub open spec fn digit_value(c: char) -> nat {
    (c as nat - '0' as nat) as nat
}

/// Every character of `s` is a decimal digit.
pub open spec fn all_digits(s: Seq<char>) -> bool {
    forall|i: int| 0 <= i < s.len() ==> is_digit(#[trigger] s[i])
}

/// The value of a string of decimal digits, most significant first.
pub open spec fn digits_value(s: Seq<char>) -> nat
    decreases s.len(),
{
    if s.len() == 0 {
        0
    } else {
        digits_value(s.drop_last()) * 10 + digit_value(s.last())
    }
}

/// `s` without a leading `+`, if it has one.
pub open spec fn drop_plus(s: Seq<char>) -> Seq<char> {
    if s.len() > 0 && s[0] == '+' {
        s.skip(1)
    } else {
        s
    }
}

/// The unsigned integer that `s` writes: an optional `+` and then one or more
/// decimal digits, nothing else.
pub open spec fn uint_of(s: Seq<char>) -> Option<nat> {
    let d = drop_plus(s);
    if d.len() > 0 && all_digits(d) {
        Some(digits_value(d))
    } else {
        None
    }
}

/// Reads an unsigned integer written in decimal, with an optional leading `+`.
/// Returns `None` when the text is not such a number or the value does not fit
/// in a `usize`.
pub fn parse_uint(s: &str) -> (r: Option<usize>)
    ensures
        r == (match uint_of(s@) {
            Some(v) => if v <= usize::MAX { Some(v as usize) } else { None::<usize> },
            None => None::<usize>,
        }),
{
    let n = s.unicode_len();
    let mut start: usize = 0;
    if n > 0 && s.get_char(0) == '+' {
        start = 1;
    }
    let ghost d = drop_plus(s@);
    assert(d =~= s@.subrange(start as int, n as int));
    if start == n {
        return None;
    }
    let mut acc: usize = 0;
    let mut i: usize = start;
    while i < n
        invariant
            start <= i <= n,
            n == s@.len(),
            d == s@.subrange(start as int, n as int),
            d == drop_plus(s@),
            all_digits(d.subrange(0, i - start)),
            acc as nat == digits_value(d.subrange(0, i - start)),
        decreases n - i,
    {
        let c = s.get_char(i);
        if !('0' <= c && c <= '9') {
            assert(d[i - start] == c);
            assert(!is_digit(d[i - start]));
            return None;
        }
        let dv = (c as u32 - '0' as u32) as usize;
        assert(d.subrange(0, i + 1 - start).drop_last() =~= d.subrange(0, i - start));
        assert(d.subrange(0, i + 1 - start).last() == c);
        assert(all_digits(d.subrange(0, i + 1 - start))) by {
            assert forall|j: int| 0 <= j < i + 1 - start implies is_digit(
                #[trigger] d.subrange(0, i + 1 - start)[j],
            ) by {
                if j < i - start {
                    assert(d.subrange(0, i + 1 - start)[j] == d.subrange(0, i - start)[j]);
                }
            }
        }
        if acc > (usize::MAX - dv) / 10 {
            proof {
                lemma_digits_value_prefix_grows(d, i + 1 - start);
                assert(digits_value(d.subrange(0, i + 1 - start)) > usize::MAX) by (nonlinear_arith)
                    requires
                        acc > (usize::MAX - dv) / 10,
                        digits_value(d.subrange(0, i + 1 - start)) == acc * 10 + dv,
                ;
                if all_digits(d) {
                    assert(d.subrange(0, d.len() as int) =~= d);
                }
            }
            return None;
        }
        assert(acc * 10 + dv <= usize::MAX) by (nonlinear_arith)
            requires
                acc <= (usize::MAX - dv) / 10,
                dv <= 9,
        ;
        acc = acc * 10 + dv;
        i = i + 1;
    }
    assert(d.subrange(0, n - start) =~= d);
    Some(acc)
}

/// The value of a digit string only grows as digits are appended.
proof fn lemma_digits_value_prefix_grows(d: Seq<char>, k: int)
    requires
        0 <= k <= d.len(),
        all_digits(d.subrange(0, k)),
    ensures
        all_digits(d) ==> digits_value(d.subrange(0, k)) <= digits_value(d),
    decreases d.len() - k,
{
    if k < d.len() && all_digits(d) {
        assert(d.subrange(0, k + 1).drop_last() =~= d.subrange(0, k));
        lemma_digits_value_prefix_grows(d, k + 1);
    } else if k == d.len() {
        assert(d.subrange(0, k) =~= d);
    }
}

/// How many decimal digits follow one another from position `p` of `s` on.
pub open spec fn digits_from(s: Seq<char>, p: int) -> nat
    decreases s.len() - p,
{
    if 0 <= p < s.len() && is_digit(s[p]) {
        1 + digits_from(s, p + 1)
    } else {
        0
    }
}

/// Length of an optional leading sign.
pub open spec fn sign_len(s: Seq<char>) -> int {
    if s.len() > 0 && (s[0] == '+' || s[0] == '-') {
        1
    } else {
        0
    }
}

/// `c` is the lower case ASCII letter `w`, in either case.
pub open spec fn same_letter(c: char, w: char) -> bool {
    c == w || c as u32 + 32 == w as u32
}

/// From position `o` to its end, `s` spells the lower case word `w`, ignoring
/// ASCII case.
pub open spec fn word_at(s: Seq<char>, o: int, w: Seq<char>) -> bool {
    s.len() - o == w.len() && forall|i: int| 0 <= i < w.len() ==> same_letter(#[trigger] s[o + i], w[i])
}

/// From position `m` to its end, `s` is an exponent: `e` or `E`, an optional
/// sign, and one or more digits.
pub open spec fn exponent_at(s: Seq<char>, m: int) -> bool {
    let q = if m + 1 < s.len() && (s[m + 1] == '+' || s[m + 1] == '-') {
        m + 2
    } else {
        m + 1
    };
    0 <= m < s.len() && (s[m] == 'e' || s[m] == 'E') && q < s.len() && digits_from(s, q) == s.len() - q
}

/// From position `o` to its end, `s` is a decimal number: digits with an
/// optional fraction, at least one digit in all, then an optional exponent.
pub open spec fn decimal_at(s: Seq<char>, o: int) -> bool {
    let a = digits_from(s, o);
    let has_dot = o + a < s.len() && s[o + a] == '.';
    let b = if has_dot {
        digits_from(s, o + a + 1)
    } else {
        0
    };
    let m = if has_dot {
        o + a + 1 + b
    } else {
        o + a
    };
    a + b >= 1 && (m == s.len() || exponent_at(s, m))
}

/// `s` is the text of a floating-point number: an optional sign, then `inf`,
/// `infinity` or `nan` in any ASCII case, or a decimal number.
pub open spec fn is_number_text(s: Seq<char>) -> bool {
    let o = sign_len(s);
    word_at(s, o, seq!['i', 'n', 'f']) || word_at(s, o, seq!['i', 'n', 'f', 'i', 'n', 'i', 't', 'y'])
        || word_at(s, o, seq!['n', 'a', 'n']) || decimal_at(s, o)
}

fn is_digit_char(c: char) -> (r: bool)
    ensures
        r == is_digit(c),
{
    '0' <= c && c <= '9'
}

/// The position after the run of digits that starts at `p`.
fn skip_digits(s: &str, n: usize, p: usize) -> (q: usize)
    requires
        n == s@.len(),
        p <= n,
    ensures
        q == p + digits_from(s@, p as int),
        q <= n,
{
    let mut q = p;
    while q < n && is_digit_char(s.get_char(q))
        invariant
            p <= q <= n,
            n == s@.len(),
            digits_from(s@, p as int) == (q - p) + digits_from(s@, q as int),
        decreases n - q,
    {
        q = q + 1;
    }
    q
}

fn word_matches(s: &str, n: usize, o: usize, w: &Vec<char>) -> (r: bool)
    requires
        n == s@.len(),
        o <= n,
    ensures
        r == word_at(s@, o as int, w@),
{
    if n - o != w.len() {
        return false;
    }
    let mut i: usize = 0;
    while i < w.len()
        invariant
            n == s@.len(),
            o <= n,
            n - o == w@.len(),
            i <= w@.len(),
            forall|j: int| 0 <= j < i ==> same_letter(#[trigger] s@[o + j], w@[j]),
        decreases w@.len() - i,
    {
        let c = s.get_char(o + i);
        let l = w[i];
        if !(c == l || c as u32 + 32 == l as u32) {
            return false;
        }
        i = i + 1;
    }
    true
}

/// Whether `s` is the text of a floating-point number (see `is_number_text`):
/// the values that count as numeric when they are stored as text.
pub fn is_number(s: &str) -> (r: bool)
    ensures
        r == is_number_text(s@),
{
    let n = s.unicode_len();
    let mut o: usize = 0;
    if n > 0 {
        let c = s.get_char(0);
        if c == '+' || c == '-' {
            o = 1;
        }
    }
    let inf = vec!['i', 'n', 'f'];
    let infinity = vec!['i', 'n', 'f', 'i', 'n', 'i', 't', 'y'];
    let nan = vec!['n', 'a', 'n'];
    assert(inf@ =~= seq!['i', 'n', 'f']);
    assert(infinity@ =~= seq!['i', 'n', 'f', 'i', 'n', 'i', 't', 'y']);
    assert(nan@ =~= seq!['n', 'a', 'n']);
    if word_matches(s, n, o, &inf) || word_matches(s, n, o, &infinity) || word_matches(
        s,
        n,
        o,
        &nan,
    ) {
        return true;
    }
    let ae = skip_digits(s, n, o);
    let has_dot = ae < n && s.get_char(ae) == '.';
    let m = if has_dot {
        skip_digits(s, n, ae + 1)
    } else {
        ae
    };
    let total = if has_dot {
        m - o - 1
    } else {
        m - o
    };
    if total < 1 {
        return false;
    }
    if m == n {
        return true;
    }
    let e = s.get_char(m);
    if !(e == 'e' || e == 'E') {
        return false;
    }
    let mut q = m + 1;
    if q < n {
        let sg = s.get_char(q);
        if sg == '+' || sg == '-' {
            q = q + 1;
        }
    }
    if q >= n {
        return false;
    }
    skip_digits(s, n, q) == n
}

} // verus!
