//! Recognisers for the textual forms of integers, floating-point numbers and
//! booleans, each stated against the grammar it accepts.
use vstd::prelude::*;

verus! {

pub open spec fn is_digit(c: char) -> bool {
    '0' <= c && c <= '9'
}

pub open spec fn digit_value(c: char) -> int {
    (c as u32) as int - ('0' as u32) as int
}

pub open spec fn all_digits(s: Seq<char>) -> bool {
    forall|i: int| 0 <= i < s.len() ==> is_digit(#[trigger] s[i])
}

/// The value of a string of decimal digits, most significant first.
pub open spec fn digits_value(s: Seq<char>) -> int
    decreases s.len(),
{
    if s.len() == 0 {
        0
    } else {
        digits_value(s.drop_last()) * 10 + digit_value(s.last())
    }
}

/// An optional minus sign followed by one or more decimal digits.
pub open spec fn is_int_text(s: Seq<char>) -> bool {
    let d = if s.len() > 0 && s[0] == '-' {
        s.drop_first()
    } else {
        s
    };
    d.len() > 0 && all_digits(d)
}

/// The value written by a text that satisfies `is_int_text`.
pub open spec fn int_text_value(s: Seq<char>) -> int {
    if s.len() > 0 && s[0] == '-' {
        -digits_value(s.drop_first())
    } else {
        digits_value(s)
    }
}

/// Decimal integer text whose value fits in an `i128`.
pub open spec fn parses_as_i128(s: Seq<char>) -> bool {
    is_int_text(s) && i128::MIN <= int_text_value(s) <= i128::MAX
}

pub open spec fn is_sign(c: char) -> bool {
    c == '+' || c == '-'
}

/// The text after one leading sign, if there is one.
pub open spec fn unsigned_part(s: Seq<char>) -> Seq<char> {
    if s.len() > 0 && is_sign(s[0]) {
        s.drop_first()
    } else {
        s
    }
}

/// Whether `c` is the ASCII letter `l` (given in lower case) in either case.
pub open spec fn ascii_ci_char(c: char, l: char) -> bool {
    c == l || (c as u32) as int + 32 == (l as u32) as int
}

/// Whether `s` spells `lower` (lower-case ASCII letters) in any mix of cases.
pub open spec fn ascii_ci_eq(s: Seq<char>, lower: Seq<char>) -> bool {
    s.len() == lower.len() && forall|i: int| 0 <= i < s.len() ==> ascii_ci_char(#[trigger] s[i], lower[i])
}

/// Digits with at most one decimal point among them, and at least one digit.
pub open spec fn is_mantissa(m: Seq<char>) -> bool {
    &&& forall|i: int| 0 <= i < m.len() ==> is_digit(#[trigger] m[i]) || m[i] == '.'
    &&& forall|i: int, j: int|
        0 <= i < m.len() && 0 <= j < m.len() && #[trigger] m[i] == '.' && #[trigger] m[j] == '.'
            ==> i == j
    &&& exists|i: int| 0 <= i < m.len() && is_digit(#[trigger] m[i])
}

pub open spec fn is_exp_mark(c: char) -> bool {
    c == 'e' || c == 'E'
}

/// An exponent: `e` or `E`, an optional sign, one or more digits.
pub open spec fn is_exponent(e: Seq<char>) -> bool {
    e.len() > 0 && is_exp_mark(e[0]) && unsigned_part(e.drop_first()).len() > 0 && all_digits(
        unsigned_part(e.drop_first()),
    )
}

/// A mantissa, optionally followed by an exponent.
pub open spec fn is_number_text(b: Seq<char>) -> bool {
    exists|k: int|
        0 <= k <= b.len() && #[trigger] is_mantissa(b.subrange(0, k)) && (k == b.len()
            || is_exponent(b.subrange(k, b.len() as int)))
}

pub open spec fn is_special_float_word(w: Seq<char>) -> bool {
    ||| ascii_ci_eq(w, seq!['i', 'n', 'f'])
    ||| ascii_ci_eq(w, seq!['i', 'n', 'f', 'i', 'n', 'i', 't', 'y'])
    ||| ascii_ci_eq(w, seq!['n', 'a', 'n'])
}

/// The text that `f64`'s `FromStr` accepts: an optional sign, then `inf`,
/// `infinity`, `nan` (in any case) or a decimal number with optional exponent.
pub open spec fn is_float_text(s: Seq<char>) -> bool {
    is_special_float_word(unsigned_part(s)) || is_number_text(unsigned_part(s))
}

/// `true` or `false`, in any mix of cases.
pub open spec fn is_bool_text(s: Seq<char>) -> bool {
    ascii_ci_eq(s, seq!['t', 'r', 'u', 'e']) || ascii_ci_eq(s, seq!['f', 'a', 'l', 's', 'e'])
}

proof fn lemma_digits_value_nonneg(s: Seq<char>)
    requires
        all_digits(s),
    ensures
        digits_value(s) >= 0,
    decreases s.len(),
{
    if s.len() > 0 {
        lemma_digits_value_nonneg(s.drop_last());
    }
}

/// A prefix of a digit string never has a larger value than the whole.
proof fn lemma_digits_value_prefix(s: Seq<char>, k: int)
    requires
        all_digits(s),
        0 <= k <= s.len(),
    ensures
        digits_value(s.subrange(0, k)) <= digits_value(s),
    decreases s.len(),
{
    if k < s.len() {
        let t = s.drop_last();
        assert(s.subrange(0, k) =~= t.subrange(0, k));
        lemma_digits_value_prefix(t, k);
        lemma_digits_value_nonneg(t);
        assert(is_digit(s[s.len() - 1]));
    } else {
        assert(s.subrange(0, k) =~= s);
    }
}

/// A copy of `s[lo..hi]`.
pub(crate) fn sub_chars(s: &Vec<char>, lo: usize, hi: usize) -> (r: Vec<char>)
    requires
        lo <= hi <= s@.len(),
    ensures
        r@ == s@.subrange(lo as int, hi as int),
{
    let mut r: Vec<char> = Vec::new();
    let mut i: usize = lo;
    while i < hi
        invariant
            lo <= i <= hi <= s@.len(),
            r@ == s@.subrange(lo as int, i as int),
        decreases hi - i,
    {
        r.push(s[i]);
        i = i + 1;
        assert(r@ =~= s@.subrange(lo as int, i as int));
    }
    r
}

const I128_MAX_MAGNITUDE: u128 = 170141183460469231731687303715884105727;

const I128_MIN_MAGNITUDE: u128 = 170141183460469231731687303715884105728;

/// Reads a decimal integer: an optional `-`, then digits only.
pub fn parse_i128(s: &Vec<char>) -> (r: Option<i128>)
    ensures
        r is Some <==> parses_as_i128(s@),
        r is Some ==> r->0 as int == int_text_value(s@),
{
    let neg = s.len() > 0 && s[0] == '-';
    let start: usize = if neg { 1 } else { 0 };
    let limit: u128 = if neg { I128_MIN_MAGNITUDE } else { I128_MAX_MAGNITUDE };
    let ghost d = if neg { s@.drop_first() } else { s@ };
    assert(d =~= s@.subrange(start as int, s@.len() as int));
    if start >= s.len() {
        return None;
    }
    let mut mag: u128 = 0;
    let mut i: usize = start;
    while i < s.len()
        invariant
            start <= i <= s@.len(),
            neg == (s@.len() > 0 && s@[0] == '-'),
            start == (if neg { 1usize } else { 0usize }),
            limit == (if neg { I128_MIN_MAGNITUDE } else { I128_MAX_MAGNITUDE }),
            d == (if neg { s@.drop_first() } else { s@ }),
            d == s@.subrange(start as int, s@.len() as int),
            all_digits(d.subrange(0, i - start)),
            mag as int == digits_value(d.subrange(0, i - start)),
            mag <= limit,
        decreases s@.len() - i,
    {
        let c = s[i];
        if !('0' <= c && c <= '9') {
            assert(d[i - start] == c);
            assert(!all_digits(d));
            return None;
        }
        let digit = (c as u32 - '0' as u32) as u128;
        let ghost p = d.subrange(0, i + 1 - start);
        assert(p.drop_last() =~= d.subrange(0, i - start));
        assert(all_digits(p));
        assert(digits_value(p) == mag * 10 + digit);
        match mag.checked_mul(10) {
            None => {
                proof {
                    if all_digits(d) {
                        lemma_digits_value_prefix(d, i + 1 - start);
                        assert(int_text_value(s@) == if neg { -digits_value(d) } else { digits_value(d) });
                    }
                }
                return None;
            },
            Some(m) => match m.checked_add(digit) {
                None => {
                    proof {
                        if all_digits(d) {
                            lemma_digits_value_prefix(d, i + 1 - start);
                        }
                    }
                    return None;
                },
                Some(next) => {
                    if next > limit {
                        proof {
                            if all_digits(d) {
                                lemma_digits_value_prefix(d, i + 1 - start);
                            }
                        }
                        return None;
                    }
                    mag = next;
                },
            },
        }
        i = i + 1;
    }
    assert(d.subrange(0, i - start) =~= d);
    if neg {
        if mag == I128_MIN_MAGNITUDE {
            Some(i128::MIN)
        } else {
            Some(0 - (mag as i128))
        }
    } else {
        Some(mag as i128)
    }
}

/// Whether `s` is non-empty and made of decimal digits only.
fn nonempty_digits(s: &Vec<char>) -> (r: bool)
    ensures
        r == (s@.len() > 0 && all_digits(s@)),
{
    if s.len() == 0 {
        return false;
    }
    let mut i: usize = 0;
    while i < s.len()
        invariant
            0 <= i <= s@.len(),
            forall|j: int| 0 <= j < i ==> is_digit(#[trigger] s@[j]),
        decreases s@.len() - i,
    {
        if !('0' <= s[i] && s[i] <= '9') {
            return false;
        }
        i = i + 1;
    }
    true
}

/// The text after one leading sign, if there is one.
fn strip_sign(s: &Vec<char>) -> (r: Vec<char>)
    ensures
        r@ == unsigned_part(s@),
{
    if s.len() > 0 && (s[0] == '+' || s[0] == '-') {
        let r = sub_chars(s, 1, s.len());
        assert(r@ =~= s@.drop_first());
        r
    } else {
        sub_chars(s, 0, s.len())
    }
}

/// Whether `s` spells `lower` (lower-case ASCII letters) in any mix of cases.
fn ascii_ci_matches(s: &Vec<char>, lower: &Vec<char>) -> (r: bool)
    ensures
        r == ascii_ci_eq(s@, lower@),
{
    if s.len() != lower.len() {
        return false;
    }
    let mut i: usize = 0;
    while i < s.len()
        invariant
            s@.len() == lower@.len(),
            0 <= i <= s@.len(),
            forall|j: int| 0 <= j < i ==> ascii_ci_char(#[trigger] s@[j], lower@[j]),
        decreases s@.len() - i,
    {
        let c = s[i];
        let l = lower[i];
        if !(c == l || ((l as u32) >= 32 && (c as u32) == (l as u32) - 32)) {
            assert(!ascii_ci_char(s@[i as int], lower@[i as int]));
            return false;
        }
        i = i + 1;
    }
    true
}

fn check_mantissa(m: &Vec<char>) -> (r: bool)
    ensures
        r == is_mantissa(m@),
{
    let mut dot_at: Option<usize> = None;
    let mut digit_at: Option<usize> = None;
    let mut i: usize = 0;
    while i < m.len()
        invariant
            0 <= i <= m@.len(),
            forall|j: int| 0 <= j < i ==> is_digit(#[trigger] m@[j]) || m@[j] == '.',
            match dot_at {
                None => forall|j: int| 0 <= j < i ==> #[trigger] m@[j] != '.',
                Some(k) => k < i && m@[k as int] == '.' && forall|j: int|
                    0 <= j < i && #[trigger] m@[j] == '.' ==> j == k,
            },
            match digit_at {
                None => forall|j: int| 0 <= j < i ==> !is_digit(#[trigger] m@[j]),
                Some(k) => k < i && is_digit(m@[k as int]),
            },
        decreases m@.len() - i,
    {
        let c = m[i];
        if c == '.' {
            if let Some(k) = dot_at {
                assert(m@[k as int] == '.' && m@[i as int] == '.');
                return false;
            }
            dot_at = Some(i);
        } else if '0' <= c && c <= '9' {
            digit_at = Some(i);
        } else {
            assert(!(is_digit(m@[i as int]) || m@[i as int] == '.'));
            return false;
        }
        i = i + 1;
    }
    match digit_at {
        None => false,
        Some(k) => {
            assert(is_digit(m@[k as int]));
            true
        },
    }
}

fn check_exponent(e: &Vec<char>) -> (r: bool)
    ensures
        r == is_exponent(e@),
{
    if e.len() == 0 || !(e[0] == 'e' || e[0] == 'E') {
        return false;
    }
    let rest = sub_chars(e, 1, e.len());
    assert(rest@ =~= e@.drop_first());
    let digits = strip_sign(&rest);
    nonempty_digits(&digits)
}

fn check_number(b: &Vec<char>) -> (r: bool)
    ensures
        r == is_number_text(b@),
{
    let mut k: usize = 0;
    while k < b.len() && !(b[k] == 'e' || b[k] == 'E')
        invariant
            0 <= k <= b@.len(),
            forall|j: int| 0 <= j < k ==> !is_exp_mark(#[trigger] b@[j]),
        decreases b@.len() - k,
    {
        k = k + 1;
    }
    let m = sub_chars(b, 0, k);
    let ok = if check_mantissa(&m) {
        if k == b.len() {
            true
        } else {
            let e = sub_chars(b, k, b.len());
            check_exponent(&e)
        }
    } else {
        false
    };
    if ok {
        assert(is_mantissa(b@.subrange(0, k as int)));
    } else {
        assert forall|k2: int|
            0 <= k2 <= b@.len() && #[trigger] is_mantissa(b@.subrange(0, k2)) implies !(k2
                == b@.len() || is_exponent(b@.subrange(k2, b@.len() as int))) by {
            if k2 < k {
                assert(!is_exp_mark(b@[k2]));
                assert(b@.subrange(k2, b@.len() as int)[0] == b@[k2]);
            } else if k2 > k {
                assert(b@.subrange(0, k2)[k as int] == b@[k as int]);
                assert(is_exp_mark(b@[k as int]));
            }
        }
    }
    ok
}

/// Whether `s` is text that `f64`'s `FromStr` accepts.
pub fn is_float(s: &Vec<char>) -> (r: bool)
    ensures
        r == is_float_text(s@),
{
    let b = strip_sign(s);
    let inf = vec!['i', 'n', 'f'];
    let infinity = vec!['i', 'n', 'f', 'i', 'n', 'i', 't', 'y'];
    let nan = vec!['n', 'a', 'n'];
    if ascii_ci_matches(&b, &inf) || ascii_ci_matches(&b, &infinity) || ascii_ci_matches(&b, &nan) {
        return true;
    }
    check_number(&b)
}

/// Whether `s` is `true` or `false` in any mix of cases.
pub fn is_bool(s: &Vec<char>) -> (r: bool)
    ensures
        r == is_bool_text(s@),
{
    let t = vec!['t', 'r', 'u', 'e'];
    let f = vec!['f', 'a', 'l', 's', 'e'];
    ascii_ci_matches(s, &t) || ascii_ci_matches(s, &f)
}

} // verus!
