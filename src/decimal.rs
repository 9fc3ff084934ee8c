//! Exact decimal numbers, as the forecast's numerals write them.
//!
//! A numeral reads `-?D+(.D+)?([eE][+-]?D+)?` with `D` a decimal digit; its
//! value is kept exactly as a mantissa and a power of ten, so readings are
//! compared, truncated and written back without rounding.

use vstd::prelude::*;
use vstd::arithmetic::div_mod::{lemma_basic_div, lemma_fundamental_div_mod, lemma_small_mod};
use crate::text::{
    digit_char, lemma_nat_text_len, lemma_pow10_facts, lemma_pow10_monotonic,
    lemma_pow10_positive, nat_text, nat_text_len, pow10, push_nat, push_zeros, zeros,
};

verus! {

/// Largest magnitude of a decimal's exponent.
pub const MAX_EXPONENT: i32 = 400;

pub open spec fn is_digit(c: char) -> bool {
    '0' <= c && c <= '9'
}

pub open spec fn digit_value(c: char) -> nat {
    (c as int - '0' as int) as nat
}

/// The number that a run of decimal digits denotes.
pub open spec fn digits_value(s: Seq<char>) -> nat
    decreases s.len(),
{
    if s.len() == 0 {
        0
    } else {
        digits_value(s.drop_last()) * 10 + digit_value(s.last())
    }
}

/// Length of the run of digits at the start of `s`.
pub open spec fn digit_run(s: Seq<char>) -> nat
    decreases s.len(),
{
    if s.len() > 0 && is_digit(s[0]) {
        1 + digit_run(s.skip(1))
    } else {
        0
    }
}

/// Where the whole part of a numeral starts, after any minus sign.
pub open spec fn whole_start(s: Seq<char>) -> int {
    if s.len() > 0 && s[0] == '-' {
        1
    } else {
        0
    }
}

/// Where the whole part ends.
pub open spec fn whole_end(s: Seq<char>) -> int {
    whole_start(s) + digit_run(s.skip(whole_start(s)))
}

/// Where the fraction part, with its point, ends.
pub open spec fn fraction_end(s: Seq<char>) -> int {
    let at_point = whole_end(s);
    if at_point < s.len() && s[at_point] == '.' {
        at_point + 1 + digit_run(s.skip(at_point + 1))
    } else {
        at_point
    }
}

/// Where the digits of the exponent part start.
pub open spec fn exponent_start(s: Seq<char>) -> int {
    let at_mark = fraction_end(s);
    if at_mark < s.len() && (s[at_mark] == 'e' || s[at_mark] == 'E') {
        if at_mark + 1 < s.len() && (s[at_mark + 1] == '+' || s[at_mark + 1] == '-') {
            at_mark + 2
        } else {
            at_mark + 1
        }
    } else {
        at_mark
    }
}

pub open spec fn is_numeral(s: Seq<char>) -> bool {
    let at_whole = whole_start(s);
    let at_point = whole_end(s);
    let at_mark = fraction_end(s);
    let at_exp = exponent_start(s);
    let x = digit_run(s.skip(at_exp));
    &&& at_point > at_whole
    &&& at_mark != at_point + 1
    &&& (at_exp > at_mark ==> x > 0)
    &&& at_exp + x == s.len()
}

pub open spec fn fraction_digits(s: Seq<char>) -> Seq<char> {
    if fraction_end(s) > whole_end(s) {
        s.subrange(whole_end(s) + 1, fraction_end(s))
    } else {
        Seq::empty()
    }
}

/// The digits of a numeral, the point left out, as one number.
pub open spec fn numeral_digits(s: Seq<char>) -> nat {
    digits_value(s.subrange(whole_start(s), whole_end(s))) * pow10(fraction_digits(s).len())
        + digits_value(fraction_digits(s))
}

/// The power of ten that scales `numeral_digits`.
pub open spec fn numeral_scale(s: Seq<char>) -> int {
    let at_exp = exponent_start(s);
    let x = digits_value(s.skip(at_exp)) as int;
    let signed = if at_exp == fraction_end(s) + 2 && s[at_exp - 1] == '-' {
        -x
    } else {
        x
    };
    signed - fraction_digits(s).len()
}

/// `n * 10^e` written with no trailing zero in `n`; zero is `(0, 0)`.
pub open spec fn strip_zeros(n: nat, e: int) -> (nat, int)
    decreases n,
{
    if n == 0 {
        (0, 0)
    } else if n % 10 == 0 {
        strip_zeros(n / 10, e + 1)
    } else {
        (n, e)
    }
}

/// The digits of a numeral in order, the point left out.
pub open spec fn numeral_digit_seq(s: Seq<char>) -> Seq<char> {
    s.subrange(whole_start(s), whole_end(s)) + fraction_digits(s)
}

/// The mantissa and exponent of the decimal that the text denotes, where the
/// text is a numeral and its value fits a `Decimal`: at most 38 significant
/// digits, and an exponent within `MAX_EXPONENT` once trailing zeros are
/// folded into it. Leading and trailing zeros may be as many as they like.
pub open spec fn numeral_value(s: Seq<char>) -> Option<(int, int)> {
    if !is_numeral(s) {
        None
    } else {
        let (n, e) = strip_zeros(numeral_digits(s), numeral_scale(s));
        if n >= pow10(38) || e < -MAX_EXPONENT || e > MAX_EXPONENT {
            None
        } else if whole_start(s) == 1 {
            Some((-n, e))
        } else {
            Some((n as int, e))
        }
    }
}

pub open spec fn abs(m: int) -> nat {
    if m < 0 {
        (-m) as nat
    } else {
        m as nat
    }
}

/// Plain decimal notation of `m * 10^e`, without exponent.
pub open spec fn decimal_text(m: int, e: int) -> Seq<char> {
    let a = abs(m);
    let sign = if m < 0 {
        seq!['-']
    } else {
        Seq::empty()
    };
    if e >= 0 {
        sign + nat_text(a) + zeros(e as nat)
    } else {
        let k = (-e) as nat;
        let r = a % pow10(k);
        sign + nat_text(a / pow10(k)) + seq!['.'] + zeros((k - nat_text(r).len()) as nat)
            + nat_text(r)
    }
}

/// `m * 10^e` truncated toward zero.
pub open spec fn truncate(m: int, e: int) -> int {
    if e >= 0 {
        m * pow10(e as nat)
    } else if m >= 0 {
        m / pow10((-e) as nat) as int
    } else {
        -((-m) / pow10((-e) as nat) as int)
    }
}

pub open spec fn clamp(v: int, lo: int, hi: int) -> int {
    if v < lo {
        lo
    } else if v > hi {
        hi
    } else {
        v
    }
}

/// The sign of `m * 10^e - c`.
pub open spec fn compare(m: int, e: int, c: int) -> int {
    let d = if e >= 0 {
        m * pow10(e as nat) - c
    } else {
        m - c * pow10((-e) as nat)
    };
    if d > 0 {
        1
    } else if d < 0 {
        -1
    } else {
        0
    }
}

proof fn lemma_digit_run(t: Seq<char>, k: int)
    requires
        0 <= k <= t.len(),
        forall|j: int| 0 <= j < k ==> is_digit(#[trigger] t[j]),
        k == t.len() || !is_digit(t[k]),
    ensures
        digit_run(t) == k,
    decreases k,
{
    if k > 0 {
        let u = t.skip(1);
        assert forall|j: int| 0 <= j < k - 1 implies is_digit(#[trigger] u[j]) by {
            assert(u[j] == t[j + 1]);
        }
        if k - 1 < u.len() {
            assert(u[k - 1] == t[k]);
        }
        lemma_digit_run(u, k - 1);
    }
}

proof fn lemma_strip_zeros_nonzero(n: nat, e: int)
    requires
        n > 0,
    ensures
        strip_zeros(n, e).0 > 0,
        strip_zeros(n, e).0 % 10 != 0,
    decreases n,
{
    if n % 10 == 0 {
        lemma_strip_zeros_nonzero(n / 10, e + 1);
    }
}

fn pow10_u128(k: usize) -> (r: u128)
    requires
        k <= 38,
    ensures
        r == pow10(k as nat),
{
    let mut r: u128 = 1;
    let mut i: usize = 0;
    while i < k
        invariant
            i <= k <= 38,
            r == pow10(i as nat),
        decreases k - i,
    {
        proof {
            lemma_pow10_facts();
            lemma_pow10_monotonic((i + 1) as nat, 38);
        }
        r = r * 10;
        i = i + 1;
    }
    r
}

/// Where the run of digits that starts at `from` ends.
fn run_end(s: &str, from: usize, len: usize) -> (r: usize)
    requires
        from <= len,
        len == s@.len(),
    ensures
        r == from + digit_run(s@.skip(from as int)),
        from <= r <= len,
        forall|j: int| from <= j < r ==> is_digit(#[trigger] s@[j]),
{
    let mut i: usize = from;
    while i < len && '0' <= s.get_char(i) && s.get_char(i) <= '9'
        invariant
            from <= i <= len,
            len == s@.len(),
            forall|j: int| from <= j < i ==> is_digit(#[trigger] s@[j]),
        decreases len - i,
    {
        i = i + 1;
    }
    proof {
        let t = s@.skip(from as int);
        assert forall|j: int| 0 <= j < i - from implies is_digit(#[trigger] t[j]) by {
            assert(t[j] == s@[from + j]);
        }
        if i < len {
            assert(t[i - from] == s@[i as int]);
        }
        lemma_digit_run(t, i - from);
    }
    i
}

/// The marks of a numeral: where its whole part starts and ends, where its
/// fraction ends and where its exponent digits start.
fn numeral_marks(s: &str, len: usize) -> (r: Option<(usize, usize, usize, usize)>)
    requires
        len == s@.len(),
    ensures
        match r {
            Some((w, p, m, x)) => {
                &&& is_numeral(s@)
                &&& w == whole_start(s@)
                &&& p == whole_end(s@)
                &&& m == fraction_end(s@)
                &&& x == exponent_start(s@)
                &&& w <= p <= m <= x <= len
                &&& forall|j: int| w <= j < p ==> is_digit(#[trigger] s@[j])
                &&& forall|j: int| p < j < m ==> is_digit(#[trigger] s@[j])
                &&& forall|j: int| x <= j < len ==> is_digit(#[trigger] s@[j])
            },
            None => !is_numeral(s@),
        },
{
    let at_whole: usize = if len > 0 && s.get_char(0) == '-' {
        1
    } else {
        0
    };
    let at_point = run_end(s, at_whole, len);
    if at_point == at_whole {
        return None;
    }
    let at_mark = if at_point < len && s.get_char(at_point) == '.' {
        run_end(s, at_point + 1, len)
    } else {
        at_point
    };
    if at_mark > at_point && at_mark - at_point == 1 {
        return None;
    }
    let at_exp = if at_mark < len && (s.get_char(at_mark) == 'e' || s.get_char(at_mark) == 'E') {
        if at_mark + 1 < len && (s.get_char(at_mark + 1) == '+' || s.get_char(at_mark + 1) == '-') {
            at_mark + 2
        } else {
            at_mark + 1
        }
    } else {
        at_mark
    };
    let at_end = run_end(s, at_exp, len);
    if at_exp > at_mark && at_end == at_exp {
        return None;
    }
    if at_end != len {
        return None;
    }
    Some((at_whole, at_point, at_mark, at_exp))
}

/// The digits of a numeral, the point left out.
fn collect_digits(s: &str, at_whole: usize, at_point: usize, at_mark: usize) -> (r: Vec<char>)
    requires
        at_whole == whole_start(s@),
        at_point == whole_end(s@),
        at_mark == fraction_end(s@),
        at_whole <= at_point <= at_mark <= s@.len(),
        at_mark != at_point + 1,
    ensures
        r@ == numeral_digit_seq(s@),
{
    let mut v: Vec<char> = Vec::new();
    let mut i: usize = at_whole;
    while i < at_point
        invariant
            at_whole <= i <= at_point <= s@.len(),
            v@ == s@.subrange(at_whole as int, i as int),
        decreases at_point - i,
    {
        v.push(s.get_char(i));
        i = i + 1;
        assert(v@ =~= s@.subrange(at_whole as int, i as int));
    }
    let ghost whole = v@;
    if at_mark > at_point {
        let mut j: usize = at_point + 1;
        assert(s@.subrange(at_point + 1, at_point + 1) =~= Seq::<char>::empty());
        assert(v@ =~= whole + s@.subrange(at_point + 1, j as int));
        while j < at_mark
            invariant
                at_point + 1 <= j <= at_mark <= s@.len(),
                v@ == whole + s@.subrange(at_point + 1, j as int),
            decreases at_mark - j,
        {
            v.push(s.get_char(j));
            j = j + 1;
            assert(v@ =~= whole + s@.subrange(at_point + 1, j as int));
        }
    } else {
        assert(v@ =~= whole + Seq::<char>::empty());
    }
    v
}

/// The digits from `from` to the end, read as a number; any value above
/// `cap` is reported as `cap + 1`.
fn capped_value(s: &str, from: usize, len: usize, cap: u128) -> (r: u128)
    requires
        from <= len,
        len == s@.len(),
        cap < 100_000_000_000_000_000_000_000_000_000,
        forall|j: int| from <= j < len ==> is_digit(#[trigger] s@[j]),
    ensures
        r <= cap ==> r == digits_value(s@.skip(from as int)),
        r > cap ==> digits_value(s@.skip(from as int)) > cap,
{
    let mut x: u128 = 0;
    let mut i: usize = from;
    assert(s@.subrange(from as int, from as int) =~= Seq::<char>::empty());
    while i < len
        invariant
            from <= i <= len,
            len == s@.len(),
            x <= cap + 1,
            cap < 100_000_000_000_000_000_000_000_000_000,
            forall|j: int| from <= j < len ==> is_digit(#[trigger] s@[j]),
            x <= cap ==> x == digits_value(s@.subrange(from as int, i as int)),
            x > cap ==> digits_value(s@.subrange(from as int, i as int)) > cap,
        decreases len - i,
    {
        let c = s.get_char(i);
        let d = (c as u32 - '0' as u32) as u128;
        proof {
            assert(is_digit(s@[i as int]));
            let sub = s@.subrange(from as int, i + 1);
            assert(sub.drop_last() =~= s@.subrange(from as int, i as int));
        }
        if x <= cap {
            x = x * 10 + d;
            if x > cap {
                x = cap + 1;
            }
        }
        i = i + 1;
    }
    assert(s@.subrange(from as int, len as int) =~= s@.skip(from as int));
    x
}

/// Where the significant digits of a digit sequence start and end; none
/// where every digit is zero.
fn significant_span(d: &Vec<char>) -> (r: Option<(usize, usize)>)
    ensures
        match r {
            Some((a, b)) => {
                &&& a < b <= d@.len()
                &&& d@[a as int] != '0'
                &&& d@[b - 1] != '0'
                &&& forall|i: int| 0 <= i < a ==> #[trigger] d@[i] == '0'
                &&& forall|i: int| b <= i < d@.len() ==> #[trigger] d@[i] == '0'
            },
            None => forall|i: int| 0 <= i < d@.len() ==> #[trigger] d@[i] == '0',
        },
{
    let n = d.len();
    let mut a: usize = 0;
    while a < n && d[a] == '0'
        invariant
            a <= n == d@.len(),
            forall|i: int| 0 <= i < a ==> #[trigger] d@[i] == '0',
        decreases n - a,
    {
        a = a + 1;
    }
    if a == n {
        return None;
    }
    let mut b: usize = n;
    while d[b - 1] == '0'
        invariant
            a < b <= n == d@.len(),
            d@[a as int] != '0',
            forall|i: int| b <= i < n ==> #[trigger] d@[i] == '0',
        decreases b,
    {
        b = b - 1;
    }
    Some((a, b))
}

/// The number that the digits from `a` to `b` denote.
fn span_value(d: &Vec<char>, a: usize, b: usize) -> (r: u128)
    requires
        a <= b <= d@.len(),
        b - a <= 38,
        forall|i: int| 0 <= i < d@.len() ==> is_digit(#[trigger] d@[i]),
    ensures
        r == digits_value(d@.subrange(a as int, b as int)),
        r < pow10((b - a) as nat),
{
    let mut value: u128 = 0;
    let mut i: usize = a;
    assert(d@.subrange(a as int, a as int) =~= Seq::<char>::empty());
    while i < b
        invariant
            a <= i <= b <= d@.len(),
            b - a <= 38,
            forall|j: int| 0 <= j < d@.len() ==> is_digit(#[trigger] d@[j]),
            value == digits_value(d@.subrange(a as int, i as int)),
            value < pow10((i - a) as nat),
        decreases b - i,
    {
        let c = d[i];
        let dg = (c as u32 - '0' as u32) as u128;
        proof {
            assert(is_digit(d@[i as int]));
            lemma_pow10_facts();
            lemma_pow10_monotonic((i + 1 - a) as nat, 38);
            assert(pow10((i + 1 - a) as nat) == 10 * pow10((i - a) as nat));
            let sub = d@.subrange(a as int, i + 1);
            assert(sub.drop_last() =~= d@.subrange(a as int, i as int));
        }
        value = value * 10 + dg;
        i = i + 1;
    }
    value
}

/// The decimal that the digits `d` denote, scaled by `10^scale` and signed,
/// where the significant digits run from `a` to `b`. The exponent digits
/// read `big_x`, of which `x` is the value capped at `len + 401`.
fn span_decimal(
    d: &Vec<char>,
    a: usize,
    b: usize,
    negative: bool,
    x: u128,
    len: usize,
    exp_negative: bool,
    frac_len: usize,
    scale: Ghost<int>,
    big_x: Ghost<nat>,
) -> (r: Option<Decimal>)
    requires
        a < b <= d@.len() <= len,
        frac_len <= len,
        forall|i: int| 0 <= i < d@.len() ==> is_digit(#[trigger] d@[i]),
        forall|i: int| 0 <= i < a ==> #[trigger] d@[i] == '0',
        forall|i: int| b <= i < d@.len() ==> #[trigger] d@[i] == '0',
        d@[a as int] != '0',
        d@[b - 1] != '0',
        scale@ == (if exp_negative {
            -big_x@
        } else {
            big_x@ as int
        }) - frac_len,
        x <= len + 401 ==> x == big_x@,
        x > len + 401 ==> big_x@ > len + 401,
    ensures
        ({
            let (n, e) = strip_zeros(digits_value(d@), scale@);
            match r {
                Some(dd) => {
                    &&& dd.wf()
                    &&& n < pow10(38)
                    &&& -MAX_EXPONENT <= e <= MAX_EXPONENT
                    &&& dd.mantissa == (if negative {
                        -n
                    } else {
                        n as int
                    })
                    &&& dd.exponent == e
                },
                None => n >= pow10(38) || e < -MAX_EXPONENT || e > MAX_EXPONENT,
            }
        }),
{
    proof {
        lemma_span_strip(d@, a as int, b as int, scale@);
    }
    if b - a > 38 {
        proof {
            let span = d@.subrange(a as int, b as int);
            assert forall|i: int| 0 <= i < span.len() implies is_digit(#[trigger] span[i]) by {
                assert(span[i] == d@[a + i]);
            }
            assert(span[0] == d@[a as int]);
            lemma_leading_digit(span);
            lemma_pow10_monotonic(38, (span.len() - 1) as nat);
        }
        return None;
    }
    let cap: u128 = len as u128 + 401;
    if x > cap {
        return None;
    }
    let n = span_value(d, a, b);
    let trailing: usize = d.len() - b;
    let e: i128 = (if exp_negative {
        -(x as i128)
    } else {
        x as i128
    }) - frac_len as i128 + trailing as i128;
    if e < -(MAX_EXPONENT as i128) || e > MAX_EXPONENT as i128 {
        return None;
    }
    proof {
        lemma_pow10_facts();
        lemma_pow10_monotonic((b - a) as nat, 38);
        let span = d@.subrange(a as int, b as int);
        assert(span.drop_last() + seq![span.last()] =~= span);
    }
    let m: i128 = if negative {
        -(n as i128)
    } else {
        n as i128
    };
    Some(Decimal { mantissa: m, exponent: e as i32 })
}

/// A run of digits that starts with a non-zero one is at least `10^(len-1)`.
proof fn lemma_leading_digit(x: Seq<char>)
    requires
        x.len() >= 1,
        forall|i: int| 0 <= i < x.len() ==> is_digit(#[trigger] x[i]),
        x[0] != '0',
    ensures
        digits_value(x) >= pow10((x.len() - 1) as nat),
    decreases x.len(),
{
    if x.len() == 1 {
        assert(x.drop_last() =~= Seq::<char>::empty());
        assert(pow10(0) == 1);
    } else {
        let y = x.drop_last();
        assert(y[0] == x[0]);
        assert forall|i: int| 0 <= i < y.len() implies is_digit(#[trigger] y[i]) by {
            assert(y[i] == x[i]);
        }
        lemma_leading_digit(y);
        assert(pow10((x.len() - 1) as nat) == 10 * pow10((y.len() - 1) as nat));
    }
}

/// Digits of which the first `a` and those from `b` on are zeros denote the
/// middle digits, scaled by the trailing zeros; when the middle ends in a
/// non-zero digit, that is the number with its trailing zeros stripped.
proof fn lemma_span_strip(d: Seq<char>, a: int, b: int, e: int)
    requires
        0 <= a < b <= d.len(),
        forall|i: int| 0 <= i < d.len() ==> is_digit(#[trigger] d[i]),
        forall|i: int| 0 <= i < a ==> #[trigger] d[i] == '0',
        forall|i: int| b <= i < d.len() ==> #[trigger] d[i] == '0',
        d[b - 1] != '0',
    ensures
        strip_zeros(digits_value(d), e) == (
            digits_value(d.subrange(a, b)),
            e + (d.len() - b),
        ),
{
    let span = d.subrange(a, b);
    let t = (d.len() - b) as nat;
    assert(d =~= zeros(a as nat) + span + zeros(t));
    lemma_zeros_digits(a as nat);
    lemma_zeros_digits(t);
    lemma_digits_value_concat(zeros(a as nat) + span, zeros(t));
    lemma_digits_value_concat(zeros(a as nat), span);
    let p = pow10(span.len());
    assert(0 * p == 0) by (nonlinear_arith);
    let n = digits_value(span);
    assert(digits_value(d) == n * pow10(t));
    assert(span.drop_last() + seq![span.last()] =~= span);
    assert(span.last() == d[b - 1]);
    assert(digits_value(span) == digits_value(span.drop_last()) * 10 + digit_value(span.last()));
    assert(n % 10 != 0);
    lemma_strip_scaled(n, t, e);
}

/// `a / 10^k` and `a % 10^k`.
fn split_at_power(a: u128, k: usize) -> (r: (u128, u128))
    requires
        a < pow10(38),
    ensures
        r.0 as nat == (a as nat) / pow10(k as nat),
        r.1 as nat == (a as nat) % pow10(k as nat),
        a == r.0 * pow10(k as nat) + r.1,
        r.1 < pow10(k as nat),
        r.0 <= a,
{
    proof {
        lemma_pow10_positive(k as nat);
        lemma_fundamental_div_mod(a as int, pow10(k as nat) as int);
        lemma_mod_bound(a as int, pow10(k as nat) as int);
        lemma_div_le(a as int, pow10(k as nat) as int);
        let p = pow10(k as nat) as int;
        assert((a as int / p) * p == p * (a as int / p)) by (nonlinear_arith);
    }
    if k > 38 {
        proof {
            lemma_pow10_facts();
            lemma_pow10_monotonic(38, k as nat);
            lemma_basic_div(a as int, pow10(k as nat) as int);
            lemma_small_mod(a as nat, pow10(k as nat));
        }
        (0, a)
    } else {
        let p = pow10_u128(k);
        (a / p, a % p)
    }
}

proof fn lemma_mod_bound(a: int, p: int)
    requires
        0 <= a,
        0 < p,
    ensures
        0 <= a % p < p,
{
}

proof fn lemma_div_le(a: int, p: int)
    requires
        0 <= a,
        0 < p,
    ensures
        0 <= a / p <= a,
{
    lemma_fundamental_div_mod(a, p);
    let q = a / p;
    assert(q >= 0) by {
        if q < 0 {
            assert(p * q <= -p) by (nonlinear_arith)
                requires
                    q <= -1,
                    p >= 1,
            ;
        }
    }
    assert(p * q >= q) by (nonlinear_arith)
        requires
            q >= 0,
            p >= 1,
    ;
}

/// Where `m` is not zero, `m * p` is at least as large as `m` and as `p` in
/// magnitude, with the sign of `m`.
proof fn lemma_scaled_magnitude(m: int, p: int)
    requires
        m != 0,
        p >= 1,
    ensures
        m > 0 ==> m * p >= m && m * p >= p,
        m < 0 ==> m * p <= m && m * p <= -p,
{
    if m > 0 {
        assert(m * p >= m && m * p >= p) by (nonlinear_arith)
            requires
                m >= 1,
                p >= 1,
        ;
    } else {
        assert(m * p <= m && m * p <= -p) by (nonlinear_arith)
            requires
                m <= -1,
                p >= 1,
        ;
    }
}

/// How `q * p + r` compares with `c * p` when `0 <= r < p`.
proof fn lemma_scaled_compare(q: int, r: int, p: int, c: int)
    requires
        p >= 1,
        0 <= r < p,
    ensures
        q > c ==> q * p + r - c * p > 0,
        q < c ==> q * p + r - c * p < 0,
        q == c ==> q * p + r - c * p == r,
{
    assert(q * p + r - c * p == (q - c) * p + r) by (nonlinear_arith);
    if q > c {
        assert((q - c) * p >= p) by (nonlinear_arith)
            requires
                q - c >= 1,
                p >= 1,
        ;
    } else if q < c {
        assert((q - c) * p <= -p) by (nonlinear_arith)
            requires
                q - c <= -1,
                p >= 1,
        ;
    }
}

/// An exact decimal number `mantissa * 10^exponent`, kept with no trailing
/// zero in its mantissa.
#[derive(Clone, Copy, Debug, PartialEq, Eq, Structural)]
pub struct Decimal {
    pub mantissa: i128,
    pub exponent: i32,
}

impl Decimal {
    pub open spec fn wf(self) -> bool {
        &&& -pow10(38) < self.mantissa < pow10(38)
        &&& (self.mantissa == 0 ==> self.exponent == 0)
        &&& (self.mantissa != 0 ==> self.mantissa % 10 != 0)
        &&& -MAX_EXPONENT <= self.exponent <= MAX_EXPONENT
    }

    /// Reads a numeral such as `-12.5`, `1e-7` or `0.000000000000000000001`.
    /// Leading and trailing zeros are folded into the exponent, so every
    /// numeral of at most 38 significant digits whose exponent, once
    /// trailing zeros are taken into it, lies within `MAX_EXPONENT` is read.
    pub fn parse(s: &str) -> (r: Option<Decimal>)
        ensures
            match r {
                Some(d) => d.wf() && numeral_value(s@) == Some(
                    (d.mantissa as int, d.exponent as int),
                ),
                None => numeral_value(s@) is None,
            },
            is_numeral(s@) && strip_zeros(numeral_digits(s@), numeral_scale(s@)).0 < pow10(38)
                && -MAX_EXPONENT <= strip_zeros(numeral_digits(s@), numeral_scale(s@)).1
                <= MAX_EXPONENT ==> r is Some,
    {
        let len = s.unicode_len();
        let (at_whole, at_point, at_mark, at_exp) = match numeral_marks(s, len) {
            None => {
                return None;
            },
            Some(marks) => marks,
        };
        let ghost t = s@;
        let digits = collect_digits(s, at_whole, at_point, at_mark);
        let frac_len: usize = if at_mark > at_point {
            at_mark - at_point - 1
        } else {
            0
        };
        proof {
            if at_mark > at_point {
                assert(fraction_digits(t) =~= t.subrange(at_point + 1, at_mark as int));
            } else {
                assert(fraction_digits(t) =~= Seq::<char>::empty());
            }
            lemma_digits_value_concat(t.subrange(at_whole as int, at_point as int), fraction_digits(t));
            assert forall|i: int| 0 <= i < digits@.len() implies is_digit(#[trigger] digits@[i]) by {
                if i < at_point - at_whole {
                    assert(digits@[i] == t[at_whole + i]);
                } else {
                    assert(digits@[i] == t[at_point + 1 + (i - (at_point - at_whole))]);
                }
            }
        }
        assert(digits_value(digits@) == numeral_digits(t));
        let exp_negative = at_exp > at_mark && at_exp - at_mark == 2 && s.get_char(at_exp - 1) == '-';
        let cap: u128 = len as u128 + 401;
        let x = capped_value(s, at_exp, len, cap);
        let ghost scale = numeral_scale(t);
        assert(frac_len == fraction_digits(t).len());
        match significant_span(&digits) {
            None => {
                proof {
                    assert(digits@ =~= zeros(digits@.len()));
                    lemma_zeros_digits(digits@.len());
                    assert(numeral_digits(t) == 0);
                    assert(strip_zeros(0, scale) == (0nat, 0int));
                    lemma_pow10_positive(38);
                }
                Some(Decimal { mantissa: 0, exponent: 0 })
            },
            Some((a, b)) => {
                let ghost big_x = digits_value(t.skip(at_exp as int));
                proof {
                    assert forall|i: int| 0 <= i < digits@.len() implies is_digit(
                        #[trigger] digits@[i],
                    ) by {}
                }
                span_decimal(
                    &digits,
                    a,
                    b,
                    at_whole == 1,
                    x,
                    len,
                    exp_negative,
                    frac_len,
                    Ghost(scale),
                    Ghost(big_x),
                )
            },
        }
    }

    /// The magnitude of the mantissa.
    fn magnitude(&self) -> (r: u128)
        requires
            self.wf(),
        ensures
            r == abs(self.mantissa as int),
            r < pow10(38),
    {
        proof {
            lemma_pow10_facts();
        }
        if self.mantissa < 0 {
            (-self.mantissa) as u128
        } else {
            self.mantissa as u128
        }
    }

    /// The decimal in plain notation, as `-0.0012` or `1500`.
    pub fn to_text(&self) -> (r: String)
        requires
            self.wf(),
        ensures
            r@ == decimal_text(self.mantissa as int, self.exponent as int),
    {
        let m = self.mantissa;
        let mut out = String::new();
        proof {
            reveal_strlit("-");
            reveal_strlit(".");
        }
        if m < 0 {
            out.append("-");
        }
        let a = self.magnitude();
        if self.exponent >= 0 {
            push_nat(&mut out, a);
            push_zeros(&mut out, self.exponent as usize);
            assert(out@ =~= decimal_text(m as int, self.exponent as int));
        } else {
            let k: usize = (-(self.exponent as i64)) as usize;
            let (q, r) = split_at_power(a, k);
            proof {
                lemma_pow10_positive(k as nat);
                lemma_nat_text_len(r as nat, k as nat);
            }
            push_nat(&mut out, q);
            out.append(".");
            let len = nat_text_len(r);
            push_zeros(&mut out, k - len);
            push_nat(&mut out, r);
            assert(out@ =~= decimal_text(m as int, self.exponent as int));
        }
        out
    }

    /// The decimal truncated toward zero, then held within `lo..=hi`, as a
    /// float is when cast to an integer type.
    pub fn clamped_integer(&self, lo: i64, hi: i64) -> (r: i64)
        requires
            self.wf(),
            lo <= hi,
        ensures
            r == clamp(truncate(self.mantissa as int, self.exponent as int), lo as int, hi as int),
    {
        let m = self.mantissa;
        let e = self.exponent;
        let v: i128 = if e >= 0 {
            if m > i64::MAX as i128 || m < i64::MIN as i128 || (e >= 19 && m != 0) {
                proof {
                    lemma_pow10_facts();
                    lemma_pow10_positive(e as nat);
                    if e >= 19 {
                        lemma_pow10_monotonic(19, e as nat);
                    }
                    lemma_scaled_magnitude(m as int, pow10(e as nat) as int);
                }
                if m > 0 {
                    return hi;
                } else {
                    return lo;
                }
            }
            let p = pow10_u128(e as usize);
            proof {
                lemma_pow10_facts();
                lemma_pow10_monotonic(e as nat, 18);
                lemma_pow10_positive(e as nat);
                assert(-pow10(38) < m * p < pow10(38)) by (nonlinear_arith)
                    requires
                        -10_000_000_000_000_000_000 < m < 10_000_000_000_000_000_000,
                        0 < p <= 1_000_000_000_000_000_000,
                        pow10(38) == 100_000_000_000_000_000_000_000_000_000_000_000_000,
                ;
            }
            m * (p as i128)
        } else {
            let k: usize = (-(e as i64)) as usize;
            let (q, _) = split_at_power(self.magnitude(), k);
            proof {
                lemma_pow10_facts();
            }
            if m < 0 {
                -(q as i128)
            } else {
                q as i128
            }
        };
        if v < lo as i128 {
            lo
        } else if v > hi as i128 {
            hi
        } else {
            v as i64
        }
    }

    /// The sign of the decimal minus `c`: 1, 0 or -1.
    pub fn compare_int(&self, c: i32) -> (r: i8)
        requires
            self.wf(),
        ensures
            r == compare(self.mantissa as int, self.exponent as int, c as int),
    {
        let m = self.mantissa;
        let e = self.exponent;
        if e >= 0 {
            if m > i64::MAX as i128 || m < i64::MIN as i128 || (e >= 19 && m != 0) {
                proof {
                    lemma_pow10_facts();
                    lemma_pow10_positive(e as nat);
                    if e >= 19 {
                        lemma_pow10_monotonic(19, e as nat);
                    }
                    lemma_scaled_magnitude(m as int, pow10(e as nat) as int);
                }
                if m > 0 {
                    return 1;
                } else {
                    return -1;
                }
            }
            let p = pow10_u128(e as usize);
            proof {
                lemma_pow10_facts();
                lemma_pow10_monotonic(e as nat, 18);
                lemma_pow10_positive(e as nat);
                assert(-pow10(38) < m * p < pow10(38)) by (nonlinear_arith)
                    requires
                        -10_000_000_000_000_000_000 < m < 10_000_000_000_000_000_000,
                        0 < p <= 1_000_000_000_000_000_000,
                        pow10(38) == 100_000_000_000_000_000_000_000_000_000_000_000_000,
                ;
            }
            let x = m * (p as i128);
            let y = c as i128;
            if x > y {
                1
            } else if x < y {
                -1
            } else {
                0
            }
        } else {
            if m > 0 && c <= 0 {
                proof {
                    lemma_pow10_positive((-e) as nat);
                    assert(c * pow10((-e) as nat) <= 0) by (nonlinear_arith)
                        requires
                            c <= 0,
                            pow10((-e) as nat) >= 1,
                    ;
                }
                return 1;
            }
            if m < 0 && c >= 0 {
                proof {
                    lemma_pow10_positive((-e) as nat);
                    assert(c * pow10((-e) as nat) >= 0) by (nonlinear_arith)
                        requires
                            c >= 0,
                            pow10((-e) as nat) >= 1,
                    ;
                }
                return -1;
            }
            let k: usize = (-(e as i64)) as usize;
            let a = self.magnitude();
            let (q, r) = split_at_power(a, k);
            let b: u128 = if c < 0 {
                (-(c as i128)) as u128
            } else {
                c as u128
            };
            let cmp: i8 = if q > b {
                1
            } else if q < b {
                -1
            } else if r > 0 {
                1
            } else {
                0
            };
            proof {
                let p = pow10(k as nat) as int;
                lemma_pow10_positive(k as nat);
                lemma_scaled_compare(q as int, r as int, p, b as int);
                if m < 0 {
                    assert(m - c * p == -((q * p + r) - b * p)) by (nonlinear_arith)
                        requires
                            m == -(a as int),
                            c == -(b as int),
                            a == q * p + r,
                    ;
                }
            }
            if m > 0 {
                cmp
            } else {
                -cmp
            }
        }
    }
}

proof fn lemma_digit_char(d: nat)
    requires
        d < 10,
    ensures
        is_digit(digit_char(d)),
        digit_value(digit_char(d)) == d,
{
}

proof fn lemma_nat_text_digits(n: nat)
    ensures
        nat_text(n).len() > 0,
        forall|i: int| 0 <= i < nat_text(n).len() ==> is_digit(#[trigger] nat_text(n)[i]),
        digits_value(nat_text(n)) == n,
    decreases n,
{
    let t = nat_text(n);
    if n < 10 {
        lemma_digit_char(n);
        assert(t.drop_last() =~= Seq::<char>::empty());
        assert(digits_value(t) == digits_value(t.drop_last()) * 10 + digit_value(t.last()));
        assert(digits_value(Seq::<char>::empty()) == 0);
    } else {
        lemma_nat_text_digits(n / 10);
        lemma_digit_char(n % 10);
        assert(t.drop_last() =~= nat_text(n / 10));
        assert forall|i: int| 0 <= i < t.len() implies is_digit(#[trigger] t[i]) by {
            if i < t.len() - 1 {
                assert(t[i] == nat_text(n / 10)[i]);
            }
        }
        assert(digits_value(t) == digits_value(t.drop_last()) * 10 + digit_value(t.last()));
        vstd::arithmetic::div_mod::lemma_fundamental_div_mod(n as int, 10);
    }
}

proof fn lemma_zeros_digits(k: nat)
    ensures
        forall|i: int| 0 <= i < zeros(k).len() ==> is_digit(#[trigger] zeros(k)[i]),
        digits_value(zeros(k)) == 0,
    decreases k,
{
    if k > 0 {
        assert(zeros(k).drop_last() =~= zeros((k - 1) as nat));
        lemma_zeros_digits((k - 1) as nat);
    }
}

proof fn lemma_digits_value_concat(x: Seq<char>, y: Seq<char>)
    ensures
        digits_value(x + y) == digits_value(x) * pow10(y.len()) + digits_value(y),
    decreases y.len(),
{
    if y.len() == 0 {
        assert(x + y =~= x);
        assert(pow10(0) == 1);
        assert(digits_value(y) == 0);
    } else {
        let y2 = y.drop_last();
        assert(digits_value(x + y) == digits_value((x + y).drop_last()) * 10 + digit_value(
            (x + y).last(),
        ));
        assert(digits_value(y) == digits_value(y2) * 10 + digit_value(y.last()));
        assert((x + y).drop_last() =~= x + y2);
        assert((x + y).last() == y.last());
        lemma_digits_value_concat(x, y2);
        let a = digits_value(x);
        let p = pow10(y2.len());
        let b = digits_value(y2);
        let d = digit_value(y.last());
        assert(pow10(y.len()) == 10 * p);
        assert((a * p + b) * 10 + d == a * (10 * p) + (b * 10 + d)) by (nonlinear_arith);
    }
}

proof fn lemma_strip_scaled(a: nat, k: nat, e: int)
    requires
        a > 0,
    ensures
        strip_zeros(a * pow10(k), e) == strip_zeros(a, e + k),
    decreases k,
{
    if k == 0 {
        assert(pow10(0) == 1);
        assert(a * pow10(0) == a) by (nonlinear_arith)
            requires
                pow10(0) == 1,
        ;
    } else {
        let p = pow10((k - 1) as nat);
        lemma_pow10_positive((k - 1) as nat);
        assert(a * pow10(k) == (a * p) * 10) by (nonlinear_arith)
            requires
                pow10(k) == 10 * p,
        ;
        assert(a * p > 0) by (nonlinear_arith)
            requires
                a > 0,
                p >= 1,
        ;
        let n = (a * p) * 10;
        assert(n % 10 == 0 && n / 10 == a * p);
        lemma_strip_scaled(a, (k - 1) as nat, e + 1);
    }
}

proof fn lemma_strip_value(n: nat, e: int)
    requires
        n > 0,
    ensures
        strip_zeros(n, e).1 >= e,
        strip_zeros(n, e).0 * pow10((strip_zeros(n, e).1 - e) as nat) == n,
    decreases n,
{
    if n % 10 == 0 {
        lemma_strip_value(n / 10, e + 1);
        let (n2, e2) = strip_zeros(n / 10, e + 1);
        let q = pow10((e2 - e - 1) as nat);
        assert(pow10((e2 - e) as nat) == 10 * q);
        assert(n2 * (10 * q) == 10 * (n2 * q)) by (nonlinear_arith);
    } else {
        assert(pow10(0) == 1);
        assert(n * pow10(0) == n);
    }
}

/// The plain notation of `m * 10^e` is a numeral of the same sign whose
/// digits and scale denote that number.
proof fn lemma_decimal_text_numeral(m: int, e: int)
    ensures
        is_numeral(decimal_text(m, e)),
        whole_start(decimal_text(m, e)) == (if m < 0 {
            1int
        } else {
            0int
        }),
        numeral_digits(decimal_text(m, e)) == (if e >= 0 {
            abs(m) * pow10(e as nat)
        } else {
            abs(m)
        }),
        numeral_scale(decimal_text(m, e)) == (if e >= 0 {
            0
        } else {
            e
        }),
{
    let a = abs(m);
    let s = decimal_text(m, e);
    let sign: Seq<char> = if m < 0 {
        seq!['-']
    } else {
        Seq::empty()
    };
    let at_whole = sign.len() as int;
    if e >= 0 {
        let body = nat_text(a) + zeros(e as nat);
        lemma_nat_text_digits(a);
        lemma_zeros_digits(e as nat);
        assert(s =~= sign + body);
        assert(s.skip(at_whole) =~= body);
        assert forall|i: int| 0 <= i < body.len() implies is_digit(#[trigger] body[i]) by {
            if i < nat_text(a).len() {
                assert(body[i] == nat_text(a)[i]);
            } else {
                assert(body[i] == zeros(e as nat)[i - nat_text(a).len()]);
            }
        }
        assert(s[at_whole] == body[0]);
        lemma_digit_run(body, body.len() as int);
        assert(whole_start(s) == at_whole);
        assert(whole_end(s) == s.len());
        assert(s.skip(s.len() as int) =~= Seq::<char>::empty());
        assert(s.subrange(at_whole, s.len() as int) =~= body);
        assert(fraction_digits(s) =~= Seq::<char>::empty());
        lemma_digits_value_concat(nat_text(a), zeros(e as nat));
        assert(digits_value(body) == a * pow10(e as nat));
        assert(pow10(0) == 1);
        assert(digits_value(Seq::<char>::empty()) == 0);
        let v = digits_value(body);
        assert(v * pow10(0) + 0 == v) by (nonlinear_arith)
            requires
                pow10(0) == 1,
        ;
        assert(numeral_digits(s) == digits_value(body) * pow10(0) + digits_value(
            Seq::<char>::empty(),
        ));
    } else {
        let k = (-e) as nat;
        lemma_pow10_positive(k);
        let q = a / pow10(k);
        let r = a % pow10(k);
        lemma_nat_text_digits(q);
        lemma_nat_text_digits(r);
        lemma_nat_text_len(r, k);
        let lr = nat_text(r).len();
        let frac = zeros((k - lr) as nat) + nat_text(r);
        lemma_zeros_digits((k - lr) as nat);
        let lq = nat_text(q).len() as int;
        let body = nat_text(q) + seq!['.'] + frac;
        assert(s =~= sign + body);
        assert(s.skip(at_whole) =~= body);
        assert(s[at_whole] == body[0]);
        assert forall|i: int| 0 <= i < lq implies is_digit(#[trigger] body[i]) by {
            assert(body[i] == nat_text(q)[i]);
        }
        assert(body[lq] == '.');
        lemma_digit_run(body, lq);
        assert(whole_start(s) == at_whole);
        assert(whole_end(s) == at_whole + lq);
        assert(s[at_whole + lq] == '.');
        assert forall|i: int| 0 <= i < frac.len() implies is_digit(#[trigger] frac[i]) by {
            if i < k - lr {
                assert(frac[i] == zeros((k - lr) as nat)[i]);
            } else {
                assert(frac[i] == nat_text(r)[i - (k - lr)]);
            }
        }
        assert(s.skip(at_whole + lq + 1) =~= frac);
        lemma_digit_run(frac, frac.len() as int);
        assert(fraction_end(s) == s.len());
        assert(s.skip(s.len() as int) =~= Seq::<char>::empty());
        assert(fraction_digits(s) =~= frac);
        assert(s.subrange(at_whole, at_whole + lq) =~= nat_text(q));
        lemma_digits_value_concat(zeros((k - lr) as nat), nat_text(r));
        let z = pow10(lr);
        assert(0 * z == 0) by (nonlinear_arith);
        assert(digits_value(frac) == r);
        assert(frac.len() == k);
        vstd::arithmetic::div_mod::lemma_fundamental_div_mod(a as int, pow10(k) as int);
        assert(q * pow10(k) == pow10(k) * q) by (nonlinear_arith);
        assert(numeral_digits(s) == digits_value(nat_text(q)) * pow10(k) + digits_value(frac));
    }
}

/// The text of every well-formed decimal reads back as that decimal.
pub proof fn lemma_text_round_trip(d: Decimal)
    requires
        d.wf(),
    ensures
        numeral_value(decimal_text(d.mantissa as int, d.exponent as int)) == Some(
            (d.mantissa as int, d.exponent as int),
        ),
{
    let m = d.mantissa as int;
    let e = d.exponent as int;
    let a = abs(m);
    lemma_decimal_text_numeral(m, e);
    if m != 0 {
        assert(a % 10 != 0);
        if e >= 0 {
            lemma_strip_scaled(a, e as nat, 0);
        }
    }
}

/// The text of a 32-bit integer reads back as a decimal that truncates to
/// that integer.
pub proof fn lemma_int_text_round_trip(i: int)
    requires
        i32::MIN <= i <= i32::MAX,
    ensures
        numeral_value(decimal_text(i, 0)) is Some,
        truncate(numeral_value(decimal_text(i, 0))->Some_0.0, numeral_value(decimal_text(i, 0))->Some_0.1) == i,
        -MAX_EXPONENT <= numeral_value(decimal_text(i, 0))->Some_0.1 <= MAX_EXPONENT,
        -pow10(38) < numeral_value(decimal_text(i, 0))->Some_0.0 < pow10(38),
{
    let a = abs(i);
    let s = decimal_text(i, 0);
    lemma_decimal_text_numeral(i, 0);
    lemma_pow10_facts();
    lemma_pow10_monotonic(10, 20);
    assert(pow10(10) == 10_000_000_000) by {
        reveal_with_fuel(pow10, 11);
    }
    lemma_nat_text_len(a, 10);
    assert(s =~= (if i < 0 { seq!['-'] } else { Seq::empty() }) + nat_text(a) + zeros(0));
    assert(pow10(0) == 1);
    assert(a * pow10(0) == a) by (nonlinear_arith)
        requires
            pow10(0) == 1,
    ;
    if a > 0 {
        lemma_strip_zeros_nonzero(a, 0);
        lemma_strip_value(a, 0);
        let (n, e) = strip_zeros(a, 0);
        lemma_pow10_positive(e as nat);
        assert(n <= a) by (nonlinear_arith)
            requires
                n * pow10(e as nat) == a,
                pow10(e as nat) >= 1,
        ;
        if e > 20 {
            lemma_pow10_monotonic(20, e as nat);
            assert(n * pow10(e as nat) >= pow10(e as nat)) by (nonlinear_arith)
                requires
                    n >= 1,
                    pow10(e as nat) >= 1,
            ;
        }
        lemma_strip_zeros_nonzero(a, 0);
        if i < 0 {
            assert((-(n as int)) * pow10(e as nat) == -(n * pow10(e as nat))) by (nonlinear_arith);
        }
    }
}

} // verus!
