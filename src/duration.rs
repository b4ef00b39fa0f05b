//! Durations and decimal numbers as written in queries.
use vstd::prelude::*;
use crate::number::{floor_clamped, Rational};
use crate::text::{chars_of, find_dot, same_text};

verus! {

/// Milliseconds in one unit of time, as `(numerator, denominator)`; `None`
/// for a word that is no unit. The language fixes a month at thirty weeks
/// (18,144,000,000 ms), not thirty days.
pub open spec fn unit_factor(unit: Seq<char>) -> Option<(int, int)> {
    if unit == "usec"@ {
        Some((1, 1000))
    } else if unit == "ms"@ {
        Some((1, 1))
    } else if unit == "sec"@ {
        Some((1000, 1))
    } else if unit == "min"@ {
        Some((60_000, 1))
    } else if unit == "hr"@ {
        Some((3_600_000, 1))
    } else if unit == "day"@ {
        Some((86_400_000, 1))
    } else if unit == "week"@ {
        Some((604_800_000, 1))
    } else if unit == "month"@ {
        Some((18_144_000_000, 1))
    } else {
        None
    }
}

/// Numerator of the milliseconds in one unit.
pub open spec fn unit_num(unit: Seq<char>) -> int {
    let (n, _) = unit_factor(unit)->0;
    n
}

/// Denominator of the milliseconds in one unit.
pub open spec fn unit_den(unit: Seq<char>) -> int {
    let (_, d) = unit_factor(unit)->0;
    d
}

/// Whether `unit` is one of the duration units `usec`, `ms`, `sec`, `min`,
/// `hr`, `day`, `week`, `month`.
pub fn is_duration_unit(unit: &str) -> (r: bool)
    ensures
        r == unit_factor(unit@) is Some,
{
    same_text(unit, "usec") || same_text(unit, "ms") || same_text(unit, "sec") || same_text(
        unit,
        "min",
    ) || same_text(unit, "hr") || same_text(unit, "day") || same_text(unit, "week") || same_text(
        unit,
        "month",
    )
}

/// Milliseconds in one `unit` of time.
pub fn unit_to_ms(unit: &str) -> (r: Rational)
    requires
        unit_factor(unit@) is Some,
    ensures
        r.wf(),
        r.num == unit_num(unit@),
        r.den == unit_den(unit@),
{
    if same_text(unit, "usec") {
        Rational::new(1, 1000)
    } else if same_text(unit, "ms") {
        Rational::from_int(1)
    } else if same_text(unit, "sec") {
        Rational::from_int(1000)
    } else if same_text(unit, "min") {
        Rational::from_int(60_000)
    } else if same_text(unit, "hr") {
        Rational::from_int(3_600_000)
    } else if same_text(unit, "day") {
        Rational::from_int(86_400_000)
    } else if same_text(unit, "week") {
        Rational::from_int(604_800_000)
    } else {
        Rational::from_int(18_144_000_000)
    }
}

/// `value` units of time in whole milliseconds: rounded toward zero, and
/// held to the range of `u64`.
pub open spec fn duration_ms(value: Rational, unit: Seq<char>) -> u64 {
    floor_clamped(value.num * unit_num(unit), value.den * unit_den(unit))
}

/// `value` units of time in whole milliseconds: rounded toward zero, and
/// held to the range of `u64`.
pub fn duration_to_ms(value: &Rational, unit: &str) -> (r: u64)
    requires
        value.wf(),
        unit_factor(unit@) is Some,
    ensures
        r == duration_ms(*value, unit@),
{
    let f = unit_to_ms(unit);
    if value.num < 0 {
        return 0;
    }
    let a = value.num as u128;
    let m = f.num as u128;
    let d = value.den as u128 * f.den as u128;
    assert(d <= 1000 * u64::MAX) by (nonlinear_arith)
        requires
            d == value.den as int * f.den as int,
            f.den <= 1000,
    ;
    assert(d > 0) by (nonlinear_arith)
        requires
            d == value.den as int * f.den as int,
            f.den > 0,
            value.den > 0,
    ;
    let q1 = a / d;
    let r1 = a % d;
    assert(r1 * m < 1000 * u64::MAX * 18_144_000_001) by (nonlinear_arith)
        requires
            r1 < d,
            d <= 1000 * u64::MAX,
            m <= 18_144_000_000,
    ;
    let t = r1 * m;
    let q2 = t / d;
    let r2 = t % d;
    proof {
        assert(a == q1 * d + r1) by (nonlinear_arith)
            requires
                q1 == a / d,
                r1 == a % d,
                d > 0,
        ;
        assert(t == q2 * d + r2) by (nonlinear_arith)
            requires
                q2 == t / d,
                r2 == t % d,
                d > 0,
        ;
        assert(a * m == (q1 * m + q2) * d + r2) by (nonlinear_arith)
            requires
                a == q1 * d + r1,
                t == r1 * m,
                t == q2 * d + r2,
        ;
        vstd::arithmetic::div_mod::lemma_fundamental_div_mod_converse(
            a * m,
            d as int,
            q1 * m + q2,
            r2 as int,
        );
    }
    if q1 > u64::MAX as u128 {
        proof {
            assert(q1 * m + q2 >= q1) by (nonlinear_arith)
                requires
                    m >= 1,
                    q2 >= 0,
            ;
        }
        return u64::MAX;
    }
    assert(q1 * m <= u64::MAX * 18_144_000_000) by (nonlinear_arith)
        requires
            q1 <= u64::MAX,
            m <= 18_144_000_000,
    ;
    let total = q1 * m + q2;
    if total > u64::MAX as u128 {
        u64::MAX
    } else {
        total as u64
    }
}

/// Whether `c` is an ASCII digit.
pub open spec fn is_digit(c: char) -> bool {
    '0' <= c && c <= '9'
}

/// Whether every character of `s` is an ASCII digit.
pub open spec fn all_digits(s: Seq<char>) -> bool {
    forall|i: int| 0 <= i < s.len() ==> is_digit(#[trigger] s[i])
}

/// The number that a string of decimal digits denotes.
pub open spec fn digits_value(s: Seq<char>) -> int
    decreases s.len(),
{
    if s.len() == 0 {
        0
    } else {
        digits_value(s.drop_last()) * 10 + (s.last() as int - '0' as int)
    }
}

/// `10` to the power `n`.
pub open spec fn pow10(n: nat) -> int
    decreases n,
{
    if n == 0 {
        1
    } else {
        10 * pow10((n - 1) as nat)
    }
}

/// The digits of a decimal literal without its sign: before the point, and after it.
pub open spec fn decimal_parts(body: Seq<char>) -> (Seq<char>, Seq<char>) {
    let d = crate::text::first_dot(body);
    if d < body.len() {
        (body.subrange(0, d), body.subrange(d + 1, body.len() as int))
    } else {
        (body, Seq::empty())
    }
}

/// The decimal literal `[-]digits[.digits]` as `(numerator, denominator)`,
/// where the denominator is `10` to the number of fraction digits; `None`
/// for text of another shape.
pub open spec fn decimal_value(s: Seq<char>) -> Option<(int, int)> {
    let neg = s.len() > 0 && s[0] == '-';
    let body = if neg {
        s.drop_first()
    } else {
        s
    };
    let (ip, fp) = decimal_parts(body);
    if ip.len() >= 1 && all_digits(ip) && all_digits(fp) {
        let n = digits_value(ip + fp);
        Some((
            if neg {
                -n
            } else {
                n
            },
            pow10(fp.len()),
        ))
    } else {
        None
    }
}

proof fn lemma_digits_grow(s: Seq<char>, c: char)
    requires
        all_digits(s),
        is_digit(c),
    ensures
        digits_value(s.push(c)) == digits_value(s) * 10 + (c as int - '0' as int),
        digits_value(s.push(c)) >= digits_value(s),
        digits_value(s) >= 0,
    decreases s.len(),
{
    assert(s.push(c).drop_last() =~= s);
    if s.len() > 0 {
        assert(all_digits(s.drop_last()));
        assert(s.drop_last().push(s.last()) =~= s);
        lemma_digits_grow(s.drop_last(), s.last());
    }
}

proof fn lemma_digits_prefix(s: Seq<char>, k: int)
    requires
        all_digits(s),
        0 <= k <= s.len(),
    ensures
        0 <= digits_value(s.subrange(0, k)) <= digits_value(s),
    decreases s.len() - k,
{
    if k < s.len() {
        let p = s.subrange(0, k);
        assert(s.subrange(0, k + 1) =~= p.push(s[k]));
        assert(all_digits(p));
        lemma_digits_grow(p, s[k]);
        lemma_digits_prefix(s, k + 1);
    } else {
        assert(s.subrange(0, k) =~= s);
        if s.len() > 0 {
            assert(s.drop_last().push(s.last()) =~= s);
            assert(all_digits(s.drop_last()));
            lemma_digits_grow(s.drop_last(), s.last());
        }
    }
}

proof fn lemma_pow10_grows(a: nat, b: nat)
    requires
        a <= b,
    ensures
        1 <= pow10(a) <= pow10(b),
    decreases b,
{
    if a < b {
        lemma_pow10_grows(a, (b - 1) as nat);
    } else if a > 0 {
        lemma_pow10_grows((a - 1) as nat, (a - 1) as nat);
    }
}

/// Whether the characters of `cs` in `[lo, hi)` are all digits.
fn digits_between(cs: &Vec<char>, lo: usize, hi: usize) -> (r: bool)
    requires
        lo <= hi <= cs@.len(),
    ensures
        r == all_digits(cs@.subrange(lo as int, hi as int)),
{
    let mut i: usize = lo;
    while i < hi
        invariant
            lo <= i <= hi <= cs@.len(),
            all_digits(cs@.subrange(lo as int, i as int)),
        decreases hi - i,
    {
        if !('0' <= cs[i] && cs[i] <= '9') {
            assert(cs@.subrange(lo as int, hi as int)[i - lo] == cs@[i as int]);
            return false;
        }
        i = i + 1;
        assert forall|j: int| 0 <= j < i - lo implies is_digit(
            #[trigger] cs@.subrange(lo as int, i as int)[j],
        ) by {
            if j < i - 1 - lo {
                assert(cs@.subrange(lo as int, i as int)[j] == cs@.subrange(
                    lo as int,
                    i - 1,
                )[j]);
            }
        }
    }
    true
}

/// The number that a string of digits denotes, if it fits an `i128`.
fn digits_number(ds: &Vec<char>) -> (r: Option<i128>)
    requires
        all_digits(ds@),
    ensures
        match r {
            Some(v) => v == digits_value(ds@),
            None => digits_value(ds@) > i128::MAX,
        },
{
    let mut acc: i128 = 0;
    let mut i: usize = 0;
    assert(ds@.subrange(0, 0) =~= Seq::<char>::empty());
    while i < ds.len()
        invariant
            0 <= i <= ds@.len(),
            all_digits(ds@),
            acc == digits_value(ds@.subrange(0, i as int)),
        decreases ds@.len() - i,
    {
        let ghost pre = ds@.subrange(0, i as int);
        proof {
            assert(ds@.subrange(0, i + 1) =~= pre.push(ds@[i as int]));
            assert(all_digits(pre));
            lemma_digits_grow(pre, ds@[i as int]);
            lemma_digits_prefix(ds@, i + 1);
        }
        let digit = (ds[i] as u32 - '0' as u32) as i128;
        acc = match acc.checked_mul(10) {
            Some(v) => match v.checked_add(digit) {
                Some(w) => w,
                None => {
                    return None;
                },
            },
            None => {
                return None;
            },
        };
        i = i + 1;
    }
    assert(ds@.subrange(0, i as int) =~= ds@);
    Some(acc)
}

/// `10` to the power `n`, if it fits a `u64`.
fn pow10_exec(n: usize) -> (r: Option<u64>)
    ensures
        match r {
            Some(v) => v == pow10(n as nat),
            None => pow10(n as nat) > u64::MAX,
        },
{
    let mut acc: u64 = 1;
    let mut i: usize = 0;
    while i < n
        invariant
            0 <= i <= n,
            acc == pow10(i as nat),
        decreases n - i,
    {
        acc = match acc.checked_mul(10) {
            Some(v) => v,
            None => {
                proof {
                    lemma_pow10_grows((i + 1) as nat, n as nat);
                }
                return None;
            },
        };
        i = i + 1;
    }
    Some(acc)
}

/// The rational that a decimal literal `[-]digits[.digits]` denotes; `None`
/// for text of another shape, or whose numerator or denominator does not fit.
pub fn parse_decimal(text: &str) -> (r: Option<Rational>)
    ensures
        match decimal_value(text@) {
            None => r is None,
            Some((n, d)) => if -i128::MAX <= n <= i128::MAX && d <= u64::MAX {
                r == Some(Rational { num: n as i128, den: d as u64 }) && r->0.wf()
            } else {
                r is None
            },
        },
{
    let cs = chars_of(text);
    let neg = cs.len() > 0 && cs[0] == '-';
    let start: usize = if neg {
        1
    } else {
        0
    };
    let ghost body = cs@.subrange(start as int, cs@.len() as int);
    assert(neg ==> body =~= text@.drop_first());
    assert(!neg ==> body =~= text@);
    let dot = find_dot(&cs, start);
    let frac_start: usize = if dot < cs.len() {
        dot + 1
    } else {
        dot
    };
    let ghost ip = decimal_parts(body).0;
    let ghost fp = decimal_parts(body).1;
    assert(ip =~= cs@.subrange(start as int, dot as int));
    assert(fp =~= cs@.subrange(frac_start as int, cs@.len() as int));
    if dot == start || !digits_between(&cs, start, dot) || !digits_between(
        &cs,
        frac_start,
        cs.len(),
    ) {
        return None;
    }
    let mut ds: Vec<char> = Vec::new();
    let mut i: usize = start;
    while i < dot
        invariant
            start <= i <= dot <= cs@.len(),
            ds@ == cs@.subrange(start as int, i as int),
        decreases dot - i,
    {
        ds.push(cs[i]);
        i = i + 1;
        assert(ds@ =~= cs@.subrange(start as int, i as int));
    }
    let mut i: usize = frac_start;
    while i < cs.len()
        invariant
            frac_start <= i <= cs@.len(),
            ds@ == cs@.subrange(start as int, dot as int) + cs@.subrange(
                frac_start as int,
                i as int,
            ),
        decreases cs@.len() - i,
    {
        ds.push(cs[i]);
        i = i + 1;
        assert(ds@ =~= cs@.subrange(start as int, dot as int) + cs@.subrange(
            frac_start as int,
            i as int,
        ));
    }
    assert(ds@ =~= ip + fp);
    assert(all_digits(ds@)) by {
        assert forall|j: int| 0 <= j < ds@.len() implies is_digit(#[trigger] ds@[j]) by {
            if j < ip.len() {
                assert(ds@[j] == ip[j]);
            } else {
                assert(ds@[j] == fp[j - ip.len()]);
            }
        }
    }
    let n = match digits_number(&ds) {
        Some(n) => n,
        None => {
            return None;
        },
    };
    let d = match pow10_exec(cs.len() - frac_start) {
        Some(d) => d,
        None => {
            return None;
        },
    };
    proof {
        lemma_pow10_grows(0, fp.len());
        lemma_digits_prefix(ds@, ds@.len() as int);
        assert(ds@.subrange(0, ds@.len() as int) =~= ds@);
        assert(fp.len() == cs.len() - frac_start);
        assert(decimal_value(text@) == Some::<(int, int)>((if neg { -(n as int) } else { n as int }, d as int)));
    }
    Some(Rational::new(if neg { -n } else { n }, d))
}

} // verus!
