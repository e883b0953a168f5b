//! Real numbers read from text, held exactly with a fixed number of decimal places.
use vstd::prelude::*;
use vstd::string::StringSliceAdditionalSpecFns;

verus! {

/// Digits kept after the decimal point by every `Decimal`.
pub const SCALE: u32 = 9;

/// The units of one whole: 10^SCALE.
pub const ONE: i64 = 1_000_000_000;

/// The largest magnitude a `Decimal` may hold in units: values up to 10^18.
pub const MAX_UNITS: i128 = 1_000_000_000_000_000_000_000_000_000;

/// The largest number the digits of a mantissa may write, the most that
/// 128-bit arithmetic rescales without overflow.
pub const MAX_MANTISSA: u128 = 1_000_000_000_000_000_000_000_000_000_000_000_000;

/// Exponents beyond this magnitude are read only as "very large".
pub const MAX_EXPONENT: u128 = 1_000_000_000_000_000_000_000_000_000_000;

pub open spec fn pow10(n: nat) -> int
    decreases n,
{
    if n == 0 {
        1
    } else {
        10 * pow10((n - 1) as nat)
    }
}

pub proof fn lemma_pow10_positive(n: nat)
    ensures
        pow10(n) >= 1,
    decreases n,
{
    if n > 0 {
        lemma_pow10_positive((n - 1) as nat);
    }
}

pub proof fn lemma_pow10_monotone(a: nat, b: nat)
    requires
        a <= b,
    ensures
        pow10(a) <= pow10(b),
    decreases b,
{
    if a < b {
        lemma_pow10_monotone(a, (b - 1) as nat);
        lemma_pow10_positive((b - 1) as nat);
    }
}

pub proof fn lemma_pow10_add(a: nat, b: nat)
    ensures
        pow10(a + b) == pow10(a) * pow10(b),
    decreases b,
{
    if b > 0 {
        lemma_pow10_add(a, (b - 1) as nat);
        assert(pow10(a + b) == 10 * pow10((a + b - 1) as nat));
        assert(pow10(a) * (10 * pow10((b - 1) as nat)) == 10 * (pow10(a) * pow10((b - 1) as nat)))
            by (nonlinear_arith);
    }
}

/// 10^n for n up to 38, the largest power that fits in a `u128`.
pub fn pow10_u128(n: u32) -> (r: u128)
    requires
        n <= 38,
    ensures
        r == pow10(n as nat),
{
    proof {
        reveal_with_fuel(pow10, 39);
        lemma_pow10_monotone(n as nat, 38);
    }
    let mut r: u128 = 1;
    let mut k: u32 = 0;
    while k < n
        invariant
            k <= n <= 38,
            r == pow10(k as nat),
            pow10(n as nat) <= 100000000000000000000000000000000000000,
        decreases n - k,
    {
        proof {
            lemma_pow10_monotone((k + 1) as nat, n as nat);
        }
        r = r * 10;
        k = k + 1;
    }
    r
}

/// 10^n for n up to 19, the largest power that fits in a `u64`.
pub fn pow10_u64(n: u32) -> (r: u64)
    requires
        n <= 19,
    ensures
        r == pow10(n as nat),
{
    proof {
        reveal_with_fuel(pow10, 20);
        lemma_pow10_monotone(n as nat, 19);
    }
    let mut r: u64 = 1;
    let mut k: u32 = 0;
    while k < n
        invariant
            k <= n <= 19,
            r == pow10(k as nat),
            pow10(n as nat) <= 10000000000000000000,
        decreases n - k,
    {
        proof {
            lemma_pow10_monotone((k + 1) as nat, n as nat);
        }
        r = r * 10;
        k = k + 1;
    }
    r
}

/// A real number with exactly `SCALE` digits after the point: its value is
/// `units / 10^SCALE`, at most 10^18 in magnitude when well formed.
#[derive(Clone, Copy, Debug, PartialEq, Eq, Structural)]
pub struct Decimal {
    pub units: i128,
}

impl Decimal {
    pub open spec fn wf(self) -> bool {
        -MAX_UNITS <= self.units <= MAX_UNITS
    }

    /// Whether the value has no fractional part.
    pub open spec fn is_whole(self) -> bool {
        abs_units(self.units) % (ONE as int) == 0
    }

    /// The whole number of the value, rounded toward zero.
    pub open spec fn whole_part(self) -> int {
        self.units as int / (ONE as int)
    }

    /// Whether the value has no fractional part.
    pub fn has_no_fraction(&self) -> (r: bool)
        requires
            self.wf(),
        ensures
            r == self.is_whole(),
    {
        let m: u128 = if self.units < 0 {
            (0 - self.units) as u128
        } else {
            self.units as u128
        };
        m % (ONE as u128) == 0
    }
}

pub open spec fn abs_units(u: i128) -> int {
    if u < 0 {
        -(u as int)
    } else {
        u as int
    }
}

pub open spec fn is_digit(c: u8) -> bool {
    48 <= c <= 57
}

/// The byte `.`.
pub open spec fn is_point(c: u8) -> bool {
    c == 46
}

/// The number written by the digits of `s`, ignoring every other byte.
pub open spec fn digits_value(s: Seq<u8>) -> int
    decreases s.len(),
{
    if s.len() == 0 {
        0
    } else if is_digit(s.last()) {
        10 * digits_value(s.drop_last()) + (s.last() - 48)
    } else {
        digits_value(s.drop_last())
    }
}

pub open spec fn digit_count(s: Seq<u8>) -> nat
    decreases s.len(),
{
    if s.len() == 0 {
        0
    } else if is_digit(s.last()) {
        digit_count(s.drop_last()) + 1
    } else {
        digit_count(s.drop_last())
    }
}

pub open spec fn point_count(s: Seq<u8>) -> nat
    decreases s.len(),
{
    if s.len() == 0 {
        0
    } else if is_point(s.last()) {
        point_count(s.drop_last()) + 1
    } else {
        point_count(s.drop_last())
    }
}

/// How many bytes follow the first point of `s` (zero without a point).
pub open spec fn fraction_len(s: Seq<u8>) -> nat
    decreases s.len(),
{
    if s.len() == 0 {
        0
    } else if point_count(s.drop_last()) > 0 {
        fraction_len(s.drop_last()) + 1
    } else {
        0
    }
}

/// Digits with at most one point among them.
pub open spec fn is_number_body(s: Seq<u8>) -> bool {
    &&& forall|i: int| 0 <= i < s.len() ==> is_digit(#[trigger] s[i]) || is_point(s[i])
    &&& point_count(s) <= 1
    &&& digit_count(s) > 0
}

/// `num / den` rounded to the nearest integer, halves away from zero.
pub open spec fn round_half_away(num: int, den: int) -> int {
    if num >= 0 {
        (2 * num + den) / (2 * den)
    } else {
        -((-2 * num + den) / (2 * den))
    }
}

/// Length of a leading `+` or `-`.
pub open spec fn sign_len(t: Seq<u8>) -> int {
    if t.len() > 0 && (t[0] == 43 || t[0] == 45) {
        1
    } else {
        0
    }
}

/// The bytes `e` and `E`.
pub open spec fn is_exp_mark(c: u8) -> bool {
    c == 101 || c == 69
}

/// The index of the first exponent mark of `s`, or its length without one.
pub open spec fn mark_index(s: Seq<u8>) -> int {
    if exists|k: int| 0 <= k < s.len() && is_exp_mark(#[trigger] s[k]) {
        choose|k: int|
            0 <= k < s.len() && is_exp_mark(s[k]) && forall|j: int|
                0 <= j < k ==> !is_exp_mark(#[trigger] s[j])
    } else {
        s.len() as int
    }
}

/// An exponent: an optional sign, then one or more digits.
pub open spec fn exponent_ok(x: Seq<u8>) -> bool {
    let d = x.skip(sign_len(x));
    d.len() > 0 && forall|i: int| 0 <= i < d.len() ==> is_digit(#[trigger] d[i])
}

pub open spec fn exponent_value(x: Seq<u8>) -> int {
    let v = digits_value(x.skip(sign_len(x)));
    if x.len() > 0 && x[0] == 45 {
        -v
    } else {
        v
    }
}

/// `m * 10^shift`, rounded to a whole number halves away from zero.
pub open spec fn scaled(m: int, shift: int) -> int {
    if shift >= 0 {
        m * pow10(shift as nat)
    } else {
        round_half_away(m, pow10((-shift) as nat))
    }
}

/// The value of decimal text `t` in units of 10^-SCALE, rounded to a whole
/// unit halves away from zero: an optional sign, digits with at most one
/// point, then optionally `e` or `E`, an optional sign and digits. The digits
/// before the exponent may write a number of at most `MAX_MANTISSA`.
pub open spec fn text_units(t: Seq<u8>) -> Option<int> {
    let body = t.skip(sign_len(t));
    let k = mark_index(body);
    let mant = body.take(k);
    let has_exp = k < body.len();
    let x = body.skip(k + 1);
    if is_number_body(mant) && digits_value(mant) <= MAX_MANTISSA && (!has_exp || exponent_ok(x)) {
        let e = if has_exp {
            exponent_value(x)
        } else {
            0
        };
        let m = scaled(digits_value(mant), SCALE + e - fraction_len(mant));
        Some(
            if t.len() > 0 && t[0] == 45 {
                -m
            } else {
                m
            },
        )
    } else {
        None
    }
}

proof fn lemma_digits_value_nonneg(s: Seq<u8>)
    ensures
        digits_value(s) >= 0,
    decreases s.len(),
{
    if s.len() > 0 {
        lemma_digits_value_nonneg(s.drop_last());
    }
}

/// The first index from `start` that holds an exponent mark, or `t.len()`.
fn find_mark(t: &[u8], start: usize) -> (k: usize)
    requires
        start <= t@.len(),
    ensures
        start <= k <= t@.len(),
        forall|j: int| start <= j < k ==> !is_exp_mark(#[trigger] t@[j]),
        k < t@.len() ==> is_exp_mark(t@[k as int]),
{
    let mut i: usize = start;
    while i < t.len() && !(t[i] == 101u8 || t[i] == 69u8)
        invariant
            start <= i <= t@.len(),
            forall|j: int| start <= j < i ==> !is_exp_mark(#[trigger] t@[j]),
        decreases t@.len() - i,
    {
        i = i + 1;
    }
    i
}

/// Scans digits with at most one point in `t[start..end]`.
fn scan_mantissa(t: &[u8], start: usize, end: usize) -> (r: (bool, usize, bool, u128))
    requires
        start <= end <= t@.len(),
    ensures
        r.0 == is_number_body(t@.subrange(start as int, end as int)),
        r.1 == fraction_len(t@.subrange(start as int, end as int)),
        r.1 <= end,
        r.2 <==> digits_value(t@.subrange(start as int, end as int)) > MAX_MANTISSA,
        !r.2 ==> r.3 == digits_value(t@.subrange(start as int, end as int)),
{
    let mut i: usize = start;
    let mut ok: bool = true;
    let mut points: usize = 0;
    let mut frac: usize = 0;
    let mut digits: usize = 0;
    let mut big: bool = false;
    let mut acc: u128 = 0;
    assert(t@.subrange(start as int, start as int) =~= Seq::<u8>::empty());
    while i < end
        invariant
            start <= i <= end <= t@.len(),
            ok <==> (forall|j: int| start <= j < i ==> is_digit(#[trigger] t@[j]) || is_point(t@[j])),
            points == point_count(t@.subrange(start as int, i as int)),
            frac == fraction_len(t@.subrange(start as int, i as int)),
            digits == digit_count(t@.subrange(start as int, i as int)),
            points <= i,
            frac <= i,
            digits <= i,
            big <==> digits_value(t@.subrange(start as int, i as int)) > MAX_MANTISSA,
            !big ==> acc == digits_value(t@.subrange(start as int, i as int)),
            0 <= acc <= MAX_MANTISSA,
        decreases end - i,
    {
        let ghost prev = t@.subrange(start as int, i as int);
        let ghost next = t@.subrange(start as int, i + 1);
        assert(next.drop_last() =~= prev);
        assert(next.last() == t@[i as int]);
        proof {
            lemma_digits_value_nonneg(prev);
        }
        let c = t[i];
        if points > 0 {
            frac = frac + 1;
        }
        if c >= 48u8 && c <= 57u8 {
            digits = digits + 1;
            if !big {
                let d: u128 = (c - 48u8) as u128;
                if acc > (MAX_MANTISSA - d) / 10 {
                    big = true;
                } else {
                    acc = acc * 10 + d;
                }
            }
        } else if c == 46u8 {
            points = points + 1;
        } else {
            ok = false;
        }
        i = i + 1;
    }
    let ghost whole = t@.subrange(start as int, end as int);
    assert(ok <==> (forall|j: int|
        0 <= j < whole.len() ==> is_digit(#[trigger] whole[j]) || is_point(whole[j]))) by {
        if ok {
            assert forall|j: int| 0 <= j < whole.len() implies is_digit(#[trigger] whole[j])
                || is_point(whole[j]) by {
                assert(whole[j] == t@[start + j]);
            }
        } else {
            let j = choose|j: int|
                start <= j < end && !(is_digit(#[trigger] t@[j]) || is_point(t@[j]));
            assert(whole[j - start] == t@[j]);
        }
    }
    (ok && points <= 1 && digits > 0, frac, big, acc)
}

/// Scans an exponent in `t[start..]`: whether it is well formed, whether it
/// is negative, whether its digits exceed `MAX_EXPONENT`, and else their value.
fn scan_exponent(t: &[u8], start: usize) -> (r: (bool, bool, bool, u128))
    requires
        start <= t@.len(),
    ensures
        r.0 == exponent_ok(t@.skip(start as int)),
        r.1 == (t@.skip(start as int).len() > 0 && t@.skip(start as int)[0] == 45),
        r.2 <==> digits_value(t@.skip(start as int).skip(sign_len(t@.skip(start as int))))
            > MAX_EXPONENT,
        !r.2 ==> r.3 == digits_value(t@.skip(start as int).skip(sign_len(t@.skip(start as int)))),
{
    let n = t.len();
    let ghost x = t@.skip(start as int);
    let negative: bool = start < n && t[start] == 45u8;
    let from: usize = if start < n && (t[start] == 43u8 || t[start] == 45u8) {
        start + 1
    } else {
        start
    };
    let ghost d = x.skip(sign_len(x));
    assert(d =~= t@.subrange(from as int, n as int));
    let mut i: usize = from;
    let mut ok: bool = true;
    let mut big: bool = false;
    let mut acc: u128 = 0;
    assert(t@.subrange(from as int, from as int) =~= Seq::<u8>::empty());
    while i < n
        invariant
            from <= i <= n == t@.len(),
            ok <==> (forall|j: int| from <= j < i ==> is_digit(#[trigger] t@[j])),
            big <==> digits_value(t@.subrange(from as int, i as int)) > MAX_EXPONENT,
            !big ==> acc == digits_value(t@.subrange(from as int, i as int)),
            0 <= acc <= MAX_EXPONENT,
        decreases n - i,
    {
        let ghost prev = t@.subrange(from as int, i as int);
        let ghost next = t@.subrange(from as int, i + 1);
        assert(next.drop_last() =~= prev);
        assert(next.last() == t@[i as int]);
        proof {
            lemma_digits_value_nonneg(prev);
        }
        let c = t[i];
        if c >= 48u8 && c <= 57u8 {
            if !big {
                let v: u128 = (c - 48u8) as u128;
                if acc > (MAX_EXPONENT - v) / 10 {
                    big = true;
                } else {
                    acc = acc * 10 + v;
                }
            }
        } else {
            ok = false;
        }
        i = i + 1;
    }
    assert(ok <==> (forall|j: int| 0 <= j < d.len() ==> is_digit(#[trigger] d[j]))) by {
        if ok {
            assert forall|j: int| 0 <= j < d.len() implies is_digit(#[trigger] d[j]) by {
                assert(d[j] == t@[from + j]);
            }
        } else {
            let j = choose|j: int| from <= j < n && !is_digit(#[trigger] t@[j]);
            assert(d[j - from] == t@[j]);
        }
    }
    (ok && from < n, negative, big, acc)
}

/// `m * 10^shift` rounded to whole units, if its magnitude is at most
/// `MAX_UNITS`.
fn scale_mantissa(m: u128, shift: i128) -> (r: Option<u128>)
    requires
        m <= MAX_MANTISSA,
        -MAX_EXPONENT * 10 <= shift <= MAX_EXPONENT * 10,
    ensures
        r is Some <==> scaled(m as int, shift as int) <= MAX_UNITS,
        r matches Some(v) ==> v == scaled(m as int, shift as int),
{
    proof {
        reveal_with_fuel(pow10, 40);
    }
    if m == 0 {
        proof {
            if shift < 0 {
                lemma_pow10_positive((-shift) as nat);
                vstd::arithmetic::div_mod::lemma_basic_div(
                    pow10((-shift) as nat),
                    2 * pow10((-shift) as nat),
                );
            }
        }
        return Some(0);
    }
    if shift >= 0 {
        if shift > 27 {
            proof {
                lemma_pow10_monotone(28, shift as nat);
                let p = pow10(shift as nat);
                assert(m as int * p >= p) by (nonlinear_arith)
                    requires
                        m >= 1,
                        p >= 0,
                ;
            }
            return None;
        }
        let p: u128 = pow10_u128(shift as u32);
        proof {
            lemma_pow10_positive(shift as nat);
            vstd::arithmetic::div_mod::lemma_fundamental_div_mod(MAX_UNITS as int, p as int);
            vstd::arithmetic::div_mod::lemma_mod_bound(MAX_UNITS as int, p as int);
        }
        let limit: u128 = MAX_UNITS as u128 / p;
        if m > limit {
            assert(m as int * p as int > MAX_UNITS) by (nonlinear_arith)
                requires
                    m >= limit + 1,
                    MAX_UNITS as int == p * limit + (MAX_UNITS as int) % (p as int),
                    (MAX_UNITS as int) % (p as int) < p,
                    p >= 1,
            ;
            return None;
        }
        assert(m as int * p as int <= MAX_UNITS) by (nonlinear_arith)
            requires
                m <= limit,
                MAX_UNITS as int == p * limit + (MAX_UNITS as int) % (p as int),
                (MAX_UNITS as int) % (p as int) >= 0,
                p >= 1,
        ;
        return Some(m * p);
    }
    let k: i128 = 0 - shift;
    if k > 38 {
        proof {
            lemma_pow10_monotone(39, k as nat);
            let p = pow10(k as nat);
            vstd::arithmetic::div_mod::lemma_basic_div(2 * m + p, 2 * p);
        }
        return Some(0);
    }
    let p: u128 = pow10_u128(k as u32);
    proof {
        lemma_pow10_positive(k as nat);
        lemma_pow10_monotone(k as nat, 38);
    }
    let v: u128 = (2 * m + p) / (2 * p);
    if v > MAX_UNITS as u128 {
        return None;
    }
    Some(v)
}

/// Far enough from zero, a shift either rounds every mantissa to zero or puts
/// every nonzero one out of range.
proof fn lemma_far_shift(m: int, shift: int, near: int)
    requires
        0 <= m <= MAX_MANTISSA,
        (shift >= 100 && near == 100) || (shift <= -100 && near == -100),
    ensures
        (scaled(m, shift) <= MAX_UNITS) == (scaled(m, near) <= MAX_UNITS),
        scaled(m, near) <= MAX_UNITS ==> scaled(m, shift) == scaled(m, near),
{
    reveal_with_fuel(pow10, 40);
    lemma_pow10_monotone(39, 100);
    if near == -100 {
        lemma_pow10_monotone(100, (-shift) as nat);
        let p = pow10((-shift) as nat);
        let p1 = pow10(100);
        vstd::arithmetic::div_mod::lemma_basic_div(2 * m + p, 2 * p);
        vstd::arithmetic::div_mod::lemma_basic_div(2 * m + p1, 2 * p1);
        assert(scaled(m, shift) == 0);
        assert(scaled(m, near) == 0);
    } else {
        lemma_pow10_monotone(100, shift as nat);
        let p = pow10(shift as nat);
        let p1 = pow10(100);
        if m > 0 {
            assert(m * p >= p && m * p1 >= p1) by (nonlinear_arith)
                requires
                    m >= 1,
                    p >= 0,
                    p1 >= 0,
            ;
        } else {
            assert(m * p == 0 && m * p1 == 0) by (nonlinear_arith)
                requires
                    m == 0,
            ;
            assert(scaled(m, shift) == m * p);
            assert(scaled(m, near) == m * p1);
        }
    }
}

/// Reads decimal text as `text_units` describes it. Fails on any other text
/// and on a magnitude above `MAX_UNITS` units; `inf` and `NaN` are not numbers
/// here.
#[verifier::rlimit(50)]
pub fn parse_decimal_bytes(t: &[u8]) -> (r: Option<Decimal>)
    ensures
        r is Some <==> (text_units(t@) is Some && -MAX_UNITS <= text_units(t@)->0 <= MAX_UNITS),
        r matches Some(d) ==> text_units(t@) == Some(d.units as int) && d.wf(),
{
    let n = t.len();
    let start: usize = if n > 0 && (t[0] == 43u8 || t[0] == 45u8) {
        1
    } else {
        0
    };
    let negative: bool = n > 0 && t[0] == 45u8;
    let ghost body = t@.skip(start as int);
    let k = find_mark(t, start);
    proof {
        let kb = (k - start) as int;
        if k < n {
            assert(is_exp_mark(body[kb]));
            let c = choose|c: int|
                0 <= c < body.len() && is_exp_mark(body[c]) && forall|j: int|
                    0 <= j < c ==> !is_exp_mark(#[trigger] body[j]);
            assert(forall|j: int| 0 <= j < kb ==> !is_exp_mark(#[trigger] body[j])) by {
                assert forall|j: int| 0 <= j < kb implies !is_exp_mark(#[trigger] body[j]) by {
                    assert(body[j] == t@[start + j]);
                }
            }
            if c < kb {
                assert(body[c] == t@[start + c]);
            } else if c > kb {
                assert(!is_exp_mark(body[kb]));
            }
            assert(mark_index(body) == kb);
        } else {
            assert forall|j: int| 0 <= j < body.len() implies !is_exp_mark(#[trigger] body[j]) by {
                assert(body[j] == t@[start + j]);
            }
            assert(mark_index(body) == body.len());
        }
        assert(body.take(kb) =~= t@.subrange(start as int, k as int));
        if k < n {
            assert(body.skip(kb + 1) =~= t@.skip(k + 1));
        }
    }
    let (mok, frac, mbig, m) = scan_mantissa(t, start, k);
    if !mok || mbig {
        return None;
    }
    let mut e: i128 = 0;
    if k < n {
        let (eok, eneg, ebig, ev) = scan_exponent(t, k + 1);
        if !eok {
            return None;
        }
        if ebig {
            // The exponent alone puts the value far out of range, or rounds
            // it to zero.
            let near: i128 = if eneg { -100 } else { 100 };
            proof {
                let mant = t@.subrange(start as int, k as int);
                let shift = SCALE + exponent_value(t@.skip(k + 1)) - fraction_len(mant);
                lemma_digits_value_nonneg(t@.skip(k + 1).skip(sign_len(t@.skip(k + 1))));
                lemma_far_shift(m as int, shift, near as int);
            }
            return match scale_mantissa(m, near) {
                Some(v) => Some(Decimal { units: if negative { 0 - v as i128 } else { v as i128 } }),
                None => None,
            };
        }
        e = if eneg { 0 - ev as i128 } else { ev as i128 };
    }
    assert(frac <= n);
    let shift: i128 = 9 + e - frac as i128;
    let v = scale_mantissa(m, shift);
    match v {
        None => None,
        Some(v) => {
            let units: i128 = if negative { 0 - v as i128 } else { v as i128 };
            Some(Decimal { units })
        },
    }
}

/// Reads decimal text as `parse_decimal_bytes` does.
pub fn parse_decimal(text: &str) -> (r: Option<Decimal>)
    ensures
        r is Some <==> (text_units(text.spec_bytes()) is Some && -MAX_UNITS <= text_units(
            text.spec_bytes(),
        )->0 <= MAX_UNITS),
        r matches Some(d) ==> text_units(text.spec_bytes()) == Some(d.units as int) && d.wf(),
{
    parse_decimal_bytes(text.as_bytes())
}

} // verus!
