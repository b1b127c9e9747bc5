//! Scores: numbers of the format binary64, each by an integer that stands for it. The
//! integers are in the order of the numbers, and sums are rounded as the format
//! rounds them.
use vstd::arithmetic::power2::{lemma_pow2_adds, lemma_pow2_pos, lemma_pow2_unfold, pow2};
use vstd::prelude::*;

verus! {

/// How many numbers of the format share an exponent.
pub const BINADE: u64 = 0x10_0000_0000_0000;

/// What stands for one.
pub const ONE: i64 = 0x3ff0_0000_0000_0000;

/// What stands for two.
pub const TWO: i64 = 0x4000_0000_0000_0000;

/// What stands for infinity: one more than what stands for the largest number.
pub const INFINITE: i64 = 0x7ff0_0000_0000_0000;

/// What stands for the result of a sum that has none. Every code beyond infinity
/// stands for no number.
pub const NOT_A_NUMBER: i64 = 0x7fff_ffff_ffff_ffff;

// ---------------------------------------------------------------------------
// The numbers
// ---------------------------------------------------------------------------

/// The number that a positive code stands for, as a multiple of the smallest positive
/// one: the code is made of the exponent and of the digits behind the leading one,
/// which is absent from the numbers of the lowest exponent.
pub open spec fn magnitude(code: int) -> int {
    let exponent = code / BINADE as int;
    let digits = code % BINADE as int;
    if exponent == 0 {
        digits
    } else {
        (BINADE + digits) * pow2((exponent - 1) as nat)
    }
}

/// The number that a code stands for, as a multiple of the smallest positive one.
pub open spec fn value(code: int) -> int {
    if code >= 0 {
        magnitude(code)
    } else {
        -magnitude(-code)
    }
}

/// Whether a code stands for a number or for infinity.
pub open spec fn is_code(code: int) -> bool {
    -INFINITE <= code <= INFINITE
}

pub open spec fn infinite(code: int) -> bool {
    code == INFINITE || code == -INFINITE
}

pub open spec fn distance(a: int, b: int) -> int {
    if a < b {
        b - a
    } else {
        a - b
    }
}

/// Whether no code is nearer to a number; where another one is as near, the code is
/// even.
pub open spec fn is_nearest(code: int, number: int) -> bool {
    &&& is_code(code)
    &&& forall|other: int| #[trigger]
        is_code(other) && other != code ==> distance(value(code), number) < distance(
            value(other),
            number,
        ) || (distance(value(code), number) == distance(value(other), number) && code % 2 == 0)
}

/// The code that a number is rounded to.
pub open spec fn nearest(number: int) -> int {
    choose|code: int| #[trigger] is_nearest(code, number)
}

/// The sum of two scores. A finite one adds nothing to infinity, and opposite
/// infinities have no sum.
pub open spec fn plus(a: int, b: int) -> int {
    if !is_code(a) || !is_code(b) || (infinite(a) && infinite(b) && a != b) {
        NOT_A_NUMBER as int
    } else if infinite(a) {
        a
    } else if infinite(b) {
        b
    } else {
        nearest(value(a) + value(b))
    }
}

/// A score with the other sign.
pub open spec fn opposite(code: int) -> int {
    if is_code(code) {
        -code
    } else {
        NOT_A_NUMBER as int
    }
}

/// The greater of two scores; the other one, where one of them is no number.
pub open spec fn greater(a: int, b: int) -> int {
    if !is_code(a) {
        b
    } else if !is_code(b) || a >= b {
        a
    } else {
        b
    }
}

// ---------------------------------------------------------------------------
// Their order
// ---------------------------------------------------------------------------

/// A number by its digits and its exponent.
spec fn stands_for(code: int, m: int, e: nat) -> bool {
    &&& code == e * BINADE + m
    &&& 0 <= m <= 2 * BINADE
    &&& e == 0 || BINADE <= m
}

proof fn lemma_magnitude(code: int, m: int, e: nat)
    requires
        stands_for(code, m, e),
    ensures
        magnitude(code) == m * pow2(e),
{
    let b = BINADE as int;
    if m < b {
        assert(e == 0);
        assert(code == m);
        vstd::arithmetic::power2::lemma_pow2(0);
        vstd::arithmetic::power::lemma_pow0(2);
        assert(pow2(0) == 1);
        assert(m * 1 == m);
    } else if m < 2 * b {
        assert(code == (e + 1) * b + (m - b));
        assert(code / b == e + 1 && code % b == m - b);
    } else {
        assert(code == (e + 2) * b);
        assert(code / b == e + 2 && code % b == 0);
        lemma_pow2_unfold((e + 1) as nat);
        assert(b * (2 * pow2(e)) == (2 * b) * pow2(e)) by (nonlinear_arith);
    }
}

proof fn lemma_decoded(code: int) -> (r: (int, nat))
    requires
        code >= 0,
    ensures
        stands_for(code, r.0, r.1),
        r.0 < 2 * BINADE,
{
    let b = BINADE as int;
    let e = code / b;
    if e == 0 {
        (code, 0)
    } else {
        (code % b + b, (e - 1) as nat)
    }
}

proof fn lemma_magnitude_step(code: int)
    requires
        code >= 0,
    ensures
        0 <= magnitude(code) < magnitude(code + 1),
{
    let (m, e) = lemma_decoded(code);
    lemma_magnitude(code, m, e);
    lemma_magnitude(code + 1, m + 1, e);
    lemma_pow2_pos(e);
    let p = pow2(e) as int;
    assert(0 <= m * p && (m + 1) * p == m * p + p) by (nonlinear_arith)
        requires
            0 <= m,
            0 < p,
    ;
}

proof fn lemma_magnitude_order(a: int, b: int)
    requires
        0 <= a < b,
    ensures
        0 <= magnitude(a) < magnitude(b),
    decreases b - a,
{
    lemma_magnitude_step(a);
    if a + 1 < b {
        lemma_magnitude_order(a + 1, b);
    }
}

/// The codes are in the order of the numbers.
pub proof fn lemma_value_order(a: int, b: int)
    requires
        a < b,
    ensures
        value(a) < value(b),
{
    assert(magnitude(0) == 0);
    if a >= 0 {
        lemma_magnitude_order(a, b);
    } else if b <= 0 {
        lemma_magnitude_order(-b, -a);
    } else {
        lemma_magnitude_order(0, -a);
        lemma_magnitude_order(0, b);
    }
}

proof fn lemma_value_orders(a: int, b: int)
    ensures
        a < b <==> value(a) < value(b),
        a == b <==> value(a) == value(b),
{
    if a < b {
        lemma_value_order(a, b);
    } else if b < a {
        lemma_value_order(b, a);
    }
}

// ---------------------------------------------------------------------------
// Rounding
// ---------------------------------------------------------------------------

/// Of the two codes that a number lies between, the nearer one is nearest.
proof fn lemma_nearest_between(low: int, number: int, code: int)
    requires
        is_code(low),
        is_code(low + 1),
        value(low) <= number <= value(low + 1),
        code == low || code == low + 1,
        code == low ==> number - value(low) < value(low + 1) - number || (number - value(low)
            == value(low + 1) - number && low % 2 == 0),
        code == low + 1 ==> value(low + 1) - number < number - value(low) || (number - value(low)
            == value(low + 1) - number && (low + 1) % 2 == 0),
    ensures
        is_nearest(code, number),
{
    assert forall|other: int| #[trigger] is_code(other) && other != code implies distance(
        value(code),
        number,
    ) < distance(value(other), number) || (distance(value(code), number) == distance(
        value(other),
        number,
    ) && code % 2 == 0) by {
        lemma_value_orders(other, low);
        lemma_value_orders(other, low + 1);
    }
}

proof fn lemma_nearest_exact(code: int)
    requires
        is_code(code),
    ensures
        is_nearest(code, value(code)),
{
    assert forall|other: int| #[trigger] is_code(other) && other != code implies distance(
        value(code),
        value(code),
    ) < distance(value(other), value(code)) by {
        lemma_value_orders(other, code);
    }
}

proof fn lemma_nearest_above(number: int)
    requires
        number >= value(INFINITE as int),
    ensures
        is_nearest(INFINITE as int, number),
{
    let code = INFINITE as int;
    assert forall|other: int| #[trigger] is_code(other) && other != code implies distance(
        value(code),
        number,
    ) < distance(value(other), number) by {
        lemma_value_orders(other, code);
    }
}

proof fn lemma_nearest_opposite(code: int, number: int)
    requires
        is_nearest(code, number),
    ensures
        is_nearest(-code, -number),
{
    assert(magnitude(0) == 0);
    assert forall|other: int| #[trigger] is_code(other) && other != -code implies distance(
        value(-code),
        -number,
    ) < distance(value(other), -number) || (distance(value(-code), -number) == distance(
        value(other),
        -number,
    ) && (-code) % 2 == 0) by {
        assert(is_code(-other));
    }
}

/// A number is rounded to one code.
proof fn lemma_nearest_unique(a: int, b: int, number: int)
    requires
        is_nearest(a, number),
        is_nearest(b, number),
    ensures
        a == b,
{
    if a != b {
        let low = if a < b {
            a
        } else {
            b
        };
        let high = if a < b {
            b
        } else {
            a
        };
        assert(low + 2 <= high);
        assert(is_code(low + 1));
        lemma_value_order(low, low + 1);
        lemma_value_order(low + 1, high);
    }
}

proof fn lemma_nearest_is(code: int, number: int)
    requires
        is_nearest(code, number),
    ensures
        nearest(number) == code,
{
    lemma_nearest_unique(nearest(number), code, number);
}

proof fn lemma_power_parts(n: int, p: int, q: int, rem: int, e: nat, r: nat)
    requires
        n == q * p + rem,
        p == pow2(r),
    ensures
        n * pow2(e) == q * pow2(e + r) + rem * pow2(e),
        (q + 1) * pow2(e + r) - n * pow2(e) == (p - rem) * pow2(e),
{
    lemma_pow2_adds(e, r);
    let w = pow2(e) as int;
    assert(pow2(e + r) == w * p);
    assert((q * p + rem) * w == q * (w * p) + rem * w) by (nonlinear_arith);
    assert((q + 1) * (w * p) - (q * (w * p) + rem * w) == (p - rem) * w) by (nonlinear_arith);
}

/// The power of two.
fn power(r: u64) -> (p: u128)
    requires
        r <= 64,
    ensures
        p == pow2(r as nat),
        p <= 0x1_0000_0000_0000_0000,
{
    let mut p: u128 = 1;
    let mut i: u64 = 0;
    proof {
        vstd::arithmetic::power2::lemma2_to64();
    }
    while i < r
        invariant
            i <= r <= 64,
            p == pow2(i as nat),
            p <= 0x1_0000_0000_0000_0000,
        decreases r - i,
    {
        proof {
            vstd::arithmetic::power2::lemma2_to64();
            vstd::arithmetic::power2::lemma2_to64_rest();
            lemma_pow2_unfold((i + 1) as nat);
            if i + 1 < 64 {
                vstd::arithmetic::power2::lemma_pow2_strictly_increases((i + 1) as nat, 64);
            }
        }
        p = p * 2;
        i = i + 1;
    }
    p
}

/// The code of a number that has no more digits than a number of the format.
fn exact(n: u64, e: u64) -> (r: i64)
    requires
        n < 2 * BINADE,
        e <= 2100,
    ensures
        r >= 0,
        is_nearest(r as int, n * pow2(e as nat)),
{
    let mut m: u64 = n;
    let mut exponent: u64 = e;
    while m < BINADE && exponent > 0
        invariant
            m < 2 * BINADE,
            exponent <= e <= 2100,
            m * pow2(exponent as nat) == n * pow2(e as nat),
        decreases exponent,
    {
        proof {
            lemma_pow2_unfold(exponent as nat);
            let half = pow2((exponent - 1) as nat) as int;
            assert((2 * m) * half == m * (2 * half)) by (nonlinear_arith);
        }
        m = m * 2;
        exponent = exponent - 1;
    }
    let code: u64 = exponent * BINADE + m;
    let ghost number = n * pow2(e as nat);
    proof {
        lemma_magnitude(code as int, m as int, exponent as nat);
        assert(magnitude(code as int) == number);
    }
    if code >= INFINITE as u64 {
        proof {
            if code > INFINITE as u64 {
                lemma_magnitude_order(INFINITE as int, code as int);
            }
            lemma_nearest_above(number);
        }
        INFINITE
    } else {
        proof {
            lemma_nearest_exact(code as int);
        }
        code as i64
    }
}

proof fn lemma_rounds(low: int, q: int, n: int, p: int, rem: int, e: nat, r: nat)
    requires
        stands_for(low, q, e + r),
        q < 2 * BINADE,
        n == q * p + rem,
        p == pow2(r),
        0 <= rem < p,
    ensures
        value(low) <= n * pow2(e) <= value(low + 1),
        low < INFINITE && (2 * rem > p || (2 * rem == p && q % 2 == 1)) ==> is_nearest(
            low + 1,
            n * pow2(e),
        ),
        low < INFINITE && !(2 * rem > p || (2 * rem == p && q % 2 == 1)) ==> is_nearest(
            low,
            n * pow2(e),
        ),
{
    lemma_magnitude(low, q, e + r);
    lemma_magnitude(low + 1, q + 1, e + r);
    lemma_power_parts(n, p, q, rem, e, r);
    lemma_pow2_pos(e);
    let w = pow2(e) as int;
    let below = rem * w;
    let above = (p - rem) * w;
    assert(0 <= below && 0 <= above) by (nonlinear_arith)
        requires
            below == rem * w,
            above == (p - rem) * w,
            0 <= rem < p,
            0 < w,
    ;
    assert(2 * rem < p ==> below < above) by (nonlinear_arith)
        requires
            below == rem * w,
            above == (p - rem) * w,
            0 < w,
    ;
    assert(2 * rem > p ==> below > above) by (nonlinear_arith)
        requires
            below == rem * w,
            above == (p - rem) * w,
            0 < w,
    ;
    assert(2 * rem == p ==> below == above) by (nonlinear_arith)
        requires
            below == rem * w,
            above == (p - rem) * w,
    ;
    assert(low % 2 == q % 2);
    if low < INFINITE {
        let code = if 2 * rem > p || (2 * rem == p && q % 2 == 1) {
            low + 1
        } else {
            low
        };
        lemma_nearest_between(low, n * pow2(e), code);
    }
}

/// A number by its digits and its exponent, rounded.
fn rounded(n: u128, e: u64) -> (r: i64)
    requires
        n < 0x100_0000_0000_0000_0000_0000_0000_0000,
        e <= 2046,
    ensures
        r >= 0,
        is_nearest(r as int, n * pow2(e as nat)),
{
    let mut p: u128 = 1;
    let mut shift: u64 = 0;
    proof {
        vstd::arithmetic::power2::lemma2_to64();
    }
    while n / p >= 2 * BINADE as u128
        invariant
            n < 0x100_0000_0000_0000_0000_0000_0000_0000,
            shift <= 80,
            0 < p,
            p < 0x1_0000_0000_0000_0000_0000,
            p == pow2(shift as nat),
            shift > 0 ==> n >= BINADE * p,
        decreases n / p,
    {
        proof {
            lemma_pow2_unfold((shift + 1) as nat);
            if shift == 80 {
                vstd::arithmetic::power2::lemma2_to64();
                vstd::arithmetic::power2::lemma2_to64_rest();
                lemma_pow2_adds(64, 16);
            }
            let q = (n / p) as int;
            assert(n >= q * p) by (nonlinear_arith)
                requires
                    q == n as int / p as int,
                    p > 0,
            ;
            assert(n >= 2 * BINADE * p) by (nonlinear_arith)
                requires
                    n >= q * p,
                    q >= 2 * BINADE,
                    p > 0,
            ;
            assert(n as int / (2 * p) < n as int / p as int) by (nonlinear_arith)
                requires
                    n >= 2 * BINADE * p,
                    p > 0,
            ;
        }
        p = p * 2;
        shift = shift + 1;
    }
    let q: u128 = n / p;
    let rem: u128 = n % p;
    proof {
        assert(n == q * p + rem && 0 <= rem < p) by (nonlinear_arith)
            requires
                q == n as int / p as int,
                rem == n as int % p as int,
                p > 0,
        ;
    }
    if shift == 0 {
        return exact(q as u64, e);
    }
    proof {
        assert(q >= BINADE) by (nonlinear_arith)
            requires
                n == q * p + rem,
                0 <= rem < p,
                n >= BINADE * p,
        ;
    }
    let low: u64 = (e + shift) * BINADE + q as u64;
    proof {
        lemma_rounds(
            low as int,
            q as int,
            n as int,
            p as int,
            rem as int,
            e as nat,
            shift as nat,
        );
    }
    if low >= INFINITE as u64 {
        proof {
            if low > INFINITE as u64 {
                lemma_magnitude_order(INFINITE as int, low as int);
            }
            lemma_nearest_above(n * pow2(e as nat));
        }
        INFINITE
    } else if 2 * rem > p || (2 * rem == p && q % 2 == 1) {
        (low + 1) as i64
    } else {
        low as i64
    }
}

// ---------------------------------------------------------------------------
// Sums
// ---------------------------------------------------------------------------

fn decoded(code: u64) -> (r: (u64, u64))
    ensures
        stands_for(code as int, r.0 as int, r.1 as nat),
        r.0 < 2 * BINADE,
        r.1 == if code as int / BINADE as int == 0 {
            0
        } else {
            code as int / BINADE as int - 1
        },
{
    let e: u64 = code / BINADE;
    if e == 0 {
        (code, 0)
    } else {
        (code % BINADE + BINADE, e - 1)
    }
}

/// A number that is far smaller does not change the other one.
proof fn lemma_far(x: int, y: int, m: int, e: nat, n: int, f: nat, minus: bool)
    requires
        stands_for(x, m, e),
        m < 2 * BINADE,
        stands_for(y, n, f),
        n < 2 * BINADE,
        e > f + 64,
        0 < x < INFINITE,
    ensures
        minus ==> is_nearest(x, magnitude(x) - magnitude(y)),
        !minus ==> is_nearest(x, magnitude(x) + magnitude(y)),
{
    let b = BINADE as int;
    lemma_magnitude(x, m, e);
    lemma_magnitude(y, n, f);
    lemma_magnitude(x + 1, m + 1, e);
    let half = pow2((e - 1) as nat) as int;
    lemma_pow2_unfold(e);
    lemma_pow2_pos((e - 1) as nat);
    lemma_pow2_pos(f);
    let small = magnitude(y);
    let w = pow2(f) as int;
    let d = (e - 1 - f) as nat;
    lemma_pow2_adds(f, d);
    vstd::arithmetic::power2::lemma2_to64();
    vstd::arithmetic::power2::lemma2_to64_rest();
    if d > 64 {
        vstd::arithmetic::power2::lemma_pow2_strictly_increases(64, d);
    }
    let p = pow2(d) as int;
    assert(half == w * p);
    assert(p >= 0x1_0000_0000_0000_0000);
    assert(0 <= small && 2 * small < half) by (nonlinear_arith)
        requires
            small == n * w,
            half == w * p,
            0 <= n < 2 * b,
            b == 0x10_0000_0000_0000,
            p >= 0x1_0000_0000_0000_0000,
            w > 0,
    ;
    let unit = pow2(e) as int;
    assert(unit == 2 * half);
    assert((m + 1) * unit == m * unit + unit) by (nonlinear_arith);
    if !minus {
        lemma_nearest_between(x, magnitude(x) + small, x);
    } else {
        if m > b {
            lemma_magnitude(x - 1, m - 1, e);
            assert((m - 1) * unit == m * unit - unit) by (nonlinear_arith);
        } else {
            lemma_magnitude(x - 1, 2 * b - 1, (e - 1) as nat);
            assert((2 * b - 1) * half == b * (2 * half) - half) by (nonlinear_arith);
        }
        assert(magnitude(x) - magnitude(x - 1) >= half);
        lemma_nearest_between(x - 1, magnitude(x) - small, x);
    }
}

proof fn lemma_aligned(m: int, e: nat, n: int, f: nat, p: int)
    requires
        f <= e,
        p == pow2((e - f) as nat),
    ensures
        m * pow2(e) == (m * p) * pow2(f),
        (m * p + n) * pow2(f) == m * pow2(e) + n * pow2(f),
        (m * p - n) * pow2(f) == m * pow2(e) - n * pow2(f),
{
    lemma_pow2_adds(f, (e - f) as nat);
    let w = pow2(f) as int;
    assert(pow2(e) == w * p);
    assert(m * (w * p) == (m * p) * w) by (nonlinear_arith);
    assert((m * p + n) * w == (m * p) * w + n * w) by (nonlinear_arith);
    assert((m * p - n) * w == (m * p) * w - n * w) by (nonlinear_arith);
}

/// The sum or the difference of two numbers that are not below zero, rounded.
fn combined(x: u64, y: u64, minus: bool) -> (r: i64)
    requires
        y <= x < INFINITE,
    ensures
        r >= 0,
        minus ==> is_nearest(r as int, magnitude(x as int) - magnitude(y as int)),
        !minus ==> is_nearest(r as int, magnitude(x as int) + magnitude(y as int)),
{
    let (m, e) = decoded(x);
    let (n, f) = decoded(y);
    assert(f <= e);
    if e - f > 64 {
        proof {
            lemma_far(x as int, y as int, m as int, e as nat, n as int, f as nat, minus);
        }
        return x as i64;
    }
    let p: u128 = power(e - f);
    proof {
        lemma_magnitude(x as int, m as int, e as nat);
        lemma_magnitude(y as int, n as int, f as nat);
        lemma_aligned(m as int, e as nat, n as int, f as nat, p as int);
        assert(m * p <= 0x20_0000_0000_0000 * 0x1_0000_0000_0000_0000) by (nonlinear_arith)
            requires
                0 <= m <= 0x20_0000_0000_0000,
                0 <= p <= 0x1_0000_0000_0000_0000,
        ;
        assert(0 <= m * p) by (nonlinear_arith)
            requires
                0 <= m,
                0 <= p,
        ;
        assert(magnitude(y as int) <= magnitude(x as int)) by {
            if y < x {
                lemma_magnitude_order(y as int, x as int);
            }
        }
        lemma_pow2_pos(f as nat);
        let w = pow2(f as nat) as int;
        let a = m * p;
        assert(n <= a) by (nonlinear_arith)
            requires
                n * w <= a * w,
                w > 0,
        ;
    }
    let a: u128 = m as u128 * p;
    if minus {
        rounded(a - n as u128, f)
    } else {
        rounded(a + n as u128, f)
    }
}

/// The sum of two scores.
pub fn add_scores(a: i64, b: i64) -> (r: i64)
    ensures
        r == plus(a as int, b as int),
{
    if a > INFINITE || a < -INFINITE || b > INFINITE || b < -INFINITE {
        return NOT_A_NUMBER;
    }
    if a == INFINITE || a == -INFINITE {
        return if b == -a {
            NOT_A_NUMBER
        } else {
            a
        };
    }
    if b == INFINITE || b == -INFINITE {
        return b;
    }
    let x: u64 = if a >= 0 {
        a as u64
    } else {
        (-a) as u64
    };
    let y: u64 = if b >= 0 {
        b as u64
    } else {
        (-b) as u64
    };
    let ghost number = value(a as int) + value(b as int);
    let minus = (a >= 0) != (b >= 0);
    let (sum, below) = if x >= y {
        (combined(x, y, minus), a < 0)
    } else {
        (combined(y, x, minus), b < 0)
    };
    if below {
        proof {
            lemma_nearest_opposite(sum as int, -number);
            lemma_nearest_is(-sum as int, number);
        }
        -sum
    } else {
        proof {
            lemma_nearest_is(sum as int, number);
        }
        sum
    }
}

/// The difference of two scores.
pub fn subtract_scores(a: i64, b: i64) -> (r: i64)
    ensures
        r == plus(a as int, opposite(b as int)),
{
    if b > INFINITE || b < -INFINITE {
        NOT_A_NUMBER
    } else {
        add_scores(a, -b)
    }
}

/// The greater of two scores; the other one, where one of them is no number.
pub fn greater_score(a: i64, b: i64) -> (r: i64)
    ensures
        r == greater(a as int, b as int),
{
    if a > INFINITE || a < -INFINITE {
        b
    } else if b > INFINITE || b < -INFINITE || a >= b {
        a
    } else {
        b
    }
}

// ---------------------------------------------------------------------------
// Laws
// ---------------------------------------------------------------------------

proof fn lemma_floor(number: int, from: int) -> (low: int)
    requires
        is_code(from),
        value(from) <= number < value(INFINITE as int),
    ensures
        from <= low < INFINITE,
        value(low) <= number < value(low + 1),
    decreases INFINITE - from,
{
    lemma_value_orders(from, INFINITE as int);
    if number < value(from + 1) {
        from
    } else {
        lemma_floor(number, from + 1)
    }
}

/// Every number is rounded to a code.
pub proof fn lemma_nearest(number: int)
    ensures
        is_nearest(nearest(number), number),
{
    let top = INFINITE as int;
    assert(magnitude(0) == 0);
    lemma_value_order(0, top);
    if number >= value(top) {
        lemma_nearest_above(number);
    } else if number <= -value(top) {
        lemma_nearest_above(-number);
        lemma_nearest_opposite(top, -number);
    } else {
        let low = lemma_floor(number, -top);
        let down = number - value(low);
        let up = value(low + 1) - number;
        let code = if down < up || (down == up && low % 2 == 0) {
            low
        } else {
            low + 1
        };
        lemma_nearest_between(low, number, code);
    }
}

/// A number of the format is rounded to itself, so that zero adds nothing.
pub proof fn lemma_zero_adds_nothing(a: int)
    requires
        is_code(a),
    ensures
        plus(a, 0) == a,
{
    if !infinite(a) {
        lemma_nearest_exact(a);
        lemma_nearest_is(a, value(a));
        assert(value(a) + value(0) == value(a));
    }
}

/// What is not below zero never lowers a score that it is added to.
pub proof fn lemma_sum_is_at_least(a: int, b: int)
    requires
        is_code(a),
        b >= 0,
    ensures
        plus(a, b) >= a,
{
    if is_code(b) && !infinite(a) && !infinite(b) {
        let number = value(a) + value(b);
        let sum = nearest(number);
        lemma_nearest(number);
        assert(magnitude(0) == 0);
        if b > 0 {
            lemma_value_order(0, b);
        }
        if sum < a {
            lemma_value_order(sum, a);
            assert(is_code(a));
        }
    }
}

}
