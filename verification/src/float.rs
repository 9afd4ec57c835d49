//! Double-precision numbers, held as their IEEE 754 bits.
//!
//! The library never computes with doubles. It carries their bits, orders
//! them, and turns integers into them.

use vstd::prelude::*;

verus! {

/// The bits of positive infinity: those above, sign aside, are not numbers.
pub const INFINITY_BITS: u64 = 0x7ff0_0000_0000_0000;

/// The weight of the sign bit.
pub const SIGN_BIT: u64 = 0x8000_0000_0000_0000;

/// One more than the largest fraction.
pub const FRACTION_END: u64 = 0x10_0000_0000_0000;

/// The bits without the sign.
pub open spec fn magnitude(bits: u64) -> int {
    if bits < SIGN_BIT {
        bits as int
    } else {
        bits - SIGN_BIT
    }
}

pub open spec fn is_nan(bits: u64) -> bool {
    magnitude(bits) > INFINITY_BITS
}

/// A number that orders doubles as their values do: sign and magnitude of the
/// bits. Both zeros have the same.
pub open spec fn rank(bits: u64) -> int {
    if bits < SIGN_BIT {
        magnitude(bits)
    } else {
        -magnitude(bits)
    }
}

/// `a < b` on doubles: false where either is not a number.
pub open spec fn double_lt(a: u64, b: u64) -> bool {
    !is_nan(a) && !is_nan(b) && rank(a) < rank(b)
}

/// `a <= b` on doubles: false where either is not a number.
pub open spec fn double_le(a: u64, b: u64) -> bool {
    !is_nan(a) && !is_nan(b) && rank(a) <= rank(b)
}

fn rank_of(bits: u64) -> (r: i64)
    ensures
        r == rank(bits),
{
    if bits < SIGN_BIT {
        bits as i64
    } else {
        -((bits - SIGN_BIT) as i64)
    }
}

fn not_a_number(bits: u64) -> (r: bool)
    ensures
        r == is_nan(bits),
{
    if bits < SIGN_BIT {
        bits > INFINITY_BITS
    } else {
        bits - SIGN_BIT > INFINITY_BITS
    }
}

/// Whether the double `a` is below `b`.
pub fn lt(a: u64, b: u64) -> (r: bool)
    ensures
        r == double_lt(a, b),
{
    !not_a_number(a) && !not_a_number(b) && rank_of(a) < rank_of(b)
}

/// Whether the double `a` is at most `b`.
pub fn le(a: u64, b: u64) -> (r: bool)
    ensures
        r == double_le(a, b),
{
    !not_a_number(a) && !not_a_number(b) && rank_of(a) <= rank_of(b)
}

// ---------------------------------------------------------------------------
// Integers as doubles
// ---------------------------------------------------------------------------

pub open spec fn pow2(n: nat) -> nat
    decreases n,
{
    if n == 0 {
        1
    } else {
        2 * pow2((n - 1) as nat)
    }
}

/// The exponent of the largest power of two that is at most `m`.
pub open spec fn floor_log2(m: nat) -> nat
    decreases m,
{
    if m <= 1 {
        0
    } else {
        1 + floor_log2(m / 2)
    }
}

/// The quotient `n / d` rounded to the nearest whole number, a tie to the even
/// one.
pub open spec fn round_half_even(n: nat, d: nat) -> nat {
    let q = n / d;
    let r = n % d;
    if 2 * r > d || (2 * r == d && q % 2 == 1) {
        q + 1
    } else {
        q
    }
}

/// The 53 leading binary digits of `m`, rounded.
pub open spec fn significand(m: nat) -> nat {
    let e = floor_log2(m);
    if e <= 52 {
        m * pow2((52 - e) as nat)
    } else {
        round_half_even(m, pow2((e - 52) as nat))
    }
}

/// The bits of the double nearest to the natural number `m`.
pub open spec fn nat_double(m: nat) -> int {
    if m == 0 {
        0
    } else {
        (floor_log2(m) + 1022) * FRACTION_END + significand(m)
    }
}

/// The bits of the double nearest to the integer `i`.
pub open spec fn int_double(i: int) -> int {
    if i < 0 {
        nat_double((-i) as nat) + SIGN_BIT
    } else {
        nat_double(i as nat)
    }
}

/// A positive number lies between a power of two and the next.
pub proof fn lemma_floor_log2(m: nat)
    requires
        m > 0,
    ensures
        pow2(floor_log2(m)) <= m < pow2(floor_log2(m) + 1),
    decreases m,
{
    reveal_with_fuel(pow2, 2);
    if m > 1 {
        lemma_floor_log2(m / 2);
    }
}

proof fn lemma_pow2_positive(n: nat)
    ensures
        pow2(n) > 0,
    decreases n,
{
    if n > 0 {
        lemma_pow2_positive((n - 1) as nat);
    }
}

fn log2(m: u64) -> (e: u64)
    requires
        m > 0,
    ensures
        e == floor_log2(m as nat),
        e <= 63,
{
    let mut e: u64 = 0;
    let mut t: u64 = m;
    let ghost mut bound: nat = 0x1_0000_0000_0000_0000;
    proof {
        reveal_with_fuel(pow2, 65);
    }
    while t > 1
        invariant
            t >= 1,
            floor_log2(m as nat) == e + floor_log2(t as nat),
            e <= 63,
            t < bound,
            bound == pow2((64 - e) as nat),
        decreases t,
    {
        proof {
            assert(pow2((64 - e) as nat) == 2 * pow2((64 - e - 1) as nat));
            if e == 63 {
                reveal_with_fuel(pow2, 3);
                assert(pow2(1) == 2);
            }
        }
        t = t / 2;
        e += 1;
        proof {
            bound = bound / 2;
        }
    }
    e
}

/// `m * 2^n`, where that is below 2^53.
fn shift_up(m: u64, n: u64) -> (s: u64)
    requires
        m * pow2(n as nat) < 0x20_0000_0000_0000,
    ensures
        s == m * pow2(n as nat),
    decreases n,
{
    if n == 0 {
        assert(m * 1 == m);
        m
    } else {
        proof {
            lemma_pow2_positive((n - 1) as nat);
            let p = pow2((n - 1) as nat);
            assert(m * (2 * p) == (2 * m) * p) by (nonlinear_arith);
            assert(2 * m <= (2 * m) * p) by (nonlinear_arith)
                requires
                    p > 0,
            ;
        }
        shift_up(2 * m, n - 1)
    }
}

fn power(n: u64) -> (p: u64)
    requires
        n <= 11,
    ensures
        p == pow2(n as nat),
        0 < p <= 2048,
    decreases n,
{
    if n == 0 {
        1
    } else {
        proof {
            reveal_with_fuel(pow2, 12);
        }
        2 * power(n - 1)
    }
}

/// The bits of the double nearest to the natural number `m`.
pub fn nat_double_bits(m: u64) -> (bits: u64)
    ensures
        bits == nat_double(m as nat),
        bits < SIGN_BIT,
{
    if m == 0 {
        return 0;
    }
    let e: u64 = log2(m);
    let s: u64;
    proof {
        lemma_floor_log2(m as nat);
    }
    if e <= 52 {
        proof {
            lemma_scale(m as nat, e as nat);
        }
        s = shift_up(m, 52 - e);
    } else {
        let d: u64 = power(e - 52);
        let q: u64 = m / d;
        let r: u64 = m % d;
        proof {
            lemma_split(m as nat, e as nat);
        }
        s = if 2 * r > d || (2 * r == d && q % 2 == 1) {
            q + 1
        } else {
            q
        };
    }
    (e + 1022) * FRACTION_END + s
}

/// Scaling a number of `e + 1` binary digits to 53 digits keeps it below 2^53.
proof fn lemma_scale(m: nat, e: nat)
    requires
        e <= 52,
        m < pow2(e + 1),
    ensures
        m * pow2((52 - e) as nat) < 0x20_0000_0000_0000,
    decreases 52 - e,
{
    if e == 52 {
        reveal_with_fuel(pow2, 54);
        assert(m * 1 == m);
    } else {
        let p = pow2((52 - e - 1) as nat);
        assert(pow2((52 - e) as nat) == 2 * p);
        assert(pow2(e + 2) == 2 * pow2(e + 1));
        lemma_scale(2 * m, e + 1);
        assert(m * (2 * p) == (2 * m) * p) by (nonlinear_arith);
    }
}

/// Dividing a number of `e + 1` binary digits down to 53 digits leaves less
/// than 2^53.
proof fn lemma_split(m: nat, e: nat)
    requires
        52 <= e <= 63,
        m < pow2(e + 1),
    ensures
        m / pow2((e - 52) as nat) < 0x20_0000_0000_0000,
    decreases e,
{
    if e == 52 {
        reveal_with_fuel(pow2, 54);
    } else {
        let p = pow2((e - 53) as nat);
        lemma_pow2_positive((e - 53) as nat);
        assert(pow2((e - 52) as nat) == 2 * p);
        assert(pow2(e + 1) == 2 * pow2(e));
        lemma_split(m / 2, (e - 1) as nat);
        assert(m / (2 * p) == (m / 2) / p) by (nonlinear_arith)
            requires
                p > 0,
        ;
    }
}

/// The bits of the double nearest to `i`.
pub fn int_double_bits(i: i64) -> (bits: u64)
    ensures
        bits == int_double(i as int),
{
    if i >= 0 {
        nat_double_bits(i as u64)
    } else {
        let m: u64 = if i == i64::MIN {
            0x8000_0000_0000_0000
        } else {
            (-i) as u64
        };
        nat_double_bits(m) + SIGN_BIT
    }
}

/// The whole number that the double nearest to `m` stands for.
pub open spec fn nearest(m: nat) -> nat {
    let e = floor_log2(m);
    if e <= 52 {
        m
    } else {
        significand(m) * pow2((e - 52) as nat)
    }
}

proof fn lemma_two_powers()
    ensures
        pow2(52) == FRACTION_END,
        pow2(63) == SIGN_BIT,
{
    lemma_product(52);
    lemma_product(62);
    reveal_with_fuel(pow2, 11);
    assert(pow2(0) == 1 && pow2(10) == 1024);
}

/// Where the leading binary digit of a number below 2^63 stands.
proof fn lemma_leading_digit(m: nat)
    requires
        0 < m < SIGN_BIT,
    ensures
        floor_log2(m) < 63,
        m < FRACTION_END ==> floor_log2(m) < 52,
        m >= FRACTION_END ==> floor_log2(m) >= 52,
{
    let e = floor_log2(m);
    lemma_floor_log2(m);
    lemma_two_powers();
    if e >= 63 {
        lemma_pow2_grows(63, e);
    }
    if e >= 52 {
        lemma_pow2_grows(52, e);
    } else {
        lemma_pow2_grows(e + 1, 52);
    }
}

/// A number of at most 52 binary digits is a double.
pub proof fn lemma_small_is_exact(m: nat)
    requires
        m < FRACTION_END,
    ensures
        nearest(m) == m,
{
    if m > 0 {
        lemma_leading_digit(m);
    }
}

/// What rounding to 53 binary digits leaves lies between powers of two.
proof fn lemma_rounded(m: nat, e: nat, q: nat, s: nat)
    requires
        52 < e < 63,
        pow2(e) <= m < pow2(e + 1),
        q == m / pow2((e - 52) as nat),
        q <= s <= q + 1,
    ensures
        FRACTION_END <= s * pow2((e - 52) as nat) <= SIGN_BIT,
{
    let d = pow2((e - 52) as nat);
    lemma_pow2_positive((e - 52) as nat);
    lemma_split(m, e);
    lemma_product(e);
    lemma_pow2_grows(e + 1, 63);
    lemma_two_powers();
    assert(s * d <= 0x20_0000_0000_0000 * d) by (nonlinear_arith)
        requires
            s <= 0x20_0000_0000_0000,
    ;
    assert(q >= 0x10_0000_0000_0000) by (nonlinear_arith)
        requires
            m >= 0x10_0000_0000_0000 * d,
            q == m / d,
            d > 0,
    ;
    assert(s * d >= 0x10_0000_0000_0000) by (nonlinear_arith)
        requires
            s >= 0x10_0000_0000_0000,
            d > 0,
    ;
}

/// The whole number that the double nearest to `m` stands for.
pub fn nearest_double(m: u64) -> (n: u64)
    requires
        m < SIGN_BIT,
    ensures
        n == nearest(m as nat),
        n <= SIGN_BIT,
        m < FRACTION_END ==> n == m,
        m >= FRACTION_END ==> n >= FRACTION_END,
{
    if m == 0 {
        return 0;
    }
    proof {
        lemma_leading_digit(m as nat);
        lemma_floor_log2(m as nat);
    }
    let e: u64 = log2(m);
    if e <= 52 {
        return m;
    }
    let d: u64 = power(e - 52);
    let q: u64 = m / d;
    let r: u64 = m % d;
    proof {
        lemma_split(m as nat, e as nat);
    }
    let s: u64 = if 2 * r > d || (2 * r == d && q % 2 == 1) {
        q + 1
    } else {
        q
    };
    proof {
        lemma_rounded(m as nat, e as nat, q as nat, s as nat);
    }
    s * d
}

proof fn lemma_pow2_grows(a: nat, b: nat)
    requires
        a <= b,
    ensures
        pow2(a) <= pow2(b),
    decreases b,
{
    if a < b {
        lemma_pow2_grows(a, (b - 1) as nat);
        lemma_pow2_positive((b - 1) as nat);
    }
}

/// A power of two parts into 53 binary digits and the rest.
proof fn lemma_product(e: nat)
    requires
        52 <= e,
    ensures
        0x10_0000_0000_0000 * pow2((e - 52) as nat) == pow2(e),
        0x20_0000_0000_0000 * pow2((e - 52) as nat) == pow2(e + 1),
    decreases e,
{
    if e == 52 {
        reveal_with_fuel(pow2, 54);
    } else {
        lemma_product((e - 1) as nat);
    }
}

/// Every 64-bit integer has a double nearest to it: the bits fit.
pub proof fn law_integers_have_bits(i: int)
    requires
        i64::MIN <= i <= u64::MAX,
    ensures
        0 <= int_double(i) <= u64::MAX,
{
    let m = if i < 0 {
        (-i) as nat
    } else {
        i as nat
    };
    lemma_bits_fit(m);
}

proof fn lemma_round_up(n: nat, d: nat, most: nat)
    requires
        d > 0,
        n / d < most,
    ensures
        round_half_even(n, d) <= most,
{
}

proof fn lemma_bits_fit(m: nat)
    requires
        m <= u64::MAX,
    ensures
        nat_double(m) < SIGN_BIT,
{
    if m > 0 {
        let e = floor_log2(m);
        lemma_floor_log2(m);
        lemma_two_powers();
        if e >= 64 {
            lemma_pow2_grows(64, e);
            assert(pow2(64) == 2 * pow2(63));
        }
        assert(e <= 63);
        if e <= 52 {
            lemma_scale(m, e);
        } else {
            lemma_split(m, e);
            lemma_pow2_positive((e - 52) as nat);
            lemma_round_up(m, pow2((e - 52) as nat), 0x20_0000_0000_0000);
        }
        assert(nat_double(m) == (e + 1022) * 0x10_0000_0000_0000 + significand(m));
    }
}

/// The scaled digits of a number below 2^53 fill the 53 places.
proof fn lemma_scaled(m: nat)
    requires
        0 < m < 2 * FRACTION_END,
    ensures
        floor_log2(m) <= 52,
        FRACTION_END <= significand(m) < 2 * FRACTION_END,
        significand(m) == m * pow2((52 - floor_log2(m)) as nat),
{
    let e = floor_log2(m);
    lemma_floor_log2(m);
    lemma_two_powers();
    if e >= 53 {
        lemma_pow2_grows(53, e);
        assert(pow2(53) == 2 * pow2(52));
    }
    lemma_scale(m, e);
    lemma_powers_multiply(e, (52 - e) as nat);
    let p = pow2((52 - e) as nat);
    assert(m * p >= pow2(e) * p) by (nonlinear_arith)
        requires
            m >= pow2(e),
    ;
}

proof fn lemma_powers_multiply(a: nat, b: nat)
    ensures
        pow2(a) * pow2(b) == pow2(a + b),
    decreases b,
{
    if b == 0 {
        assert(pow2(a) * 1 == pow2(a));
    } else {
        let p = pow2((b - 1) as nat);
        lemma_powers_multiply(a, (b - 1) as nat);
        assert(pow2(a) * (2 * p) == 2 * (pow2(a) * p)) by (nonlinear_arith);
    }
}

/// The double of a positive integer below 2^53 stands for that integer: its
/// fraction, with the leading digit in front, is the integer moved by as many
/// binary places as the exponent says.
pub proof fn law_small_integers_are_exact(m: nat)
    requires
        0 < m < 2 * FRACTION_END,
    ensures
        ({
            let exponent = nat_double(m) / FRACTION_END as int - 1023;
            let fraction = nat_double(m) % FRACTION_END as int;
            0 <= exponent <= 52 && FRACTION_END + fraction == m * pow2((52 - exponent) as nat)
        }),
{
    lemma_scaled(m);
    let e = floor_log2(m);
    let s = significand(m);
    let bits = nat_double(m);
    assert(bits == (e + 1023) * 0x10_0000_0000_0000 + (s - 0x10_0000_0000_0000));
    assert(bits / 0x10_0000_0000_0000 == e + 1023 && bits % 0x10_0000_0000_0000 == s - 0x10_0000_0000_0000);
}

proof fn lemma_nat_order(a: nat, b: nat)
    requires
        a < b < 2 * FRACTION_END,
    ensures
        nat_double(a) < nat_double(b),
{
    lemma_scaled(b);
    if a > 0 {
        lemma_scaled(a);
        let (d, e) = (floor_log2(a), floor_log2(b));
        lemma_floor_log2(a);
        lemma_floor_log2(b);
        if e < d {
            lemma_pow2_grows(e + 1, d);
        }
        if d == e {
            let p = pow2((52 - e) as nat);
            lemma_pow2_positive((52 - e) as nat);
            assert(a * p < b * p) by (nonlinear_arith)
                requires
                    a < b,
                    p > 0,
            ;
        }
    }
}

/// Integers below 2^53, sign aside, are ordered as doubles as they are as
/// integers, and none of them is without a number.
pub proof fn law_doubles_keep_the_order(i: int, j: int)
    requires
        -2 * FRACTION_END < i < 2 * FRACTION_END,
        -2 * FRACTION_END < j < 2 * FRACTION_END,
    ensures
        double_lt(int_double(i) as u64, int_double(j) as u64) <==> i < j,
        double_le(int_double(i) as u64, int_double(j) as u64) <==> i <= j,
{
    lemma_small_rank(i);
    lemma_small_rank(j);
    let (a, b) = (size(i), size(j));
    if a < b {
        lemma_nat_order(a, b);
    } else if b < a {
        lemma_nat_order(b, a);
    }
    if a > 0 {
        lemma_nat_order(0, a);
    }
    if b > 0 {
        lemma_nat_order(0, b);
    }
}

spec fn size(i: int) -> nat {
    if i < 0 {
        (-i) as nat
    } else {
        i as nat
    }
}

proof fn lemma_small_rank(i: int)
    requires
        -2 * FRACTION_END < i < 2 * FRACTION_END,
    ensures
        !is_nan(int_double(i) as u64),
        rank(int_double(i) as u64) == if i < 0 {
            -nat_double(size(i))
        } else {
            nat_double(size(i))
        },
        nat_double(size(i)) >= 0,
{
    let m = size(i);
    if m > 0 {
        lemma_scaled(m);
    }
    assert(nat_double(m) < 1076 * 0x10_0000_0000_0000);
}

/// The bits of the doubles one and thousand.
pub proof fn lemma_round_numbers()
    ensures
        int_double(1) == 0x3ff0_0000_0000_0000,
        int_double(1_000) == 0x408f_4000_0000_0000,
{
    lemma_two_powers();
    assert(floor_log2(1) == 0);
    assert(1 * pow2(52) == 0x10_0000_0000_0000);
    assert(significand(1) == 0x10_0000_0000_0000);
    assert(floor_log2(1_000) == 9) by {
        reveal_with_fuel(floor_log2, 11);
    }
    lemma_powers_multiply(9, 43);
    assert(pow2(9) == 512) by {
        reveal_with_fuel(pow2, 10);
    }
    assert(pow2(43) == 0x800_0000_0000);
    assert(significand(1_000) == 1_000 * 0x800_0000_0000);
}

} // verus!
