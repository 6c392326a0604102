//! Number-theoretic functions: greatest common divisor, least common
//! multiple, Bézout coefficients, modular inverse and the Chinese remainder
//! theorem for a pair of congruences.

use vstd::prelude::*;
use vstd::arithmetic::div_mod::*;
use vstd::arithmetic::mul::*;

verus! {

/// `d` divides `n`. Zero divides only zero.
pub open spec fn divides(d: nat, n: nat) -> bool {
    if d == 0 {
        n == 0
    } else {
        n % d == 0
    }
}

/// `g` is the greatest common divisor of `a` and `b`: it divides both, and
/// every number that divides both divides `g`.
pub open spec fn is_gcd(g: nat, a: nat, b: nat) -> bool {
    &&& divides(g, a)
    &&& divides(g, b)
    &&& forall|d: nat| divides(d, a) && divides(d, b) ==> #[trigger] divides(d, g)
}

/// The greatest common divisor of `a` and `b`, with `spec_gcd(0, 0) == 0`.
pub open spec fn spec_gcd(a: nat, b: nat) -> nat
    decreases b,
{
    if b == 0 {
        a
    } else {
        spec_gcd(b, a % b)
    }
}

/// A number divides its multiples.
proof fn lemma_divides_multiple(d: nat, k: nat)
    ensures
        divides(d, d * k),
{
    if d > 0 {
        lemma_mod_multiples_basic(k as int, d as int);
        assert(d * k == k * d) by (nonlinear_arith);
    }
}

/// A multiple of a positive number is that number times the quotient.
proof fn lemma_divides_quotient(d: nat, n: nat)
    requires
        divides(d, n),
        d > 0,
    ensures
        n == d * (n / d),
{
    lemma_fundamental_div_mod(n as int, d as int);
}

/// A divisor of `x` and `y` divides `q * x + y`.
proof fn lemma_divides_sum(d: nat, q: nat, x: nat, y: nat)
    requires
        divides(d, x),
        divides(d, y),
    ensures
        divides(d, q * x + y),
{
    if d > 0 {
        lemma_divides_quotient(d, x);
        lemma_divides_quotient(d, y);
        let k = q * (x / d) + y / d;
        assert(q * x + y == d * k) by (nonlinear_arith)
            requires
                x == d * (x / d),
                y == d * (y / d),
                k == q * (x / d) + y / d,
        ;
        lemma_divides_multiple(d, k);
    } else {
        assert(q * x == 0) by (nonlinear_arith)
            requires
                x == 0,
        ;
    }
}

/// A divisor of `x` and of `q * x + y` divides `y`.
proof fn lemma_divides_difference(d: nat, q: nat, x: nat, y: nat)
    requires
        divides(d, x),
        divides(d, q * x + y),
    ensures
        divides(d, y),
{
    if d > 0 {
        lemma_divides_quotient(d, x);
        lemma_divides_quotient(d, q * x + y);
        let s = (q * x + y) / d;
        let t = x / d;
        let k = s - q * t;
        assert(y == d * k) by (nonlinear_arith)
            requires
                x == d * t,
                q * x + y == d * s,
                k == s - q * t,
        ;
        assert(k >= 0) by (nonlinear_arith)
            requires
                y == d * k,
                y >= 0,
                d > 0,
        ;
        lemma_divides_multiple(d, k as nat);
    }
}

/// `spec_gcd(a, b)` is the greatest common divisor of `a` and `b`.
pub proof fn lemma_gcd_is_gcd(a: nat, b: nat)
    ensures
        is_gcd(spec_gcd(a, b), a, b),
    decreases b,
{
    let g = spec_gcd(a, b);
    if b == 0 {
        assert(a * 1 == a && a * 0 == 0) by (nonlinear_arith);
    } else {
        let q = a / b;
        let r = a % b;
        lemma_gcd_is_gcd(b, r);
        lemma_fundamental_div_mod(a as int, b as int);
        assert(a == q * b + r) by (nonlinear_arith)
            requires
                a == b * q + r,
        ;
        lemma_divides_sum(g, q, b, r);
        assert forall|d: nat| divides(d, a) && divides(d, b) implies #[trigger] divides(d, g) by {
            lemma_divides_difference(d, q, b, r);
        }
    }
}

/// The greatest common divisor is unique.
pub proof fn lemma_gcd_unique(g: nat, a: nat, b: nat)
    requires
        is_gcd(g, a, b),
    ensures
        g == spec_gcd(a, b),
{
    let h = spec_gcd(a, b);
    lemma_gcd_is_gcd(a, b);
    assert(divides(h, g));
    if g == 0 || h == 0 {
    } else {
        lemma_divides_quotient(g, h);
        lemma_divides_quotient(h, g);
        let s = h / g;
        let t = g / h;
        assert(g == h) by (nonlinear_arith)
            requires
                h == g * s,
                g == h * t,
                g > 0,
                h > 0,
                s >= 0,
                t >= 0,
        ;
    }
}

/// The greatest common divisor does not depend on the order of its arguments.
pub proof fn lemma_gcd_symmetric(a: nat, b: nat)
    ensures
        spec_gcd(a, b) == spec_gcd(b, a),
{
    lemma_gcd_is_gcd(b, a);
    lemma_gcd_unique(spec_gcd(b, a), a, b);
}

/// The greatest common divisor of two positive numbers is positive and no
/// larger than either.
pub proof fn lemma_gcd_positive(a: nat, b: nat)
    requires
        a > 0 || b > 0,
    ensures
        spec_gcd(a, b) > 0,
        a > 0 ==> spec_gcd(a, b) <= a,
        b > 0 ==> spec_gcd(a, b) <= b,
{
    let g = spec_gcd(a, b);
    lemma_gcd_is_gcd(a, b);
    if g > 0 {
        lemma_divides_quotient(g, a);
        lemma_divides_quotient(g, b);
        assert(a > 0 ==> g <= a) by (nonlinear_arith)
            requires
                a == g * (a / g),
                g > 0,
                a / g >= 0,
        ;
        assert(b > 0 ==> g <= b) by (nonlinear_arith)
            requires
                b == g * (b / g),
                g > 0,
                b / g >= 0,
        ;
    }
}

/// The greatest common divisor of two positive numbers, by Euclid's
/// algorithm.
pub fn gcd(m: u64, n: u64) -> (g: u64)
    requires
        m > 0 && n > 0,
    ensures
        g == spec_gcd(m as nat, n as nat),
        is_gcd(g as nat, m as nat, n as nat),
        0 < g <= m && g <= n,
{
    let (mut a, mut b) = if m > n {
        (m, n)
    } else {
        (n, m)
    };
    proof {
        lemma_gcd_symmetric(m as nat, n as nat);
    }
    while b != 0
        invariant
            spec_gcd(a as nat, b as nat) == spec_gcd(m as nat, n as nat),
        decreases b,
    {
        let t = b;
        b = a % b;
        a = t;
    }
    proof {
        lemma_gcd_is_gcd(m as nat, n as nat);
        lemma_gcd_positive(m as nat, n as nat);
    }
    a
}

/// The coefficients that the extended Euclidean algorithm finds for `a` and
/// `b`: a pair `(x, y)` with `a * x + b * y == spec_gcd(a, b)`.
pub open spec fn bezout(a: nat, b: nat) -> (int, int)
    decreases b,
{
    if b == 0 {
        (1, 0)
    } else {
        let (x, y) = bezout(b, a % b);
        (y, x - (a / b) * y)
    }
}

/// Bézout's identity for the coefficients of `bezout`.
pub proof fn lemma_bezout_identity(a: nat, b: nat)
    ensures
        a * bezout(a, b).0 + b * bezout(a, b).1 == spec_gcd(a, b),
    decreases b,
{
    if b == 0 {
    } else {
        let q = a / b;
        let r = a % b;
        let (x, y) = bezout(b, r);
        lemma_bezout_identity(b, r);
        lemma_fundamental_div_mod(a as int, b as int);
        assert(a * y + b * (x - q * y) == b * x + r * y) by (nonlinear_arith)
            requires
                a == b * q + r,
        ;
    }
}

/// The coefficients of `bezout` are small: apart from the cases where `b` is
/// zero or divides `a`, twice the product of a coefficient and the greatest
/// common divisor does not exceed the other argument.
pub proof fn lemma_bezout_bounds(a: nat, b: nat)
    ensures
        b == 0 ==> bezout(a, b) == (1int, 0int),
        b != 0 && a % b == 0 ==> bezout(a, b) == (0int, 1int),
        b != 0 && a % b != 0 ==> ({
            &&& -(b as int) <= 2 * spec_gcd(a, b) * bezout(a, b).0 <= b
            &&& -(a as int) <= 2 * spec_gcd(a, b) * bezout(a, b).1 <= a
        }),
    decreases b,
{
    if b == 0 {
    } else if a % b == 0 {
        assert(bezout(b, 0) == (1int, 0int));
    } else {
        let q = a / b;
        let r = a % b;
        let g = spec_gcd(a, b);
        let (x, y) = bezout(b, r);
        lemma_bezout_bounds(b, r);
        lemma_fundamental_div_mod(a as int, b as int);
        if b % r == 0 {
            // One more step ends the algorithm: the coefficients are (1, -q).
            assert(spec_gcd(b, r) == spec_gcd(r, 0));
            assert(g == r);
            lemma_fundamental_div_mod(b as int, r as int);
            let k = b / r;
            assert(k >= 2) by (nonlinear_arith)
                requires
                    b == r * k,
                    r < b,
                    r > 0,
            ;
            assert(2 * g * 1 <= b) by (nonlinear_arith)
                requires
                    b == r * k,
                    k >= 2,
                    g == r,
            ;
            assert(q * 1 == q) by (nonlinear_arith);
            assert(-(a as int) <= 2 * g * (0 - q) <= a) by (nonlinear_arith)
                requires
                    a == b * q + r,
                    b == r * k,
                    k >= 2,
                    g == r,
                    q >= 0,
                    r > 0,
            ;
        } else {
            assert(-(a as int) <= 2 * g * (x - q * y) <= a) by (nonlinear_arith)
                requires
                    a == b * q + r,
                    -(r as int) <= 2 * g * x <= r,
                    -(b as int) <= 2 * g * y <= b,
                    q >= 0,
            ;
        }
    }
}

/// The coefficient that follows `before` and `last` in the sequence that
/// the extended Euclidean algorithm builds, for the given quotient.
spec fn next_coefficient(before: int, quotient: int, last: int) -> int {
    before - quotient * last
}

/// While the algorithm runs, the coefficient it is about to compute fits in
/// an `i64`, and so does the product it is computed from.
///
/// `a1` and `a2` are the current and the next remainder, `total` is the input
/// that the coefficients of this column are bounded by, and `s` is the sign
/// of `last`.
proof fn lemma_step_in_range(
    a1: int,
    a2: int,
    total: int,
    s: int,
    before: int,
    quotient: int,
    last: int,
    next: int,
) by (nonlinear_arith)
    requires
        s == 1 || s == -1,
        0 < a2,
        0 <= a1,
        0 <= quotient,
        quotient == 0 || a2 < a1,
        0 <= total <= u64::MAX,
        i64::MIN <= before <= i64::MAX,
        next == before - quotient * last,
        s * before <= 0 <= s * last,
        s * next <= 0,
        a1 * (-s * next) + a2 * (s * last) == total,
    ensures
        i64::MIN <= next <= i64::MAX,
        i64::MIN <= quotient * last <= i64::MAX,
        last != 0 ==> quotient <= i64::MAX,
{
    if quotient != 0 {
        assert(a1 >= 2);
        assert(a2 * (s * last) >= 0);
        assert(a1 * (-s * next) <= total);
        assert(2 * (-s * next) <= a1 * (-s * next));
        assert(s * (quotient * last) == s * before - s * next);
        assert(0 <= s * (quotient * last) <= -s * next);
        if last != 0 {
            assert(quotient <= s * (quotient * last));
        }
    }
}

/// One step of the algorithm keeps the signs alternating and the weighted
/// sum of the magnitudes of two consecutive coefficients equal to `total`.
proof fn lemma_step_magnitude(
    a1: int,
    a2: int,
    total: int,
    s: int,
    quotient: int,
    last: int,
    next: int,
) by (nonlinear_arith)
    requires
        s == 1 || s == -1,
        0 <= quotient,
        0 <= s * last,
        s * next <= 0,
        a1 * (-s * next) + a2 * (s * last) == total,
    ensures
        s * (last - quotient * next) >= 0,
        a2 * (s * (last - quotient * next)) + (a1 - quotient * a2) * (-s * next) == total,
{
    assert(s * (last - quotient * next) == s * last + quotient * (-s * next));
}

/// One step of the algorithm keeps the combination of the current
/// coefficients with the coefficients still to come unchanged.
proof fn lemma_step_coefficients(u: int, v: int, quotient: int, last: int, next: int)
    by (nonlinear_arith)
    ensures
        v * last + (u - quotient * v) * next == u * next + v * (last - quotient * next),
{
}

/// One step of the algorithm keeps each remainder the combination of the
/// inputs that its coefficients spell.
proof fn lemma_step_remainder(
    a: int,
    b: int,
    a1: int,
    a2: int,
    quotient: int,
    x1: int,
    y1: int,
    nx: int,
    ny: int,
) by (nonlinear_arith)
    requires
        a1 == a * x1 + b * y1,
        a2 == a * nx + b * ny,
    ensures
        a1 - quotient * a2 == a * (x1 - quotient * nx) + b * (y1 - quotient * ny),
{
}

/// Extended Euclidean algorithm: the greatest common divisor of `a` and `b`
/// together with coefficients `x` and `y` such that `a * x + b * y` equals
/// it. No input makes the signed intermediate values overflow.
pub fn extended_gcd(a: u64, b: u64) -> (out: (u64, i64, i64))
    ensures
        out.0 == spec_gcd(a as nat, b as nat),
        (out.1 as int, out.2 as int) == bezout(a as nat, b as nat),
        a * out.1 + b * out.2 == out.0,
{
    let mut x1 = 1i64;
    let mut y1 = 0i64;
    let mut a1 = a;
    let mut x0 = 0i64;
    let mut y0 = 1i64;
    let mut a2 = b;
    let mut q = 0u64;
    // The sign of `x1`: the coefficients alternate in sign from step to step,
    // and those of `b` have the sign opposite to those of `a`.
    let ghost mut s: int = 1;
    proof {
        assert(a * 1 + b * 0 == a && a * 0 + b * 1 == b) by (nonlinear_arith);
        assert(0 * 1 == 0) by (nonlinear_arith);
        assert(a * (-1 * 0) + b * (1 * 1) == b) by (nonlinear_arith);
        assert(a * (1 * 1) + b * (-1 * 0) == a) by (nonlinear_arith);
        assert(bezout(a as nat, b as nat).0 * 1 + bezout(a as nat, b as nat).1 * 0 == bezout(
            a as nat,
            b as nat,
        ).0) by (nonlinear_arith);
        assert(bezout(a as nat, b as nat).0 * 0 + bezout(a as nat, b as nat).1 * 1 == bezout(
            a as nat,
            b as nat,
        ).1) by (nonlinear_arith);
    }

    while a2 != 0
        invariant
            s == 1 || s == -1,
            spec_gcd(a1 as nat, a2 as nat) == spec_gcd(a as nat, b as nat),
            // Each remainder is the combination of the inputs that its
            // coefficients spell.
            a1 == a * x1 + b * y1,
            a2 == a * next_coefficient(x0 as int, q as int, x1 as int) + b * next_coefficient(
                y0 as int,
                q as int,
                y1 as int,
            ),
            // The coefficients of the remainders lead from the current
            // coefficients to those of the inputs.
            bezout(a as nat, b as nat).0 == bezout(a1 as nat, a2 as nat).0 * x1 + bezout(
                a1 as nat,
                a2 as nat,
            ).1 * next_coefficient(x0 as int, q as int, x1 as int),
            bezout(a as nat, b as nat).1 == bezout(a1 as nat, a2 as nat).0 * y1 + bezout(
                a1 as nat,
                a2 as nat,
            ).1 * next_coefficient(y0 as int, q as int, y1 as int),
            // The signs alternate, and the magnitudes of two consecutive
            // coefficients, weighted by the remainders, add up to an input:
            // this is what keeps the coefficients in range.
            s * x0 <= 0 <= s * x1,
            s * y1 <= 0 <= s * y0,
            s * next_coefficient(x0 as int, q as int, x1 as int) <= 0,
            s * next_coefficient(y0 as int, q as int, y1 as int) >= 0,
            a1 * (-s * next_coefficient(x0 as int, q as int, x1 as int)) + a2 * (s * x1) == b,
            a1 * (s * next_coefficient(y0 as int, q as int, y1 as int)) + a2 * (-s * y1) == a,
            q == 0 || a2 < a1,
        decreases a2,
    {
        let ghost nx = next_coefficient(x0 as int, q as int, x1 as int);
        let ghost ny = next_coefficient(y0 as int, q as int, y1 as int);
        proof {
            lemma_step_in_range(
                a1 as int,
                a2 as int,
                b as int,
                s,
                x0 as int,
                q as int,
                x1 as int,
                nx,
            );
            assert(a1 * (-(-s) * ny) + a2 * (-s * y1) == a1 * (s * ny) + a2 * (-s * y1))
                by (nonlinear_arith);
            lemma_mul_unary_negation(s, y0 as int);
            lemma_mul_unary_negation(s, y1 as int);
            lemma_mul_unary_negation(s, ny);
            lemma_step_in_range(
                a1 as int,
                a2 as int,
                a as int,
                -s,
                y0 as int,
                q as int,
                y1 as int,
                ny,
            );
            if x1 == 0 && y1 == 0 {
                assert(a * 0 + b * 0 == 0) by (nonlinear_arith);
                assert(a1 == 0);
                assert(q * 0 == 0) by (nonlinear_arith);
                assert(a * nx + b * ny == a * x0 + b * y0);
            }
        }
        let x2 = x0 - q as i64 * x1;
        let y2 = y0 - q as i64 * y1;
        x0 = x1;
        y0 = y1;
        let a0 = a1;
        x1 = x2;
        y1 = y2;
        a1 = a2;
        q = a0 / a1;
        proof {
            lemma_fundamental_div_mod(a0 as int, a1 as int);
            lemma_mul_is_commutative(a1 as int, q as int);
        }
        a2 = a0 - q * a1;
        proof {
            let u = bezout(a1 as nat, a2 as nat).0;
            let v = bezout(a1 as nat, a2 as nat).1;
            assert(a2 == a0 % a1);
            assert(bezout(a0 as nat, a1 as nat) == (v, u - (a0 as nat / a1 as nat) * v));
            lemma_step_coefficients(u, v, q as int, x0 as int, x1 as int);
            lemma_step_coefficients(u, v, q as int, y0 as int, y1 as int);
            lemma_step_magnitude(a0 as int, a1 as int, b as int, s, q as int, x0 as int, x1 as int);
            assert(a0 * (-(-s) * y1) + a1 * (-s * y0) == a0 * (s * y1) + a1 * (-s * y0))
                by (nonlinear_arith);
            lemma_mul_unary_negation(s, x0 as int);
            lemma_mul_unary_negation(s, x1 as int);
            lemma_mul_unary_negation(s, y0 as int);
            lemma_mul_unary_negation(s, y1 as int);
            lemma_step_magnitude(a0 as int, a1 as int, a as int, -s, q as int, y0 as int, y1 as int);
            lemma_mul_unary_negation(s, next_coefficient(x0 as int, q as int, x1 as int));
            lemma_mul_unary_negation(s, next_coefficient(y0 as int, q as int, y1 as int));
            lemma_step_remainder(
                a as int,
                b as int,
                a0 as int,
                a1 as int,
                q as int,
                x0 as int,
                y0 as int,
                x1 as int,
                y1 as int,
            );
            s = -s;
        }
    }
    proof {
        assert(bezout(a1 as nat, 0) == (1int, 0int));
        assert(bezout(a as nat, b as nat).0 == 1 * x1 + 0 * next_coefficient(
            x0 as int,
            q as int,
            x1 as int,
        ));
        assert(bezout(a as nat, b as nat).1 == 1 * y1 + 0 * next_coefficient(
            y0 as int,
            q as int,
            y1 as int,
        ));
        lemma_mul_is_commutative(a as int, x1 as int);
    }
    (a1, x1, y1)
}

/// The least common multiple of two positive numbers: their product divided
/// by their greatest common divisor.
pub open spec fn spec_lcm(a: nat, b: nat) -> nat {
    a * b / spec_gcd(a, b)
}

/// `l` is the least common multiple of the positive numbers `a` and `b`: it
/// is a positive multiple of both, and it divides every common multiple.
pub open spec fn is_lcm(l: nat, a: nat, b: nat) -> bool {
    &&& l > 0
    &&& divides(a, l)
    &&& divides(b, l)
    &&& forall|m: nat| divides(a, m) && divides(b, m) ==> #[trigger] divides(l, m)
}

/// Dividing either factor by the greatest common divisor before multiplying
/// gives the least common multiple.
pub proof fn lemma_lcm_factors(a: nat, b: nat)
    requires
        a > 0,
        b > 0,
    ensures
        spec_lcm(a, b) == (a / spec_gcd(a, b)) * b,
        spec_lcm(a, b) == a * (b / spec_gcd(a, b)),
        spec_lcm(a, b) * spec_gcd(a, b) == a * b,
{
    let g = spec_gcd(a, b);
    lemma_gcd_is_gcd(a, b);
    lemma_divides_quotient(g, a);
    lemma_divides_quotient(g, b);
    let s = a / g;
    let t = b / g;
    assert(a * b == g * (s * b)) by (nonlinear_arith)
        requires
            a == g * s,
    ;
    assert(a * b == g * (a * t)) by (nonlinear_arith)
        requires
            b == g * t,
    ;
    lemma_div_multiples_vanish((s * b) as int, g as int);
    lemma_div_multiples_vanish((a * t) as int, g as int);
    lemma_mul_is_commutative(g as int, (s * b) as int);
    lemma_mul_is_commutative(g as int, (a * t) as int);
}

/// `spec_lcm(a, b)` is the least common multiple of `a` and `b`.
pub proof fn lemma_lcm_is_lcm(a: nat, b: nat)
    requires
        a > 0,
        b > 0,
    ensures
        is_lcm(spec_lcm(a, b), a, b),
{
    let g = spec_gcd(a, b);
    let l = spec_lcm(a, b);
    lemma_gcd_is_gcd(a, b);
    lemma_lcm_factors(a, b);
    assert(l > 0) by (nonlinear_arith)
        requires
            l * g == a * b,
            a > 0,
            b > 0,
            g > 0,
    ;
    lemma_divides_multiple(a, b / g);
    lemma_divides_multiple(b, a / g);
    let (x, y) = bezout(a, b);
    lemma_bezout_identity(a, b);
    assert forall|m: nat| divides(a, m) && divides(b, m) implies #[trigger] divides(l, m) by {
        lemma_divides_quotient(a, m);
        lemma_divides_quotient(b, m);
        let s = (m / a) as int;
        let t = (m / b) as int;
        let k = x * t + y * s;
        assert(m * g == (l * g) * k) by (nonlinear_arith)
            requires
                m == a * s,
                m == b * t,
                g == a * x + b * y,
                l * g == a * b,
                k == x * t + y * s,
        ;
        assert(m == l * k) by (nonlinear_arith)
            requires
                m * g == (l * g) * k,
                g > 0,
        ;
        assert(k >= 0) by (nonlinear_arith)
            requires
                m == l * k,
                l > 0,
                m >= 0,
        ;
        lemma_divides_multiple(l, k as nat);
    }
}

/// The least common multiple of two positive numbers, which must fit in a
/// `u64`. The larger number is divided by the greatest common divisor before
/// the multiplication, so that no intermediate value exceeds the result.
pub fn lcm(a: u64, b: u64) -> (l: u64)
    requires
        a > 0 && b > 0,
        spec_lcm(a as nat, b as nat) <= u64::MAX,
    ensures
        l == spec_lcm(a as nat, b as nat),
        is_lcm(l as nat, a as nat, b as nat),
{
    let (mut p, q) = if a > b {
        (a, b)
    } else {
        (b, a)
    };
    proof {
        lemma_gcd_symmetric(a as nat, b as nat);
        lemma_lcm_factors(a as nat, b as nat);
        lemma_lcm_factors(b as nat, a as nat);
        lemma_lcm_is_lcm(a as nat, b as nat);
        lemma_mul_is_commutative(a as int, b as int);
    }
    p /= gcd(p, q);
    p * q
}

/// The inverse of `value` modulo `modulus`, as far as there is one: nothing
/// for the modulus zero, zero for the modulus one, and otherwise the reduced
/// coefficient of `value` in Bézout's identity where `value` and `modulus`
/// are coprime.
pub open spec fn spec_mod_inv(modulus: nat, value: nat) -> Option<nat> {
    if modulus == 0 {
        None
    } else if modulus == 1 {
        Some(0)
    } else if spec_gcd(modulus, value) != 1 {
        None
    } else {
        Some((bezout(modulus, value).1 % (modulus as int)) as nat)
    }
}

/// A number that has an inverse modulo `modulus` is coprime to it.
pub proof fn lemma_inverse_needs_coprime(modulus: nat, value: nat, inverse: nat)
    requires
        modulus >= 2,
        (value * inverse) % modulus == 1,
    ensures
        spec_gcd(modulus, value) == 1,
{
    let g = spec_gcd(modulus, value);
    lemma_gcd_is_gcd(modulus, value);
    lemma_gcd_positive(modulus, value);
    lemma_divides_quotient(g, modulus);
    lemma_divides_quotient(g, value);
    lemma_fundamental_div_mod((value * inverse) as int, modulus as int);
    let k = (value * inverse) / modulus;
    let s = modulus / g;
    let t = value / g;
    assert(g * (t * inverse - s * k) == 1) by (nonlinear_arith)
        requires
            value * inverse == modulus * k + 1,
            modulus == g * s,
            value == g * t,
    ;
    assert(g == 1) by (nonlinear_arith)
        requires
            g * (t * inverse - s * k) == 1,
            g > 0,
    ;
}

/// What `spec_mod_inv` gives is a reduced inverse.
pub proof fn lemma_mod_inv_is_inverse(modulus: nat, value: nat)
    requires
        modulus >= 2,
        spec_gcd(modulus, value) == 1,
    ensures
        spec_mod_inv(modulus, value) matches Some(inverse) && inverse < modulus && (value
            * inverse) % modulus == 1,
{
    let (x, y) = bezout(modulus, value);
    let m = modulus as int;
    let inverse = y % m;
    lemma_bezout_identity(modulus, value);
    lemma_mod_bound(y, m);
    lemma_fundamental_div_mod(y, m);
    let k = y / m;
    assert(value * inverse == m * (-x - value * k) + 1) by (nonlinear_arith)
        requires
            m * x + value * y == 1,
            y == m * k + inverse,
    ;
    lemma_mod_multiples_vanish(-x - value * k, 1, m);
    lemma_small_mod(1, modulus);
}

/// Modular multiplicative inverse of `value`, reduced modulo `modulus`.
/// Returns `None` where there is none: for the modulus zero, and where
/// `value` and `modulus` have a common factor.
pub fn mod_inv(modulus: u64, value: u64) -> (out: Option<u64>)
    ensures
        match spec_mod_inv(modulus as nat, value as nat) {
            Some(inverse) => out == Some(inverse as u64) && inverse <= u64::MAX,
            None => out is None,
        },
        out is Some <==> modulus == 1 || (modulus >= 2 && spec_gcd(modulus as nat, value as nat)
            == 1),
        out matches Some(inverse) ==> inverse < modulus && (value * inverse) % (modulus as int)
            == 1int % (modulus as int),
        modulus >= 2 && out is None ==> forall|inverse: nat|
            #[trigger] ((value as nat * inverse) % (modulus as nat)) != 1,
{
    // Ordinarily, operations modulo 0 are undefined.
    if modulus == 0 {
        return None;
    }
    // Every number is congruent to 0 modulo 1, and 0 is the reduced inverse.
    if modulus == 1 {
        assert(value * 0 == 0) by (nonlinear_arith);
        return Some(0);
    }
    let (g, _, y) = extended_gcd(modulus, value);
    if g != 1 {
        proof {
            assert forall|inverse: nat|
                #[trigger] ((value as nat * inverse) % (modulus as nat)) != 1 by {
                if (value as nat * inverse) % (modulus as nat) == 1 {
                    lemma_inverse_needs_coprime(modulus as nat, value as nat, inverse);
                }
            }
        }
        return None;
    }
    proof {
        lemma_bezout_bounds(modulus as nat, value as nat);
        lemma_mod_inv_is_inverse(modulus as nat, value as nat);
        lemma_small_mod(1, modulus as nat);
        if value != 0 && modulus % value != 0 {
            assert(2 * 1 * (y as int) == 2 * y);
        }
    }
    if y >= 0 {
        proof {
            lemma_small_mod(y as nat, modulus as nat);
        }
        Some(y as u64)
    } else {
        proof {
            lemma_mod_add_multiples_vanish(y as int, modulus as int);
            lemma_small_mod((modulus + y) as nat, modulus as nat);
        }
        Some(modulus - ((-y) as u64))
    }
}

/// The combination of the residues `a` and `b` with the Bézout coefficients
/// of the moduli `m` and `n` from which [`crt`] computes its solution.
pub open spec fn crt_combination(a: nat, b: nat, m: nat, n: nat) -> int {
    a * bezout(m, n).1 * n + b * bezout(m, n).0 * m
}

/// The combination of [`crt_combination`], raised by the product of the
/// moduli where it is negative.
pub open spec fn crt_raised(a: nat, b: nat, m: nat, n: nat) -> int {
    let x = crt_combination(a, b, m, n);
    if x >= 0 {
        x
    } else {
        x + m * n
    }
}

/// What [`crt`] returns: where the residues agree modulo the greatest common
/// divisor of the moduli, the raised combination divided by that divisor,
/// and the least common multiple of the moduli.
pub open spec fn spec_crt(a: nat, b: nat, m: nat, n: nat) -> Option<(int, nat)> {
    let g = spec_gcd(m, n);
    if a % g == b % g {
        Some((crt_raised(a, b, m, n) / (g as int), m * n / g))
    } else {
        None
    }
}

/// Whether the value fits in an `i64`.
pub open spec fn fits_i64(v: int) -> bool {
    i64::MIN <= v <= i64::MAX
}

/// Whether [`crt`] can compute the solution for these residues and moduli in
/// 64-bit arithmetic: every intermediate value fits, and the raised
/// combination is not negative.
pub open spec fn crt_computable(a: nat, b: nat, m: nat, n: nat) -> bool {
    let (u, v) = bezout(m, n);
    &&& fits_i64(a as int) && fits_i64(b as int) && fits_i64(m as int) && fits_i64(n as int)
    &&& fits_i64(a * v) && fits_i64(a * v * n)
    &&& fits_i64(b * u) && fits_i64(b * u * m)
    &&& fits_i64(crt_combination(a, b, m, n))
    &&& m * n <= u64::MAX
    &&& crt_combination(a, b, m, n) < 0 ==> m * n <= i64::MAX
    &&& crt_raised(a, b, m, n) >= 0
}

/// The raised combination is a multiple of the greatest common divisor of
/// the moduli, and the quotient is congruent to `a` modulo `m` and to `b`
/// modulo `n`.
pub proof fn lemma_crt_solves(a: nat, b: nat, m: nat, n: nat)
    requires
        m > 0,
        n > 0,
        a % spec_gcd(m, n) == b % spec_gcd(m, n),
    ensures
        crt_raised(a, b, m, n) % (spec_gcd(m, n) as int) == 0,
        (crt_raised(a, b, m, n) / (spec_gcd(m, n) as int)) % (m as int) == a % m,
        (crt_raised(a, b, m, n) / (spec_gcd(m, n) as int)) % (n as int) == b % n,
{
    let g = spec_gcd(m, n) as int;
    let (u, v) = bezout(m, n);
    let x = crt_combination(a, b, m, n);
    let r = crt_raised(a, b, m, n);
    lemma_gcd_is_gcd(m, n);
    lemma_bezout_identity(m, n);
    lemma_divides_quotient(g as nat, m);
    lemma_divides_quotient(g as nat, n);
    let mg = (m / (g as nat)) as int;
    let ng = (n / (g as nat)) as int;
    // The residues differ by a multiple of the common divisor.
    let ai = a as int;
    let bi = b as int;
    lemma_fundamental_div_mod(ai, g);
    lemma_fundamental_div_mod(bi, g);
    let k = bi / g - ai / g;
    assert(b - a == g * k) by (nonlinear_arith)
        requires
            ai == g * (ai / g) + ai % g,
            bi == g * (bi / g) + bi % g,
            ai % g == bi % g,
            k == bi / g - ai / g,
            ai == a,
            bi == b,
    ;
    let e: int = if x >= 0 {
        0
    } else {
        1
    };
    // With p = u * m and q = v * n, Bézout's identity reads p + q == g.
    let p = u * m;
    let q = v * n;
    lemma_mul_is_commutative(u, m as int);
    lemma_mul_is_commutative(v, n as int);
    lemma_mul_is_associative(a as int, v, n as int);
    lemma_mul_is_associative(b as int, u, m as int);
    assert(x == a * q + b * p);
    // The product of the moduli is g times c.
    let c = mg * ng * g;
    assert(m * n == g * c && m * ng == c && n * mg == c) by (nonlinear_arith)
        requires
            m == g * mg,
            n == g * ng,
            c == mg * ng * g,
    ;
    let w = a + k * p + e * c;
    assert(a * q + b * p == g * (a + k * p)) by (nonlinear_arith)
        requires
            p + q == g,
            b - a == g * k,
    ;
    assert(r == g * w) by (nonlinear_arith)
        requires
            r == x + e * (m * n),
            x == g * (a + k * p),
            m * n == g * c,
            w == a + k * p + e * c,
    ;
    let wm = k * u + e * ng;
    assert(w == a + m * wm) by (nonlinear_arith)
        requires
            w == a + k * p + e * c,
            p == u * m,
            m * ng == c,
            wm == k * u + e * ng,
    ;
    let wn = e * mg - k * v;
    assert(w == b + n * wn) by (nonlinear_arith)
        requires
            w == a + k * p + e * c,
            p + q == g,
            q == v * n,
            b - a == g * k,
            n * mg == c,
            wn == e * mg - k * v,
    ;
    lemma_mod_multiples_basic(w, g);
    lemma_div_multiples_vanish(w, g);
    lemma_mod_multiples_vanish(wm, a as int, m as int);
    lemma_mod_multiples_vanish(wn, b as int, n as int);
}

/// A pair of congruences can only be solved where the residues agree modulo
/// the greatest common divisor of the moduli.
pub proof fn lemma_crt_needs_agreement(x: nat, a: nat, b: nat, m: nat, n: nat)
    requires
        m > 0,
        n > 0,
        x % m == a % m,
        x % n == b % n,
    ensures
        a % spec_gcd(m, n) == b % spec_gcd(m, n),
{
    let g = spec_gcd(m, n);
    lemma_gcd_is_gcd(m, n);
    lemma_divides_quotient(g, m);
    lemma_divides_quotient(g, n);
    lemma_mul_is_commutative(g as int, (m / g) as int);
    lemma_mul_is_commutative(g as int, (n / g) as int);
    lemma_mod_mod(x as int, g as int, (m / g) as int);
    lemma_mod_mod(a as int, g as int, (m / g) as int);
    lemma_mod_mod(x as int, g as int, (n / g) as int);
    lemma_mod_mod(b as int, g as int, (n / g) as int);
}

/// Solution `x` to the pair of congruences
///
/// > `x` ≡ `a` (mod `m`),
/// > `x` ≡ `b` (mod `n`),
///
/// if one exists, together with the least common multiple of `m` and `n`.
/// The solution is computed in 64-bit arithmetic from the Bézout
/// coefficients of the moduli and is not reduced; the moduli may not both be
/// zero, and where a solution exists the computation must be in range.
pub fn crt(a: u64, b: u64, m: u64, n: u64) -> (out: Option<(u64, u64)>)
    requires
        m > 0 || n > 0,
        a as nat % spec_gcd(m as nat, n as nat) == b as nat % spec_gcd(m as nat, n as nat)
            ==> crt_computable(a as nat, b as nat, m as nat, n as nat),
    ensures
        out is Some <==> a as nat % spec_gcd(m as nat, n as nat) == b as nat % spec_gcd(
            m as nat,
            n as nat,
        ),
        out matches Some((x, l)) ==> spec_crt(a as nat, b as nat, m as nat, n as nat) == Some(
            (x as int, l as nat),
        ),
        m > 0 && n > 0 ==> (out matches Some((x, l)) ==> ({
            &&& x % m == a % m
            &&& x % n == b % n
            &&& l == spec_lcm(m as nat, n as nat)
        })),
        m > 0 && n > 0 && out is None ==> forall|x: nat|
            !(#[trigger] (x % (m as nat)) == a as nat % (m as nat) && x % (n as nat) == b as nat % (
            n as nat)),
{
    let (g, u, v) = extended_gcd(m, n);
    proof {
        lemma_gcd_positive(m as nat, n as nat);
        if m > 0 && n > 0 && a as nat % (g as nat) != b as nat % (g as nat) {
            assert forall|x: nat|
                !(#[trigger] (x % (m as nat)) == a as nat % (m as nat) && x % (n as nat) == b as nat
                    % (n as nat)) by {
                if x % (m as nat) == a as nat % (m as nat) && x % (n as nat) == b as nat % (
                n as nat) {
                    lemma_crt_needs_agreement(x, a as nat, b as nat, m as nat, n as nat);
                }
            }
        }
    }
    if a % g == b % g {
        let x = a as i64 * v * n as i64 + b as i64 * u * m as i64;
        let lcm = m * n / g;
        let x = if x >= 0 {
            x
        } else {
            x + m as i64 * n as i64
        };
        proof {
            if m > 0 && n > 0 {
                lemma_crt_solves(a as nat, b as nat, m as nat, n as nat);
            }
        }
        Some((x as u64 / g, lcm))
    } else {
        None
    }
}

/// Returns -1, 0 or 1 as the input is negative, zero or positive.
pub fn sgn(x: i64) -> (s: i64)
    ensures
        s == if x > 0 { 1int } else if x < 0 { -1int } else { 0int },
{
    if x > 0 {
        return 1;
    }
    if x < 0 {
        return -1;
    }
    0
}

} // verus!
