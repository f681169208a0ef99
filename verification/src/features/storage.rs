//! Disk usage as the storage view shows it.
use vstd::prelude::*;
use crate::utils::{f64_scale, lemma_nearest_f64_positive, nearest_f64, nearest_f64_exec};

verus! {

/// 2 to the power `k`.
pub open spec fn two_to(k: nat) -> nat
    decreases k,
{
    if k == 0 {
        1
    } else {
        2 * two_to((k - 1) as nat)
    }
}

proof fn lemma_two_to_adds(j: nat, k: nat)
    ensures
        two_to(j + k) == two_to(j) * two_to(k),
        two_to(j) >= 1,
    decreases j,
{
    if j > 0 {
        let jm = (j - 1) as nat;
        lemma_two_to_adds(jm, k);
        assert(j + k - 1 == jm + k);
        assert(two_to(j + k) == 2 * two_to(jm + k));
        assert(two_to(j) == 2 * two_to(jm));
        let (x, y) = (two_to(jm), two_to(k));
        assert(2 * (x * y) == (2 * x) * y) by (nonlinear_arith);
        assert(two_to(j + k) == two_to(j) * two_to(k));
        assert(two_to(j) >= 1);
    } else {
        assert(two_to(0) == 1);
        assert(j + k == k);
        assert(two_to(j + k) == two_to(j) * two_to(k));
    }
}

proof fn lemma_two_to_grows(j: nat, k: nat)
    requires
        j <= k,
    ensures
        two_to(j) <= two_to(k),
{
    lemma_two_to_adds(j, (k - j) as nat);
    lemma_two_to_adds((k - j) as nat, 0);
    assert(two_to(j) * two_to((k - j) as nat) >= two_to(j)) by (nonlinear_arith)
        requires
            two_to((k - j) as nat) >= 1,
    ;
}

/// The smallest and the first too large significand of a double.
pub open spec fn sig_low() -> nat {
    0x10_0000_0000_0000
}

pub open spec fn sig_high() -> nat {
    0x20_0000_0000_0000
}

/// The fraction `n / d` multiplied by 2^-e, as a numerator and a
/// denominator.
pub open spec fn scaled(n: nat, d: nat, e: int) -> (nat, nat) {
    if e >= 0 {
        (n, d * two_to(e as nat))
    } else {
        (n * two_to((-e) as nat), d)
    }
}

/// `e` is the exponent of `n / d` as a double: multiplied by 2^-e the
/// fraction lies in [2^52, 2^53), the range of a double's significand.
pub open spec fn in_binade(n: nat, d: nat, e: int) -> bool {
    let (a, b) = scaled(n, d, e);
    sig_low() * b <= a && a < sig_high() * b
}

/// `n / d` rounded to the nearest integer, ties to even.
pub open spec fn round_half_even(n: nat, d: nat) -> nat {
    let q = n / d;
    let r = n % d;
    if 2 * r > d || (2 * r == d && q % 2 == 1) {
        q + 1
    } else {
        q
    }
}

/// The double nearest to the positive fraction `n / d`, ties to even: its
/// significand `m` and exponent `e`, the value being m · 2^e (rounding can
/// carry the significand to 2^53).
pub open spec fn nearest_double(n: nat, d: nat) -> (nat, int) {
    let e = choose|e: int| in_binade(n, d, e);
    let (a, b) = scaled(n, d, e);
    (round_half_even(a, b), e)
}

/// The value m · 2^e rounded to a whole number, halves away from zero.
pub open spec fn round_half_away(m: nat, e: int) -> nat {
    if e >= 0 {
        m * two_to(e as nat)
    } else {
        (m + two_to((-e - 1) as nat)) / two_to((-e) as nat)
    }
}

/// Moving the exponent by `k` divides the scaled fraction by 2^k.
#[verifier::spinoff_prover]
proof fn lemma_scaled_step(n: nat, d: nat, e1: int, e2: int)
    requires
        e1 < e2,
    ensures
        scaled(n, d, e1).0 * scaled(n, d, e2).1 == scaled(n, d, e2).0 * scaled(n, d, e1).1
            * two_to((e2 - e1) as nat),
{
    let k = (e2 - e1) as nat;
    let p = two_to(k);
    if e1 >= 0 {
        let (x1, x2) = (e1 as nat, e2 as nat);
        assert(x1 + k == x2);
        lemma_two_to_adds(x1, k);
        let t = two_to(x1);
        assert(two_to(x2) == t * p);
        assert(n * (d * (t * p)) == n * (d * t) * p) by (nonlinear_arith);
        assert(scaled(n, d, e1) == (n, d * t));
        assert(scaled(n, d, e2) == (n, d * (t * p)));
    } else if e2 <= 0 {
        let (y1, y2) = ((-e1) as nat, (-e2) as nat);
        assert(y2 + k == y1);
        lemma_two_to_adds(y2, k);
        let t = two_to(y2);
        assert(two_to(y1) == t * p);
        assert(n * (t * p) * d == n * t * d * p) by (nonlinear_arith);
        assert(scaled(n, d, e1) == (n * (t * p), d));
        if e2 == 0 {
            assert(two_to(0) == 1);
            assert(t == 1);
            assert(n * t == n && d * t == d) by (nonlinear_arith)
                requires
                    t == 1,
            ;
            assert(scaled(n, d, e2) == (n, d * two_to(0)));
        }
        assert(scaled(n, d, e2) == (n * t, d));
    } else {
        let (y1, x2) = ((-e1) as nat, e2 as nat);
        assert(y1 + x2 == k);
        lemma_two_to_adds(y1, x2);
        let (t1, t2) = (two_to(y1), two_to(x2));
        assert(p == t1 * t2);
        assert(n * t1 * (d * t2) == n * d * (t1 * t2)) by (nonlinear_arith);
        assert(scaled(n, d, e1) == (n * t1, d));
        assert(scaled(n, d, e2) == (n, d * t2));
    }
}

/// A fraction has one exponent as a double.
#[verifier::spinoff_prover]
proof fn lemma_binade_unique(n: nat, d: nat, e1: int, e2: int)
    requires
        n > 0,
        d > 0,
        in_binade(n, d, e1),
        in_binade(n, d, e2),
    ensures
        e1 == e2,
{
    if e1 != e2 {
        let (lo, hi) = if e1 < e2 {
            (e1, e2)
        } else {
            (e2, e1)
        };
        lemma_scaled_step(n, d, lo, hi);
        let (a1, b1) = scaled(n, d, lo);
        let (a2, b2) = scaled(n, d, hi);
        let p = two_to((hi - lo) as nat);
        assert(p >= 2) by {
            lemma_two_to_grows(1, (hi - lo) as nat);
            assert(two_to(1) == 2 * two_to(0));
        }
        lemma_two_to_adds((-lo) as nat, 0);
        lemma_two_to_adds(hi as nat, 0);
        assert(b1 > 0 && b2 > 0) by {
            if lo >= 0 {
                assert(d * two_to(lo as nat) > 0) by (nonlinear_arith)
                    requires
                        d > 0,
                        two_to(lo as nat) >= 1,
                ;
            }
            if hi >= 0 {
                assert(d * two_to(hi as nat) > 0) by (nonlinear_arith)
                    requires
                        d > 0,
                        two_to(hi as nat) >= 1,
                ;
            }
        }
        assert(false) by (nonlinear_arith)
            requires
                a1 * b2 == a2 * b1 * p,
                a1 < sig_high() * b1,
                sig_low() * b2 <= a2,
                p >= 2,
                b1 > 0,
                b2 > 0,
                sig_high() == 2 * sig_low(),
        ;
    }
}


proof fn lemma_two_to_values()
    ensures
        two_to(6) == 0x40,
        two_to(7) == 0x80,
        two_to(16) == 0x1_0000,
        two_to(32) == 0x1_0000_0000,
        two_to(52) == 0x10_0000_0000_0000,
        two_to(64) == 0x1_0000_0000_0000_0000,
        two_to(71) == 0x80_0000_0000_0000_0000,
        two_to(118) == 0x40_0000_0000_0000_0000_0000_0000_0000,
{
    assert(two_to(16) == 0x1_0000) by {
        reveal_with_fuel(two_to, 17);
    }
    assert(two_to(7) == 0x80) by {
        reveal_with_fuel(two_to, 8);
    }
    assert(two_to(6) == 0x40) by {
        reveal_with_fuel(two_to, 7);
    }
    lemma_two_to_adds(16, 16);
    assert(two_to(32) == 0x1_0000_0000) by (nonlinear_arith)
        requires
            two_to(32) == two_to(16) * two_to(16),
            two_to(16) == 0x1_0000,
    ;
    lemma_two_to_adds(32, 16);
    lemma_two_to_adds(48, 4);
    assert(two_to(4) == 16) by {
        reveal_with_fuel(two_to, 5);
    }
    assert(two_to(52) == 0x10_0000_0000_0000) by (nonlinear_arith)
        requires
            two_to(48) == two_to(32) * two_to(16),
            two_to(52) == two_to(48) * two_to(4),
            two_to(32) == 0x1_0000_0000,
            two_to(16) == 0x1_0000,
            two_to(4) == 16,
    ;
    lemma_two_to_adds(32, 32);
    assert(two_to(64) == 0x1_0000_0000_0000_0000) by (nonlinear_arith)
        requires
            two_to(64) == two_to(32) * two_to(32),
            two_to(32) == 0x1_0000_0000,
    ;
    lemma_two_to_adds(64, 7);
    assert(two_to(71) == 0x80_0000_0000_0000_0000) by (nonlinear_arith)
        requires
            two_to(71) == two_to(64) * two_to(7),
            two_to(64) == 0x1_0000_0000_0000_0000,
            two_to(7) == 0x80,
    ;
    lemma_two_to_adds(64, 32);
    lemma_two_to_adds(96, 16);
    lemma_two_to_adds(112, 6);
    assert(two_to(118) == 0x40_0000_0000_0000_0000_0000_0000_0000) by (nonlinear_arith)
        requires
            two_to(96) == two_to(64) * two_to(32),
            two_to(112) == two_to(96) * two_to(16),
            two_to(118) == two_to(112) * two_to(6),
            two_to(64) == 0x1_0000_0000_0000_0000,
            two_to(32) == 0x1_0000_0000,
            two_to(16) == 0x1_0000,
            two_to(6) == 0x40,
    ;
}

proof fn lemma_two_to_limit(k: nat)
    requires
        k >= 118,
    ensures
        two_to(k) >= 0x40_0000_0000_0000_0000_0000_0000_0000,
{
    lemma_two_to_values();
    lemma_two_to_grows(118, k);
}

#[verifier::spinoff_prover]
proof fn lemma_binade_down(n: nat, d: nat, k: nat) -> (e: int)
    requires
        n > 0,
        d > 0,
        n * two_to(k) < sig_high() * d,
    ensures
        in_binade(n, d, e),
    decreases sig_high() * d - n * two_to(k),
{
    lemma_two_to_adds(k, 1);
    lemma_two_to_adds(k, 0);
    assert(two_to(1) == 2 * two_to(0));
    let a = n * two_to(k);
    assert(a >= 1) by (nonlinear_arith)
        requires
            n > 0,
            two_to(k) >= 1,
            a == n * two_to(k),
    ;
    if a >= sig_low() * d {
        if k == 0 {
            assert(two_to(0) == 1);
            assert(n * 1 == n && d * 1 == d) by (nonlinear_arith);
            assert(scaled(n, d, 0) == (n, d * two_to(0)));
            0
        } else {
            assert(scaled(n, d, -(k as int)) == (n * two_to(k), d));
            -(k as int)
        }
    } else {
        assert(n * two_to(k + 1) == 2 * a) by (nonlinear_arith)
            requires
                two_to(k + 1) == two_to(k) * 2,
                a == n * two_to(k),
        ;
        assert(n * two_to(k + 1) < sig_high() * d);
        lemma_binade_down(n, d, k + 1)
    }
}

#[verifier::spinoff_prover]
proof fn lemma_binade_up(n: nat, d: nat, j: nat) -> (e: int)
    requires
        n > 0,
        d > 0,
        sig_low() * (d * two_to(j)) <= n,
    ensures
        in_binade(n, d, e),
    decreases n - d * two_to(j),
{
    lemma_two_to_adds(j, 1);
    lemma_two_to_adds(j, 0);
    assert(two_to(1) == 2 * two_to(0));
    let b = d * two_to(j);
    assert(b >= 1) by (nonlinear_arith)
        requires
            d > 0,
            two_to(j) >= 1,
            b == d * two_to(j),
    ;
    if n < sig_high() * b {
        assert(scaled(n, d, j as int) == (n, d * two_to(j)));
        j as int
    } else {
        assert(d * two_to(j + 1) == 2 * b) by (nonlinear_arith)
            requires
                two_to(j + 1) == two_to(j) * 2,
                b == d * two_to(j),
        ;
        lemma_binade_up(n, d, j + 1)
    }
}

/// Every positive fraction has an exponent as a double.
proof fn lemma_binade_exists(n: nat, d: nat) -> (e: int)
    requires
        n > 0,
        d > 0,
    ensures
        in_binade(n, d, e),
        nearest_double(n, d).1 == e,
{
    assert(two_to(0) == 1);
    assert(n * 1 == n && d * 1 == d) by (nonlinear_arith);
    let e = if n < sig_high() * d {
        lemma_binade_down(n, d, 0)
    } else {
        lemma_binade_up(n, d, 0)
    };
    let chosen = choose|x: int| in_binade(n, d, x);
    lemma_binade_unique(n, d, chosen, e);
    e
}


/// Past 2^53 a count's scale brings it into [2^52, 2^53); below, the scale
/// is 1.
proof fn lemma_f64_scale_shape(n: nat)
    ensures
        f64_scale(n) >= 1,
        n < sig_high() ==> f64_scale(n) == 1,
        n >= sig_high() ==> sig_low() * f64_scale(n) <= n && n < sig_high() * f64_scale(n),
    decreases n,
{
    if n >= sig_high() {
        let h = n / 2;
        lemma_f64_scale_shape(h);
        assert(n == 2 * h || n == 2 * h + 1);
    }
}

/// Scales grow with the count, a doubling at a time.
proof fn lemma_f64_scale_grows(n1: nat, n2: nat)
    requires
        n1 <= n2,
    ensures
        f64_scale(n1) <= f64_scale(n2),
        f64_scale(n1) < f64_scale(n2) ==> 2 * f64_scale(n1) <= f64_scale(n2),
    decreases n2,
{
    if n2 >= sig_high() {
        lemma_f64_scale_shape(n2 / 2);
        if n1 >= sig_high() {
            lemma_f64_scale_grows(n1 / 2, n2 / 2);
        }
    }
}

/// Rounding to the nearest integer keeps the order of numerators.
proof fn lemma_round_half_even_grows(n1: nat, n2: nat, d: nat)
    requires
        n1 <= n2,
        d > 0,
    ensures
        round_half_even(n1, d) <= round_half_even(n2, d),
        round_half_even(n1, d) >= n1 / d,
        round_half_even(n1, d) <= n1 / d + 1,
{
    vstd::arithmetic::div_mod::lemma_div_is_ordered(n1 as int, n2 as int, d as int);
    vstd::arithmetic::div_mod::lemma_fundamental_div_mod(n1 as int, d as int);
    vstd::arithmetic::div_mod::lemma_fundamental_div_mod(n2 as int, d as int);
}

/// A larger count never converts to a smaller double.
#[verifier::spinoff_prover]
proof fn lemma_nearest_f64_grows(n1: nat, n2: nat)
    requires
        n1 <= n2,
    ensures
        nearest_f64(n1) <= nearest_f64(n2),
{
    lemma_f64_scale_grows(n1, n2);
    lemma_f64_scale_shape(n1);
    lemma_f64_scale_shape(n2);
    let (d1, d2) = (f64_scale(n1), f64_scale(n2));
    let (r1, r2) = (round_half_even(n1, d1), round_half_even(n2, d2));
    assert(nearest_f64(n1) == d1 * r1) by (nonlinear_arith)
        requires
            nearest_f64(n1) == (if 2 * (n1 % d1) > d1 || (2 * (n1 % d1) == d1 && (n1 / d1) % 2
                == 1) {
                (n1 / d1 + 1) * d1
            } else {
                (n1 / d1) * d1
            }),
            r1 == round_half_even(n1, d1),
    ;
    assert(nearest_f64(n2) == d2 * r2) by (nonlinear_arith)
        requires
            nearest_f64(n2) == (if 2 * (n2 % d2) > d2 || (2 * (n2 % d2) == d2 && (n2 / d2) % 2
                == 1) {
                (n2 / d2 + 1) * d2
            } else {
                (n2 / d2) * d2
            }),
            r2 == round_half_even(n2, d2),
    ;
    lemma_round_half_even_grows(n1, n1, d1);
    lemma_round_half_even_grows(n2, n2, d2);
    if d1 == d2 {
        lemma_round_half_even_grows(n1, n2, d1);
        assert(d1 * r1 <= d1 * r2) by (nonlinear_arith)
            requires
                r1 <= r2,
        ;
    } else {
        // n1's double is at most 2^53 · d1, n2's at least 2^52 · d2 >= 2^53 · d1
        let (q1, q2) = (n1 / d1, n2 / d2);
        assert(q1 < sig_high()) by {
            vstd::arithmetic::div_mod::lemma_fundamental_div_mod(n1 as int, d1 as int);
            if n1 >= sig_high() {
                assert(d1 * q1 <= n1);
                assert(q1 < sig_high()) by (nonlinear_arith)
                    requires
                        d1 * q1 <= n1,
                        n1 < sig_high() * d1,
                        d1 >= 1,
                ;
            } else {
                vstd::arithmetic::div_mod::lemma_div_basics(n1 as int);
            }
        }
        assert(n2 >= sig_high());
        assert(q2 >= sig_low()) by {
            vstd::arithmetic::div_mod::lemma_fundamental_div_mod(n2 as int, d2 as int);
            assert(q2 >= sig_low()) by (nonlinear_arith)
                requires
                    d2 * q2 + n2 % d2 == n2,
                    n2 % d2 < d2,
                    sig_low() * d2 <= n2,
                    d2 >= 1,
            ;
        }
        assert(d1 * r1 <= d2 * r2) by (nonlinear_arith)
            requires
                r1 <= q1 + 1,
                q1 < sig_high(),
                r2 >= q2,
                q2 >= sig_low(),
                2 * d1 <= d2,
                sig_high() == 2 * sig_low(),
        ;
    }
}

/// `n / d` rounded to the nearest integer, ties to even.
fn round_half_even_exec(n: u128, d: u128) -> (r: u128)
    requires
        d > 0,
        n < 0x8000_0000_0000_0000_0000_0000_0000_0000,
        d < 0x8000_0000_0000_0000_0000_0000_0000_0000,
    ensures
        r == round_half_even(n as nat, d as nat),
{
    let q = n / d;
    let r = n % d;
    if 2 * r > d || (2 * r == d && q % 2 == 1) {
        assert(q < n || n == 0 || d == 1 || q + 1 <= n) by (nonlinear_arith)
            requires
                q == n / d,
                d > 0,
        {
            vstd::arithmetic::div_mod::lemma_div_is_ordered_by_denominator(n as int, 1, d as int);
        }
        assert(q + 1 <= n + 1);
        q + 1
    } else {
        q
    }
}

/// The double nearest to `n / d`, as `nearest_double` gives it.
#[verifier::spinoff_prover]
fn nearest_double_exec(n: u128, d: u128) -> (r: (u128, i64))
    requires
        0 < n <= 0x2_0000_0000_0000_0000,
        0 < d <= 0x2_0000_0000_0000_0000,
    ensures
        (r.0 as nat, r.1 as int) == nearest_double(n as nat, d as nat),
        sig_low() <= r.0 <= sig_high(),
        -120 <= r.1 <= 70,
{
    let mut a: u128 = n;
    let mut b: u128 = d;
    let mut e: i64 = 0;
    assert(two_to(0) == 1);
    assert(n * 1 == n && d * 1 == d) by (nonlinear_arith);
    if n < 0x10_0000_0000_0000 * d {
        while a < 0x10_0000_0000_0000 * b
            invariant
                b == d,
                0 < d <= 0x2_0000_0000_0000_0000,
                e <= 0,
                -e <= 120,
                a == n * two_to((-e) as nat),
                0 < a,
                e < 0 ==> a < 0x20_0000_0000_0000 * b,
                scaled(n as nat, d as nat, e as int) == (a as nat, b as nat),
            decreases 0x20_0000_0000_0000 * d - a,
        {
            proof {
                lemma_two_to_adds((-e) as nat, 1);
                assert(two_to(1) == 2 * two_to(0));
                let t = two_to((-e) as nat);
                assert(n * (t * 2) == (n * t) * 2) by (nonlinear_arith);
                assert(2 * a < 0x40_0000_0000_0000_0000_0000_0000_0000);
                assert(two_to(((-e) + 1) as nat) <= n * two_to(((-e) + 1) as nat)) by (
                nonlinear_arith)
                    requires
                        n >= 1,
                ;
                if (-e) + 1 >= 118 {
                    lemma_two_to_limit(((-e) + 1) as nat);
                }
            }
            a = a * 2;
            e = e - 1;
        }
    } else if n >= 0x20_0000_0000_0000 * d {
        while a >= 0x20_0000_0000_0000 * b
            invariant
                a == n,
                0 < n <= 0x2_0000_0000_0000_0000,
                e >= 0,
                e <= 70,
                0 < b <= 0x2_0000_0000_0000_0000,
                b == d * two_to(e as nat),
                e > 0 ==> 0x10_0000_0000_0000 * b <= a,
                scaled(n as nat, d as nat, e as int) == (a as nat, b as nat),
            decreases a - b,
        {
            proof {
                lemma_two_to_adds(e as nat, 1);
                assert(two_to(1) == 2 * two_to(0));
                let t = two_to(e as nat);
                assert(d * (t * 2) == (d * t) * 2) by (nonlinear_arith);
                assert(two_to((e + 1) as nat) <= d * two_to((e + 1) as nat)) by (nonlinear_arith)
                    requires
                        d >= 1,
                ;
                if e + 1 > 70 {
                    lemma_two_to_grows(71, (e + 1) as nat);
                    lemma_two_to_values();
                }
            }
            b = b * 2;
            e = e + 1;
        }
    }
    proof {
        assert(in_binade(n as nat, d as nat, e as int));
        let chosen = choose|x: int| in_binade(n as nat, d as nat, x);
        lemma_binade_unique(n as nat, d as nat, chosen, e as int);
    }
    let m = round_half_even_exec(a, b);
    assert(sig_low() <= m <= sig_high()) by (nonlinear_arith)
        requires
            m == round_half_even(a as nat, b as nat),
            sig_low() * b <= a,
            a < sig_high() * b,
            b > 0,
    {
        let q = a as nat / b as nat;
        vstd::arithmetic::div_mod::lemma_fundamental_div_mod(a as int, b as int);
    }
    (m, e)
}


/// 2 to the power `k`.
fn two_to_exec(k: u64) -> (r: u128)
    requires
        k <= 126,
    ensures
        r == two_to(k as nat),
{
    let mut r: u128 = 1;
    let mut i: u64 = 0;
    while i < k
        invariant
            i <= k <= 126,
            r == two_to(i as nat),
        decreases k - i,
    {
        proof {
            lemma_two_to_grows(i as nat + 1, 127);
            lemma_two_to_limit(127);
            lemma_two_to_adds(118, 9);
            assert(two_to(127) == 0x8000_0000_0000_0000_0000_0000_0000_0000) by {
                lemma_two_to_values();
                assert(two_to(9) == 512) by {
                    reveal_with_fuel(two_to, 10);
                }
                assert(two_to(118) * two_to(9) == 0x8000_0000_0000_0000_0000_0000_0000_0000) by (
                nonlinear_arith)
                    requires
                        two_to(118) == 0x40_0000_0000_0000_0000_0000_0000_0000,
                        two_to(9) == 512,
                ;
            }
            assert(two_to((i + 1) as nat) == 2 * two_to(i as nat));
        }
        r = r * 2;
        i = i + 1;
    }
    r
}

/// `round_half_away(m, e)`, kept at most 100.
#[verifier::spinoff_prover]
fn round_half_away_capped(m: u128, e: i64) -> (r: u16)
    requires
        sig_low() <= m <= sig_high(),
        -250 <= e <= 250,
    ensures
        r == (if round_half_away(m as nat, e as int) > 100 {
            100
        } else {
            round_half_away(m as nat, e as int)
        }),
{
    if e >= 0 {
        proof {
            lemma_two_to_adds(e as nat, 0);
        }
        assert(m * two_to(e as nat) >= m) by (nonlinear_arith)
            requires
                two_to(e as nat) >= 1,
        ;
        return 100;
    }
    let k = (0 - e) as u64;
    if k > 120 {
        proof {
            lemma_two_to_limit((k - 1) as nat);
            lemma_two_to_adds((k - 1) as nat, 1);
            assert(two_to(1) == 2 * two_to(0));
            let h: int = two_to((k - 1) as nat) as int;
            let mm: int = m as int;
            assert((mm + h) / (h * 2) == 0) by {
                vstd::arithmetic::div_mod::lemma_basic_div(mm + h, h * 2);
            }
        }
        return 0;
    }
    let half = two_to_exec(k - 1);
    let full = two_to_exec(k);
    proof {
        lemma_two_to_adds((k - 1) as nat, 1);
        assert(two_to(1) == 2 * two_to(0));
        lemma_two_to_grows((k - 1) as nat, 120);
        lemma_two_to_limit(118);
        lemma_two_to_grows(118, 120);
    }
    let v = (m + half) / full;
    if v > 100 {
        100
    } else {
        v as u16
    }
}

/// `usage_percent`: `used` over `total` in percent as doubles compute it:
/// both converted to the nearest double, divided, multiplied by 100 (each
/// result rounded to the nearest double), rounded to a whole number with
/// halves away from zero, and kept within 0..=100; 0 for an empty volume.
pub open spec fn usage_percent_spec(used: u64, total: u64) -> nat {
    if total == 0 {
        0
    } else {
        let a = nearest_f64(used as nat);
        let b = nearest_f64(total as nat);
        if a == 0 {
            0
        } else {
            let (m, e) = nearest_double(a, b);
            let (m2, e2) = nearest_double(100 * m, 1);
            let r = round_half_away(m2, e + e2);
            if r > 100 {
                100
            } else {
                r
            }
        }
    }
}

/// The share of a volume in use, in whole percent.
pub fn usage_percent(used: u64, total: u64) -> (p: u16)
    ensures
        p == usage_percent_spec(used, total),
{
    if total == 0 {
        return 0;
    }
    let a = nearest_f64_exec(used);
    let b = nearest_f64_exec(total);
    if a == 0 {
        return 0;
    }
    let (m, e) = nearest_double_exec(a, b);
    let (m2, e2) = nearest_double_exec(100 * m, 1);
    round_half_away_capped(m2, e + e2)
}


/// A volume is never shown more than full, and an empty volume, or one with
/// nothing used, shows 0%.
pub proof fn law_usage_percent_bounds(used: u64, total: u64)
    ensures
        usage_percent_spec(used, total) <= 100,
        total == 0 ==> usage_percent_spec(used, total) == 0,
        used == 0 ==> usage_percent_spec(used, total) == 0,
{
    if used == 0 {
        assert(nearest_f64(0) == 0) by {
            assert(f64_scale(0) == 1);
        }
    }
}


/// Rounding to the nearest integer is off by at most a half.
proof fn lemma_round_half_even_close(n: nat, d: nat)
    requires
        d > 0,
    ensures
        2 * (round_half_even(n, d) * d) <= 2 * n + d,
        2 * n <= 2 * (round_half_even(n, d) * d) + d,
{
    let q = n / d;
    let r = n % d;
    vstd::arithmetic::div_mod::lemma_fundamental_div_mod(n as int, d as int);
    assert(d * q + r == n);
    if 2 * r > d || (2 * r == d && q % 2 == 1) {
        assert((q + 1) * d == d * q + d) by (nonlinear_arith);
    } else {
        assert(q * d == d * q) by (nonlinear_arith);
    }
}

/// A count converts to a double off by at most 2^-53 of itself.
proof fn lemma_nearest_f64_close(u: nat)
    ensures
        sig_high() * nearest_f64(u) <= (sig_high() + 1) * u,
        (sig_high() - 1) * u <= sig_high() * nearest_f64(u),
{
    lemma_f64_scale_shape(u);
    let d = f64_scale(u);
    let a = nearest_f64(u);
    lemma_round_half_even_close(u, d);
    let m = round_half_even(u, d);
    assert(a == d * m) by (nonlinear_arith)
        requires
            a == (if 2 * (u % d) > d || (2 * (u % d) == d && (u / d) % 2 == 1) {
                (u / d + 1) * d
            } else {
                (u / d) * d
            }),
            m == round_half_even(u, d),
    ;
    if u < sig_high() {
        assert(d == 1);
        assert(a == u) by (nonlinear_arith)
            requires
                d == 1,
                a == d * m,
                2 * (m * d) <= 2 * u + d,
                2 * u <= 2 * (m * d) + d,
        ;
        assert(sig_high() * a <= (sig_high() + 1) * u && (sig_high() - 1) * u <= sig_high() * a)
            by (nonlinear_arith)
            requires
                a == u,
                sig_high() == 0x20_0000_0000_0000,
        ;
    } else {
        assert(sig_high() * a <= (sig_high() + 1) * u && (sig_high() - 1) * u <= sig_high() * a)
            by (nonlinear_arith)
            requires
                a == d * m,
                2 * (m * d) <= 2 * u + d,
                2 * u <= 2 * (m * d) + d,
                sig_low() * d <= u,
                sig_high() == 2 * sig_low(),
                d >= 1,
        ;
    }
}


/// The double nearest to `n / d`, scaled by 2^k, is off by at most 2^-53 of
/// the fraction scaled the same way.
#[verifier::spinoff_prover]
proof fn lemma_nearest_double_close(n: nat, d: nat, k: nat)
    requires
        n > 0,
        d > 0,
        k + nearest_double(n, d).1 >= 0,
    ensures
        ({
            let (m, e) = nearest_double(n, d);
            let v = m * two_to((k + e) as nat);
            &&& sig_high() * (v * d) <= (sig_high() + 1) * (n * two_to(k))
            &&& (sig_high() - 1) * (n * two_to(k)) <= sig_high() * (v * d)
        }),
{
    let e = lemma_binade_exists(n, d);
    let (sa, sb) = scaled(n, d, e);
    let m = round_half_even(sa, sb);
    assert(nearest_double(n, d) == (m, e));
    lemma_two_to_adds(0, 0);
    if e >= 0 {
        lemma_two_to_adds(e as nat, 0);
        assert(sb == d * two_to(e as nat));
        assert(sb > 0) by (nonlinear_arith)
            requires
                sb == d * two_to(e as nat),
                d > 0,
                two_to(e as nat) >= 1,
        ;
    }
    lemma_round_half_even_close(sa, sb);
    let c = sig_high();
    assert(c * (m * sb) <= (c + 1) * sa && (c - 1) * sa <= c * (m * sb)) by (nonlinear_arith)
        requires
            2 * (m * sb) <= 2 * sa + sb,
            2 * sa <= 2 * (m * sb) + sb,
            sig_low() * sb <= sa,
            c == 2 * sig_low(),
            sig_low() == 0x10_0000_0000_0000,
    ;
    let t = two_to(k);
    let g = two_to((k + e) as nat);
    let v = m * g;
    if e >= 0 {
        let x = two_to(e as nat);
        lemma_two_to_adds(k, e as nat);
        assert(g == t * x);
        assert(sa == n && sb == d * x);
        assert(c * (v * d) <= (c + 1) * (n * t) && (c - 1) * (n * t) <= c * (v * d))
            by (nonlinear_arith)
            requires
                c * (m * sb) <= (c + 1) * sa,
                (c - 1) * sa <= c * (m * sb),
                sa == n,
                sb == d * x,
                g == t * x,
                v == m * g,
                t >= 1,
        ;
    } else {
        let y = two_to((-e) as nat);
        lemma_two_to_adds((k + e) as nat, (-e) as nat);
        assert(((k + e) as nat + (-e) as nat) == k);
        assert(t == g * y);
        assert(sa == n * y && sb == d);
        lemma_two_to_adds((k + e) as nat, 0);
        assert(c * (v * d) <= (c + 1) * (n * t) && (c - 1) * (n * t) <= c * (v * d))
            by (nonlinear_arith)
            requires
                c * (m * sb) <= (c + 1) * sa,
                (c - 1) * sa <= c * (m * sb),
                sa == n * y,
                sb == d,
                t == g * y,
                v == m * g,
                g >= 1,
        ;
    }
}

/// Rounding m · 2^e, scaled by 2^k, with halves away from zero is off by at
/// most a half.
proof fn lemma_round_half_away_close(m: nat, e: int, k: nat)
    requires
        k >= 1,
        k + e >= 0,
    ensures
        round_half_away(m, e) * two_to(k) <= m * two_to((k + e) as nat) + two_to((k - 1) as nat),
        m * two_to((k + e) as nat) + two_to((k - 1) as nat) < round_half_away(m, e) * two_to(k)
            + two_to(k),
{
    let t = two_to(k);
    let h = two_to((k - 1) as nat);
    lemma_two_to_adds((k - 1) as nat, 1);
    lemma_two_to_adds(0, 0);
    assert(two_to(1) == 2 * two_to(0));
    assert(t == 2 * h);
    let r = round_half_away(m, e);
    if e >= 0 {
        let x = two_to(e as nat);
        lemma_two_to_adds(e as nat, k);
        assert((e as nat + k) == (k + e) as nat);
        assert(r * t == m * two_to((k + e) as nat)) by (nonlinear_arith)
            requires
                r == m * x,
                two_to((k + e) as nat) == x * t,
        ;
        lemma_two_to_adds((k - 1) as nat, 0);
    } else {
        let j = (-e) as nat;
        let w = two_to(j);
        let hw = two_to((j - 1) as nat);
        let g = two_to((k + e) as nat);
        lemma_two_to_adds((j - 1) as nat, 1);
        assert(w == 2 * hw);
        lemma_two_to_adds(j, (k + e) as nat);
        assert(j + (k + e) as nat == k);
        assert(t == w * g);
        lemma_two_to_adds((j - 1) as nat, (k + e) as nat);
        assert((j - 1) as nat + (k + e) as nat == (k - 1) as nat);
        assert(h == hw * g);
        lemma_two_to_adds(j, 0);
        lemma_two_to_adds((k + e) as nat, 0);
        vstd::arithmetic::div_mod::lemma_fundamental_div_mod((m + hw) as int, w as int);
        assert(r == (m + hw) / w);
        assert(r * t <= m * g + h && m * g + h < r * t + t) by (nonlinear_arith)
            requires
                w * r + (m + hw) % w == m + hw,
                0 <= (m + hw) % w < w,
                t == w * g,
                h == hw * g,
                g >= 1,
        {
            vstd::arithmetic::div_mod::lemma_mod_bound((m + hw) as int, w as int);
        }
    }
}


/// Rounding to the nearest integer keeps the order of fractions.
#[verifier::spinoff_prover]
proof fn lemma_round_half_even_order(n1: nat, d1: nat, n2: nat, d2: nat)
    requires
        d1 > 0,
        d2 > 0,
        n1 * d2 <= n2 * d1,
    ensures
        round_half_even(n1, d1) <= round_half_even(n2, d2),
{
    let (q1, q2) = (n1 / d1, n2 / d2);
    let (r1, r2) = (n1 % d1, n2 % d2);
    vstd::arithmetic::div_mod::lemma_fundamental_div_mod(n1 as int, d1 as int);
    vstd::arithmetic::div_mod::lemma_fundamental_div_mod(n2 as int, d2 as int);
    assert(q1 <= q2) by (nonlinear_arith)
        requires
            d1 * q1 + r1 == n1,
            d2 * q2 + r2 == n2,
            r1 >= 0,
            r2 < d2,
            n1 * d2 <= n2 * d1,
            d1 > 0,
            d2 > 0,
    ;
    if q1 == q2 {
        assert(r1 * d2 <= r2 * d1) by (nonlinear_arith)
            requires
                d1 * q1 + r1 == n1,
                d2 * q1 + r2 == n2,
                n1 * d2 <= n2 * d1,
        ;
        if 2 * r1 > d1 {
            assert(2 * r2 > d2) by (nonlinear_arith)
                requires
                    r1 * d2 <= r2 * d1,
                    2 * r1 > d1,
                    d1 > 0,
                    d2 > 0,
            ;
        } else if 2 * r1 == d1 {
            assert(2 * r2 >= d2) by (nonlinear_arith)
                requires
                    r1 * d2 <= r2 * d1,
                    2 * r1 == d1,
                    d1 > 0,
                    d2 > 0,
            ;
        }
    }
}

/// The bounds of a fraction's binade, scaled by 2^k.
proof fn lemma_binade_scaled(n: nat, d: nat, e: int, k: nat)
    requires
        in_binade(n, d, e),
        k + e >= 0,
    ensures
        sig_low() * (d * two_to((k + e) as nat)) <= n * two_to(k),
        n * two_to(k) < sig_high() * (d * two_to((k + e) as nat)),
{
    let (sa, sb) = scaled(n, d, e);
    let t = two_to(k);
    let g = two_to((k + e) as nat);
    if e >= 0 {
        let x = two_to(e as nat);
        lemma_two_to_adds(k, e as nat);
        assert(g == t * x);
        lemma_two_to_adds(k, 0);
        assert(sig_low() * (d * g) <= n * t && n * t < sig_high() * (d * g)) by (nonlinear_arith)
            requires
                sig_low() * (d * x) <= n,
                n < sig_high() * (d * x),
                g == t * x,
                t >= 1,
        ;
    } else {
        let y = two_to((-e) as nat);
        lemma_two_to_adds((k + e) as nat, (-e) as nat);
        assert(((k + e) as nat + (-e) as nat) == k);
        assert(t == g * y);
        lemma_two_to_adds((k + e) as nat, 0);
        assert(sig_low() * (d * g) <= n * t && n * t < sig_high() * (d * g)) by (nonlinear_arith)
            requires
                sig_low() * d <= n * y,
                n * y < sig_high() * d,
                t == g * y,
                g >= 1,
        ;
    }
}

/// The nearest doubles of two fractions keep their order, shown at a common
/// scale 2^k; a smaller fraction has no larger exponent, and with the same
/// exponent no larger significand.
#[verifier::spinoff_prover]
proof fn lemma_nearest_double_order(n1: nat, d1: nat, n2: nat, d2: nat, k: nat)
    requires
        n1 > 0,
        d1 > 0,
        n2 > 0,
        d2 > 0,
        n1 * d2 <= n2 * d1,
        k + nearest_double(n1, d1).1 >= 0,
        k + nearest_double(n2, d2).1 >= 0,
    ensures
        nearest_double(n1, d1).1 <= nearest_double(n2, d2).1,
        nearest_double(n1, d1).1 == nearest_double(n2, d2).1 ==> nearest_double(n1, d1).0
            <= nearest_double(n2, d2).0,
        nearest_double(n1, d1).0 * two_to((k + nearest_double(n1, d1).1) as nat)
            <= nearest_double(n2, d2).0 * two_to((k + nearest_double(n2, d2).1) as nat),
{
    let e1 = lemma_binade_exists(n1, d1);
    let e2 = lemma_binade_exists(n2, d2);
    let (sa1, sb1) = scaled(n1, d1, e1);
    let (sa2, sb2) = scaled(n2, d2, e2);
    let m1 = round_half_even(sa1, sb1);
    let m2 = round_half_even(sa2, sb2);
    assert(nearest_double(n1, d1) == (m1, e1));
    assert(nearest_double(n2, d2) == (m2, e2));
    lemma_binade_scaled(n1, d1, e1, k);
    lemma_binade_scaled(n2, d2, e2, k);
    let g1 = two_to((k + e1) as nat);
    let g2 = two_to((k + e2) as nat);
    let t = two_to(k);
    lemma_two_to_adds(k, 0);
    lemma_two_to_adds((k + e1) as nat, 0);
    lemma_two_to_adds((k + e2) as nat, 0);
    if e1 > e2 {
        lemma_two_to_adds((k + e2) as nat, 1);
        assert(two_to(1) == 2 * two_to(0));
        lemma_two_to_grows((k + e2 + 1) as nat, (k + e1) as nat);
        assert(g1 >= 2 * g2);
        assert(false) by (nonlinear_arith)
            requires
                sig_low() * (d1 * g1) <= n1 * t,
                n2 * t < sig_high() * (d2 * g2),
                g1 >= 2 * g2,
                sig_high() == 2 * sig_low(),
                n1 * d2 <= n2 * d1,
                d1 > 0,
                d2 > 0,
                t > 0,
                g2 > 0,
        ;
    }
    assert(sb1 > 0 && sb2 > 0) by {
        if e1 >= 0 {
            lemma_two_to_adds(e1 as nat, 0);
            assert(d1 * two_to(e1 as nat) > 0) by (nonlinear_arith)
                requires
                    d1 > 0,
                    two_to(e1 as nat) >= 1,
            ;
        }
        if e2 >= 0 {
            lemma_two_to_adds(e2 as nat, 0);
            assert(d2 * two_to(e2 as nat) > 0) by (nonlinear_arith)
                requires
                    d2 > 0,
                    two_to(e2 as nat) >= 1,
            ;
        }
    }
    if e1 == e2 {
        if e1 >= 0 {
            let x = two_to(e1 as nat);
            assert(sa1 * sb2 <= sa2 * sb1) by (nonlinear_arith)
                requires
                    sa1 == n1,
                    sa2 == n2,
                    sb1 == d1 * x,
                    sb2 == d2 * x,
                    n1 * d2 <= n2 * d1,
                    x >= 0,
            ;
        } else {
            let y = two_to((-e1) as nat);
            assert(sa1 * sb2 <= sa2 * sb1) by (nonlinear_arith)
                requires
                    sa1 == n1 * y,
                    sa2 == n2 * y,
                    sb1 == d1,
                    sb2 == d2,
                    n1 * d2 <= n2 * d1,
                    y >= 0,
            ;
        }
        lemma_round_half_even_order(sa1, sb1, sa2, sb2);
        assert(m1 * g1 <= m2 * g2) by (nonlinear_arith)
            requires
                m1 <= m2,
                g1 == g2,
        ;
    } else {
        lemma_round_half_even_grows(sa1, sa1, sb1);
        lemma_round_half_even_grows(sa2, sa2, sb2);
        vstd::arithmetic::div_mod::lemma_fundamental_div_mod(sa1 as int, sb1 as int);
        vstd::arithmetic::div_mod::lemma_fundamental_div_mod(sa2 as int, sb2 as int);
        assert(sa1 / sb1 < sig_high()) by (nonlinear_arith)
            requires
                sb1 * (sa1 / sb1) + sa1 % sb1 == sa1,
                sa1 % sb1 >= 0,
                sa1 < sig_high() * sb1,
                sb1 > 0,
        ;
        assert(sa2 / sb2 >= sig_low()) by (nonlinear_arith)
            requires
                sb2 * (sa2 / sb2) + sa2 % sb2 == sa2,
                sa2 % sb2 < sb2,
                sig_low() * sb2 <= sa2,
                sb2 > 0,
        ;
        lemma_two_to_adds((k + e1) as nat, 1);
        assert(two_to(1) == 2 * two_to(0));
        lemma_two_to_grows((k + e1 + 1) as nat, (k + e2) as nat);
        assert(m1 * g1 <= m2 * g2) by (nonlinear_arith)
            requires
                m1 <= sig_high(),
                m2 >= sig_low(),
                sig_high() == 2 * sig_low(),
                2 * g1 <= g2,
                g1 >= 0,
        ;
    }
}

/// A volume used to its size or beyond shows 100%.
#[verifier::spinoff_prover]
pub proof fn law_full_volume(used: u64, total: u64)
    requires
        0 < total <= used,
    ensures
        usage_percent_spec(used, total) == 100,
{
    let a = nearest_f64(used as nat);
    let b = nearest_f64(total as nat);
    lemma_nearest_f64_grows(total as nat, used as nat);
    crate::utils::lemma_nearest_f64_positive(total as nat);
    let e = lemma_binade_exists(a, b);
    let (sa, sb) = scaled(a, b, e);
    let m = round_half_even(sa, sb);
    assert(sb > 0) by {
        if e >= 0 {
            lemma_two_to_adds(e as nat, 0);
            assert(b * two_to(e as nat) > 0) by (nonlinear_arith)
                requires
                    b > 0,
                    two_to(e as nat) >= 1,
            ;
        }
    }
    // the quotient is at least 1: its exponent is at least -52
    assert(e >= -52) by {
        if e < -52 {
            let k = (-e) as nat;
            lemma_two_to_grows(52, k);
            lemma_two_to_values();
            lemma_two_to_adds(52, 1);
            assert(two_to(1) == 2 * two_to(0));
            lemma_two_to_grows(53, k);
            assert(false) by (nonlinear_arith)
                requires
                    a * two_to(k) < sig_high() * b,
                    a >= b,
                    b > 0,
                    two_to(k) >= two_to(53),
                    two_to(53) == 2 * sig_low(),
                    sig_high() == 2 * sig_low(),
            ;
        }
    }
    lemma_round_half_even_grows(sa, sa, sb);
    assert(m >= sig_low()) by {
        vstd::arithmetic::div_mod::lemma_fundamental_div_mod(sa as int, sb as int);
        assert(sa / sb >= sig_low()) by (nonlinear_arith)
            requires
                sb * (sa / sb) + sa % sb == sa,
                sa % sb < sb,
                sig_low() * sb <= sa,
                sb > 0,
        ;
    }
    assert(nearest_double(a, b) == (m, e));
    // a hundred times the quotient: its exponent is not negative
    let n2 = 100 * m;
    let e2 = lemma_binade_exists(n2, 1);
    lemma_two_to_values();
    assert(two_to(1) == 2 * two_to(0));
    assert(e2 >= 0) by {
        if e2 < 0 {
            let k = (-e2) as nat;
            lemma_two_to_grows(1, k);
            assert(false) by (nonlinear_arith)
                requires
                    n2 * two_to(k) < sig_high() * 1,
                    two_to(k) >= 2,
                    n2 == 100 * m,
                    m >= sig_low(),
                    sig_high() == 2 * sig_low(),
            ;
        }
    }
    let p = two_to(e2 as nat);
    lemma_two_to_adds(e2 as nat, 0);
    assert(1 * p == p);
    assert(scaled(n2, 1, e2) == (n2, p));
    let m2 = round_half_even(n2, p);
    assert(nearest_double(n2, 1) == (m2, e2));
    let q = n2 / p;
    lemma_round_half_even_grows(n2, n2, p);
    vstd::arithmetic::div_mod::lemma_fundamental_div_mod(n2 as int, p as int);
    assert(q >= sig_low()) by (nonlinear_arith)
        requires
            p * q + n2 % p == n2,
            n2 % p < p,
            sig_low() * p <= n2,
            p > 0,
    ;
    let ex = e + e2;
    if ex >= 0 {
        lemma_two_to_adds(ex as nat, 0);
        assert(m2 * two_to(ex as nat) >= m2) by (nonlinear_arith)
            requires
                two_to(ex as nat) >= 1,
        ;
        assert(round_half_away(m2, ex) >= 100);
    } else {
        let big_k = (-e) as nat;
        let k = (-ex) as nat;
        assert(k >= 1 && big_k == k + e2 as nat);
        let t = two_to(k);
        let h = two_to((k - 1) as nat);
        lemma_two_to_adds((k - 1) as nat, 1);
        assert(t == 2 * h);
        lemma_two_to_adds(k, e2 as nat);
        assert(two_to(big_k) == t * p);
        lemma_two_to_grows(big_k, 52);
        assert(m >= t * p);
        assert(2 * p <= m) by (nonlinear_arith)
            requires
                sig_low() * p <= 100 * m,
                sig_low() == 0x10_0000_0000_0000,
        ;
        assert(m2 + h >= 100 * t) by (nonlinear_arith)
            requires
                m2 >= q,
                p * q + n2 % p == n2,
                n2 % p < p,
                n2 == 100 * m,
                m >= t * p,
                2 * p <= m,
                t == 2 * h,
                p > 0,
        ;
        lemma_two_to_adds(k, 0);
        assert((m2 + h) / t >= 100) by {
            vstd::arithmetic::div_mod::lemma_div_is_ordered((100 * t) as int, (m2 + h) as int, t as int);
            vstd::arithmetic::div_mod::lemma_div_multiples_vanish(100, t as int);
        }
        assert(round_half_away(m2, ex) == (m2 + h) / t);
    }
}


/// `a + b`, or the largest count when that overflows.
pub open spec fn saturating_add(a: u64, b: u64) -> u64 {
    if a + b > u64::MAX {
        u64::MAX
    } else {
        (a + b) as u64
    }
}

/// The sum of `s`, kept at the largest count once it overflows.
pub open spec fn saturating_sum(s: Seq<u64>) -> u64
    decreases s.len(),
{
    if s.len() == 0 {
        0
    } else {
        saturating_add(saturating_sum(s.drop_last()), s.last())
    }
}


/// The percentage is the share in percent rounded to the nearest whole
/// number, up to the rounding of doubles: for a volume used at most to its
/// size it lies within a half, plus 2^-30, of 100 · used / total.
#[verifier::spinoff_prover]
pub proof fn law_usage_percent_rounds(used: u64, total: u64)
    requires
        0 < total,
        used <= total,
    ensures
        0x8000_0000 * (usage_percent_spec(used, total) * total) <= 0x8000_0000 * (100 * used)
            + 0x4000_0002 * total,
        0x8000_0000 * (100 * used) <= 0x8000_0000 * (usage_percent_spec(used, total) * total)
            + 0x4000_0002 * total,
{
    law_usage_percent_bounds(used, total);
    if used == 0 {
        return;
    }
    let (u, t) = (used as nat, total as nat);
    let a = nearest_f64(u);
    let b = nearest_f64(t);
    lemma_nearest_f64_positive(u);
    lemma_nearest_f64_positive(t);
    lemma_nearest_f64_close(u);
    lemma_nearest_f64_close(t);
    lemma_two_to_values();
    let c: int = sig_high() as int;
    // the quotient: its exponent is above -128
    let e = lemma_binade_exists(a, b);
    let (sa, sb) = scaled(a, b, e);
    let m = round_half_even(sa, sb);
    assert(nearest_double(a, b) == (m, e));
    assert(e >= -118) by {
        if e < -118 {
            let j = (-e) as nat;
            lemma_two_to_limit(j);
            assert(false) by (nonlinear_arith)
                requires
                    a * two_to(j) < sig_high() * b,
                    a >= 1,
                    two_to(j) >= 0x40_0000_0000_0000_0000_0000_0000_0000,
                    sig_high() * b <= (sig_high() + 1) * t,
                    t < 0x1_0000_0000_0000_0000,
                    sig_high() == 0x20_0000_0000_0000,
            ;
        }
    }
    assert(sb > 0) by {
        if e >= 0 {
            lemma_two_to_adds(e as nat, 0);
            assert(b * two_to(e as nat) > 0) by (nonlinear_arith)
                requires
                    b > 0,
                    two_to(e as nat) >= 1,
            ;
        }
    }
    lemma_round_half_even_grows(sa, sa, sb);
    assert(m >= sig_low()) by {
        vstd::arithmetic::div_mod::lemma_fundamental_div_mod(sa as int, sb as int);
        assert(sa / sb >= sig_low()) by (nonlinear_arith)
            requires
                sb * (sa / sb) + sa % sb == sa,
                sa % sb < sb,
                sig_low() * sb <= sa,
                sb > 0,
        ;
    }
    let k: nat = 128;
    let s_k = two_to(k);
    let h = two_to((k - 1) as nat);
    lemma_two_to_adds((k - 1) as nat, 1);
    assert(two_to(1) == 2 * two_to(0));
    assert(s_k == 2 * h);
    lemma_two_to_adds((k - 1) as nat, 0);
    lemma_nearest_double_close(a, b, k);
    let q = m * two_to((k + e) as nat);
    // a hundred times the quotient
    let n2 = 100 * m;
    let e2 = lemma_binade_exists(n2, 1);
    assert(e2 >= 0) by {
        if e2 < 0 {
            let j = (-e2) as nat;
            lemma_two_to_grows(1, j);
            assert(false) by (nonlinear_arith)
                requires
                    n2 * two_to(j) < sig_high() * 1,
                    two_to(j) >= 2,
                    n2 == 100 * m,
                    m >= sig_low(),
                    sig_high() == 2 * sig_low(),
            ;
        }
    }
    let k2 = (k + e) as nat;
    lemma_nearest_double_close(n2, 1, k2);
    let m2 = nearest_double(n2, 1).0;
    assert(nearest_double(n2, 1).1 == e2);
    let ex = e + e2;
    assert((k2 + e2) as nat == (k + ex) as nat);
    let p = m2 * two_to((k + ex) as nat);
    assert(n2 * two_to(k2) == 100 * q) by (nonlinear_arith)
        requires
            n2 == 100 * m,
            q == m * two_to(k2),
    ;
    lemma_round_half_away_close(m2, ex, k);
    let r0 = round_half_away(m2, ex);
    // the facts, as integers
    let (ai, bi, ui, ti, qi, pi, ri, si, hi) = (
        a as int,
        b as int,
        u as int,
        t as int,
        q as int,
        p as int,
        r0 as int,
        s_k as int,
        h as int,
    );
    assert(c * pi <= (c + 1) * (100 * qi) && (c - 1) * (100 * qi) <= c * pi) by {
        assert(p * 1 == p) by (nonlinear_arith);
    }
    assert(c * (qi * bi) <= (c + 1) * (ai * si) && (c - 1) * (ai * si) <= c * (qi * bi));
    assert(c * ai <= (c + 1) * ui && (c - 1) * ui <= c * ai);
    assert(c * bi <= (c + 1) * ti && (c - 1) * ti <= c * bi);
    assert(ri * si <= pi + hi && pi + hi < ri * si + si);
    // upper bound
    assert(c * (c - 1) * (c * (pi * ti)) <= (c + 1) * (c + 1) * (c + 1) * (100 * (ui * si)))
        by (nonlinear_arith)
        requires
            c * pi <= (c + 1) * (100 * qi),
            c * (qi * bi) <= (c + 1) * (ai * si),
            c * ai <= (c + 1) * ui,
            (c - 1) * ti <= c * bi,
            c > 1,
            pi >= 0,
            qi >= 0,
            ti > 0,
            si > 0,
            ai >= 0,
    ;
    assert(2 * c * c * (c - 1) * (ri * ti) <= 2 * (c + 1) * (c + 1) * (c + 1) * (100 * ui) + c * c
        * (c - 1) * ti) by (nonlinear_arith)
        requires
            c * (c - 1) * (c * (pi * ti)) <= (c + 1) * (c + 1) * (c + 1) * (100 * (ui * si)),
            ri * si <= pi + hi,
            si == 2 * hi,
            hi > 0,
            ti > 0,
            c > 1,
    ;
    let x = ri * ti;
    assert(0x8000_0000 * x <= 0x8000_0000 * (100 * ui) + 0x4000_0002 * ti) by (nonlinear_arith)
        requires
            2 * c * c * (c - 1) * x <= 2 * (c + 1) * (c + 1) * (c + 1) * (100 * ui) + c * c * (c
                - 1) * ti,
            c == 0x20_0000_0000_0000,
            0 <= ui <= ti,
    ;
    // lower bound
    assert((c - 1) * (c - 1) * (c - 1) * (100 * (ui * si)) <= c * c * (c + 1) * (pi * ti))
        by (nonlinear_arith)
        requires
            (c - 1) * (100 * qi) <= c * pi,
            (c - 1) * (ai * si) <= c * (qi * bi),
            (c - 1) * ui <= c * ai,
            c * bi <= (c + 1) * ti,
            c > 1,
            pi >= 0,
            qi >= 0,
            ti > 0,
            si > 0,
            ui >= 0,
    ;
    assert(2 * (c - 1) * (c - 1) * (c - 1) * (100 * ui) <= c * c * (c + 1) * (2 * (ri * ti) + ti))
        by (nonlinear_arith)
        requires
            (c - 1) * (c - 1) * (c - 1) * (100 * (ui * si)) <= c * c * (c + 1) * (pi * ti),
            pi + hi < ri * si + si,
            si == 2 * hi,
            hi > 0,
            ti > 0,
            c > 1,
    ;
    assert(0x8000_0000 * (100 * ui) <= 0x8000_0000 * x + 0x4000_0002 * ti) by (nonlinear_arith)
        requires
            2 * (c - 1) * (c - 1) * (c - 1) * (100 * ui) <= c * c * (c + 1) * (2 * x + ti),
            0x8000_0000 * x <= 0x8000_0000 * (100 * ui) + 0x4000_0002 * ti,
            c == 0x20_0000_0000_0000,
            0 <= ui <= ti,
    ;
    // the cap does not apply
    assert(ri <= 100) by (nonlinear_arith)
        requires
            0x8000_0000 * (ri * ti) <= 0x8000_0000 * (100 * ui) + 0x4000_0002 * ti,
            0 <= ui <= ti,
            ti > 0,
            ri >= 0,
    ;
    assert(usage_percent_spec(used, total) == r0);
}


/// The quotient of two converted counts, the divisor below 2^64 + 2^11:
/// its exponent is at least -118, its significand in [2^52, 2^53].
proof fn lemma_quotient_parts(a: nat, b: nat)
    requires
        a >= 1,
        b >= 1,
        b <= 0x1_0000_0000_0000_0800,
    ensures
        nearest_double(a, b).1 >= -118,
        sig_low() <= nearest_double(a, b).0 <= sig_high(),
{
    let e = lemma_binade_exists(a, b);
    let (sa, sb) = scaled(a, b, e);
    let m = round_half_even(sa, sb);
    assert(nearest_double(a, b) == (m, e));
    if e < -118 {
        let j = (-e) as nat;
        lemma_two_to_limit(j);
        assert(false) by (nonlinear_arith)
            requires
                a * two_to(j) < sig_high() * b,
                a >= 1,
                two_to(j) >= 0x40_0000_0000_0000_0000_0000_0000_0000,
                b <= 0x1_0000_0000_0000_0800,
                sig_high() == 0x20_0000_0000_0000,
        ;
    }
    if e >= 0 {
        lemma_two_to_adds(e as nat, 0);
        assert(b * two_to(e as nat) > 0) by (nonlinear_arith)
            requires
                b > 0,
                two_to(e as nat) >= 1,
        ;
    }
    lemma_round_half_even_grows(sa, sa, sb);
    vstd::arithmetic::div_mod::lemma_fundamental_div_mod(sa as int, sb as int);
    assert(sig_low() <= sa / sb < sig_high()) by (nonlinear_arith)
        requires
            sb * (sa / sb) + sa % sb == sa,
            0 <= sa % sb < sb,
            sig_low() * sb <= sa,
            sa < sig_high() * sb,
            sb > 0,
    ;
}

/// A hundred times a significand has a non-negative exponent.
proof fn lemma_hundredfold_exponent(m: nat)
    requires
        m >= sig_low(),
    ensures
        nearest_double(100 * m, 1).1 >= 0,
{
    let e = lemma_binade_exists(100 * m, 1);
    if e < 0 {
        let j = (-e) as nat;
        lemma_two_to_grows(1, j);
        assert(two_to(1) == 2 * two_to(0));
        assert(false) by (nonlinear_arith)
            requires
                (100 * m) * two_to(j) < sig_high() * 1,
                two_to(j) >= 2,
                m >= sig_low(),
                sig_high() == 2 * sig_low(),
        ;
    }
}

/// A hundred times the largest and the smallest significand, as doubles.
proof fn lemma_hundredfold_ends()
    ensures
        nearest_double(100 * sig_high(), 1) == (100 * 0x4000_0000_0000nat, 7int),
        nearest_double(100 * sig_low(), 1) == (100 * 0x4000_0000_0000nat, 6int),
{
    lemma_two_to_values();
    let (hi, lo) = (100 * sig_high(), 100 * sig_low());
    assert(scaled(hi, 1, 7) == (hi, 1 * two_to(7)));
    assert(scaled(lo, 1, 6) == (lo, 1 * two_to(6)));
    assert(in_binade(hi, 1, 7));
    assert(in_binade(lo, 1, 6));
    let eh = choose|x: int| in_binade(hi, 1, x);
    let el = choose|x: int| in_binade(lo, 1, x);
    lemma_binade_unique(hi, 1, eh, 7);
    lemma_binade_unique(lo, 1, el, 6);
    let mm: nat = 100 * 0x4000_0000_0000nat;
    assert(hi == mm * 128 && lo == mm * 64);
    vstd::arithmetic::div_mod::lemma_div_multiples_vanish(mm as int, 128);
    vstd::arithmetic::div_mod::lemma_mod_multiples_basic(mm as int, 128);
    vstd::arithmetic::div_mod::lemma_div_multiples_vanish(mm as int, 64);
    vstd::arithmetic::div_mod::lemma_mod_multiples_basic(mm as int, 64);
    assert(round_half_even(hi, 128) == mm);
    assert(round_half_even(lo, 64) == mm);
}

/// Using more of a volume never shows a smaller percentage.
#[verifier::spinoff_prover]
pub proof fn law_usage_percent_grows(used1: u64, used2: u64, total: u64)
    requires
        used1 <= used2,
    ensures
        usage_percent_spec(used1, total) <= usage_percent_spec(used2, total),
{
    if total == 0 {
        return;
    }
    let a1 = nearest_f64(used1 as nat);
    let a2 = nearest_f64(used2 as nat);
    let b = nearest_f64(total as nat);
    lemma_nearest_f64_grows(used1 as nat, used2 as nat);
    if a1 == 0 {
        return;
    }
    lemma_nearest_f64_positive(total as nat);
    lemma_nearest_f64_close(total as nat);
    assert(b <= 0x1_0000_0000_0000_0800) by (nonlinear_arith)
        requires
            sig_high() * b <= (sig_high() + 1) * total,
            total < 0x1_0000_0000_0000_0000,
            sig_high() == 0x20_0000_0000_0000,
    ;
    lemma_quotient_parts(a1, b);
    lemma_quotient_parts(a2, b);
    let (m1, e1) = nearest_double(a1, b);
    let (m2, e2) = nearest_double(a2, b);
    let k: nat = 128;
    assert(a1 * b <= a2 * b) by (nonlinear_arith)
        requires
            a1 <= a2,
    ;
    lemma_nearest_double_order(a1, b, a2, b, k);
    lemma_hundredfold_exponent(m1);
    lemma_hundredfold_exponent(m2);
    let (f1, x1) = nearest_double(100 * m1, 1);
    let (f2, x2) = nearest_double(100 * m2, 1);
    let (k1, k2) = ((k + e1) as nat, (k + e2) as nat);
    let p1 = f1 * two_to((k1 + x1) as nat);
    let p2 = f2 * two_to((k2 + x2) as nat);
    if e1 == e2 {
        assert(100 * m1 * 1 <= 100 * m2 * 1);
        lemma_nearest_double_order(100 * m1, 1, 100 * m2, 1, k1);
    } else {
        let mm: nat = 100 * 0x4000_0000_0000nat;
        lemma_hundredfold_ends();
        lemma_nearest_double_order(100 * m1, 1, 100 * sig_high(), 1, k1);
        lemma_nearest_double_order(100 * sig_low(), 1, 100 * m2, 1, k2);
        lemma_two_to_grows((k1 + 7) as nat, (k2 + 6) as nat);
        assert(mm * two_to((k1 + 7) as nat) <= mm * two_to((k2 + 6) as nat)) by (nonlinear_arith)
            requires
                two_to((k1 + 7) as nat) <= two_to((k2 + 6) as nat),
        ;
    }
    assert(p1 <= p2);
    let (ex1, ex2) = (e1 + x1, e2 + x2);
    assert((k1 + x1) as nat == (k + ex1) as nat);
    assert((k2 + x2) as nat == (k + ex2) as nat);
    lemma_round_half_away_close(f1, ex1, k);
    lemma_round_half_away_close(f2, ex2, k);
    let r1 = round_half_away(f1, ex1);
    let r2 = round_half_away(f2, ex2);
    let s_k = two_to(k);
    let h = two_to((k - 1) as nat);
    assert(r1 <= r2) by (nonlinear_arith)
        requires
            r1 * s_k <= p1 + h,
            p2 + h < r2 * s_k + s_k,
            p1 <= p2,
            s_k > 0,
    ;
}

/// A fraction that equals a significand times a power of two is that double.
#[verifier::spinoff_prover]
proof fn lemma_exact_double(n: nat, d: nat, mm: nat, e: int)
    requires
        n > 0,
        d > 0,
        sig_low() <= mm < sig_high(),
        scaled(n, d, e).0 == mm * scaled(n, d, e).1,
    ensures
        nearest_double(n, d) == (mm, e),
{
    let (a, b) = scaled(n, d, e);
    if e >= 0 {
        lemma_two_to_adds(e as nat, 0);
        assert(d * two_to(e as nat) > 0) by (nonlinear_arith)
            requires
                d > 0,
                two_to(e as nat) >= 1,
        ;
    }
    assert(b > 0);
    assert(in_binade(n, d, e)) by (nonlinear_arith)
        requires
            a == mm * b,
            b > 0,
            sig_low() <= mm < sig_high(),
            scaled(n, d, e) == (a, b),
            in_binade(n, d, e) == (sig_low() * b <= a && a < sig_high() * b),
    ;
    let chosen = choose|x: int| in_binade(n, d, x);
    lemma_binade_unique(n, d, chosen, e);
    vstd::arithmetic::div_mod::lemma_div_multiples_vanish(mm as int, b as int);
    vstd::arithmetic::div_mod::lemma_mod_multiples_basic(mm as int, b as int);
    assert(b * mm == mm * b) by (nonlinear_arith);
    assert(round_half_even(a, b) == mm);
}

/// A positive count below 2^53 doubled often enough lands in [2^52, 2^53).
proof fn lemma_significand_shift(n: nat) -> (g: nat)
    requires
        0 < n < sig_high(),
    ensures
        sig_low() <= n * two_to(g) < sig_high(),
    decreases sig_high() - n,
{
    if n >= sig_low() {
        assert(two_to(0) == 1);
        assert(n * 1 == n) by (nonlinear_arith);
        0
    } else {
        let g = lemma_significand_shift(2 * n);
        lemma_two_to_adds(1, g);
        assert(two_to(1) == 2 * two_to(0));
        assert(n * two_to(1 + g) == 2 * n * two_to(g)) by (nonlinear_arith)
            requires
                two_to(1 + g) == 2 * two_to(g),
        ;
        1 + g
    }
}

/// When both counts are exact as doubles and the share `used / total` is
/// `n / 2^k` with `100 · n` below 2^53, every step is exact and the
/// percentage is `100 · used / total` rounded to the nearest whole number,
/// halves rounded up.
#[verifier::spinoff_prover]
pub proof fn law_usage_percent_exact(used: u64, total: u64, n: nat, k: nat)
    requires
        0 < total,
        used <= total,
        nearest_f64(used as nat) == used,
        nearest_f64(total as nat) == total,
        total * n == used * two_to(k),
        100 * n < sig_high(),
    ensures
        2 * usage_percent_spec(used, total) * total <= 200 * used + total,
        200 * used + total < 2 * usage_percent_spec(used, total) * total + 2 * total,
{
    let (u, t) = (used as nat, total as nat);
    if used == 0 {
        let r = usage_percent_spec(used, total);
        assert(r == 0);
        assert(2 * r * t <= 200 * u + t && 200 * u + t < 2 * r * t + 2 * t) by (nonlinear_arith)
            requires
                r == 0,
                u == 0,
                t > 0,
        ;
        return;
    }
    lemma_two_to_adds(k, 0);
    assert(n > 0) by (nonlinear_arith)
        requires
            t * n == u * two_to(k),
            u > 0,
            two_to(k) >= 1,
    ;
    // the share as a double: n · 2^g · 2^-(k + g)
    let g = lemma_significand_shift(n);
    let mm = n * two_to(g);
    let ee = -((k + g) as int);
    lemma_two_to_adds(k, g);
    assert(two_to(0) == 1);
    assert(u * 1 == u && t * 1 == t) by (nonlinear_arith);
    assert(scaled(u, t, ee) == (u * two_to(k + g), t));
    assert(u * two_to(k + g) == mm * t) by (nonlinear_arith)
        requires
            t * n == u * two_to(k),
            two_to(k + g) == two_to(k) * two_to(g),
            mm == n * two_to(g),
    ;
    lemma_exact_double(u, t, mm, ee);
    // a hundred times it: 100 · n · 2^h · 2^(g - h)
    let h = lemma_significand_shift(100 * n);
    let m2 = 100 * n * two_to(h);
    assert(h <= g) by {
        if h > g {
            lemma_two_to_adds(g, (h - g) as nat);
            lemma_two_to_grows(1, (h - g) as nat);
            assert(two_to(1) == 2 * two_to(0));
            assert(false) by (nonlinear_arith)
                requires
                    two_to(h) == two_to(g) * two_to((h - g) as nat),
                    two_to((h - g) as nat) >= 2,
                    n * two_to(g) >= sig_low(),
                    100 * n * two_to(h) < sig_high(),
                    sig_high() == 2 * sig_low(),
            ;
        }
    }
    let e2 = (g - h) as int;
    lemma_two_to_adds(h, (g - h) as nat);
    assert(h + (g - h) as nat == g);
    assert(scaled(100 * mm, 1, e2) == (100 * mm, 1 * two_to((g - h) as nat)));
    assert(100 * mm == m2 * (1 * two_to((g - h) as nat))) by (nonlinear_arith)
        requires
            two_to(g) == two_to(h) * two_to((g - h) as nat),
            mm == n * two_to(g),
            m2 == 100 * n * two_to(h),
    ;
    lemma_exact_double(100 * mm, 1, m2, e2);
    // rounding m2 · 2^-K, with K = k + h
    let kk = k + h;
    assert(ee + e2 == -(kk as int));
    lemma_two_to_adds(k, h);
    assert(m2 * t == 100 * u * two_to(kk)) by (nonlinear_arith)
        requires
            t * n == u * two_to(k),
            two_to(kk) == two_to(k) * two_to(h),
            m2 == 100 * n * two_to(h),
    ;
    let r0 = round_half_away(m2, -(kk as int));
    assert(2 * r0 * t <= 200 * u + t && 200 * u + t < 2 * r0 * t + 2 * t) by {
        if kk == 0 {
            assert(two_to(0) == 1);
            assert(r0 == m2 * 1);
            assert(2 * r0 * t == 200 * u) by (nonlinear_arith)
                requires
                    r0 == m2 * 1,
                    m2 * t == 100 * u * 1,
            ;
        } else {
            let p = two_to(kk);
            let half = two_to((kk - 1) as nat);
            lemma_two_to_adds((kk - 1) as nat, 1);
            assert(two_to(1) == 2 * two_to(0));
            assert(p == 2 * half);
            assert(r0 == (m2 + half) / p);
            vstd::arithmetic::div_mod::lemma_fundamental_div_mod((m2 + half) as int, p as int);
            let s = (m2 + half) % p;
            assert(p * r0 + s == m2 + half);
            assert(2 * t * (p * r0) <= 2 * t * (m2 + half) && 2 * t * (m2 + half) < 2 * t * (p
                * r0 + p)) by (nonlinear_arith)
                requires
                    p * r0 + s == m2 + half,
                    0 <= s < p,
                    t > 0,
            ;
            assert(p * (2 * r0 * t) <= p * (200 * u + t)) by (nonlinear_arith)
                requires
                    2 * t * (p * r0) <= 2 * t * (m2 + half),
                    m2 * t == 100 * u * p,
                    p == 2 * half,
            ;
            assert(p * (200 * u + t) < p * (2 * r0 * t + 2 * t)) by (nonlinear_arith)
                requires
                    2 * t * (m2 + half) < 2 * t * (p * r0 + p),
                    m2 * t == 100 * u * p,
                    p == 2 * half,
            ;
            assert(2 * r0 * t <= 200 * u + t) by (nonlinear_arith)
                requires
                    p * (2 * r0 * t) <= p * (200 * u + t),
                    p > 0,
            ;
            assert(200 * u + t < 2 * r0 * t + 2 * t) by (nonlinear_arith)
                requires
                    p * (200 * u + t) < p * (2 * r0 * t + 2 * t),
                    p > 0,
            ;
        }
    }
    assert(r0 <= 100) by (nonlinear_arith)
        requires
            2 * r0 * t <= 200 * u + t,
            u <= t,
            t > 0,
    ;
    assert(usage_percent_spec(used, total) == r0);
}

/// The exact sum of some counts.
pub open spec fn exact_sum(s: Seq<u64>) -> nat
    decreases s.len(),
{
    if s.len() == 0 {
        0
    } else {
        exact_sum(s.drop_last()) + s.last() as nat
    }
}

/// A saturating sum is the exact sum when that fits in 64 bits, and the
/// largest count when it does not.
pub proof fn law_saturating_sum(s: Seq<u64>)
    ensures
        exact_sum(s) <= u64::MAX ==> saturating_sum(s) == exact_sum(s),
        exact_sum(s) > u64::MAX ==> saturating_sum(s) == u64::MAX,
    decreases s.len(),
{
    if s.len() > 0 {
        law_saturating_sum(s.drop_last());
    }
}

/// The size, the free space and the used space of several volumes together:
/// sizes and free spaces summed (each kept at the largest count once it
/// overflows), and the used space the size less the free space (0 when more
/// is free than the size).
pub fn combined_space(sizes: &Vec<u64>, free: &Vec<u64>) -> (r: (u64, u64, u64))
    requires
        sizes@.len() == free@.len(),
    ensures
        r.0 == saturating_sum(sizes@),
        r.1 == saturating_sum(free@),
        r.2 == (if r.0 >= r.1 {
            r.0 - r.1
        } else {
            0
        }),
{
    let mut total: u64 = 0;
    let mut available: u64 = 0;
    let mut i: usize = 0;
    while i < sizes.len()
        invariant
            i <= sizes@.len() == free@.len(),
            total == saturating_sum(sizes@.take(i as int)),
            available == saturating_sum(free@.take(i as int)),
        decreases sizes.len() - i,
    {
        assert(sizes@.take(i + 1).drop_last() =~= sizes@.take(i as int));
        assert(free@.take(i + 1).drop_last() =~= free@.take(i as int));
        total = total.saturating_add(sizes[i]);
        available = available.saturating_add(free[i]);
        i = i + 1;
    }
    assert(sizes@.take(i as int) =~= sizes@);
    assert(free@.take(i as int) =~= free@);
    (total, available, total.saturating_sub(available))
}

/// How full a gauge is drawn: below 70% normal, below 90% elevated, from
/// there on critical.
#[derive(Debug, Clone, Copy, PartialEq, Eq, Structural)]
pub enum UsageLevel {
    Normal,
    Elevated,
    Critical,
}

/// The level of a gauge filled to `percent`.
pub open spec fn usage_level_spec(percent: u16) -> UsageLevel {
    if percent <= 69 {
        UsageLevel::Normal
    } else if percent <= 89 {
        UsageLevel::Elevated
    } else {
        UsageLevel::Critical
    }
}

pub fn usage_level(percent: u16) -> (l: UsageLevel)
    ensures
        l == usage_level_spec(percent),
{
    if percent <= 69 {
        UsageLevel::Normal
    } else if percent <= 89 {
        UsageLevel::Elevated
    } else {
        UsageLevel::Critical
    }
}

/// A gauge is normal up to 69%, elevated from 70% to 89% and critical from
/// 90% on, so a fuller gauge is never at a lower level.
pub proof fn law_usage_levels(p: u16, q: u16)
    ensures
        p < 70 ==> usage_level_spec(p) == UsageLevel::Normal,
        70 <= p < 90 ==> usage_level_spec(p) == UsageLevel::Elevated,
        90 <= p ==> usage_level_spec(p) == UsageLevel::Critical,
        p <= q && usage_level_spec(q) == UsageLevel::Normal ==> usage_level_spec(p)
            == UsageLevel::Normal,
        p <= q && usage_level_spec(p) == UsageLevel::Critical ==> usage_level_spec(q)
            == UsageLevel::Critical,
{
}

} // verus!
