//! Fixed-point exponential and logarithm, scaled by ten to the eighteenth.

use vstd::arithmetic::power2::{lemma2_to64, lemma_pow2_pos, lemma_pow2_unfold, pow2};
use vstd::prelude::*;

verus! {

/// One, in fixed point.
pub const FIXED_POINT_SCALE: i128 = 1_000_000_000_000_000_000;

/// The natural logarithm of two, in fixed point.
pub const LN_2: i128 = 693_147_180_559_945_309;

/// Number of terms of the Taylor series after the leading one. At the ends of
/// the range `[-5, 5]` the first ten alone would leave an error above one
/// percent.
pub const TAYLOR_TERMS: u32 = 20;

/// The quotient rounded toward zero.
pub open spec fn trunc_div(a: int, b: int) -> int {
    if a >= 0 {
        a / b
    } else {
        -((-a) / b)
    }
}

/// Whether an `i128` holds `v`.
pub open spec fn fits(v: int) -> bool {
    i128::MIN <= v <= i128::MAX
}

/// A quotient of values in range is in range, but for that of the least value
/// by minus one.
pub proof fn lemma_trunc_fits(a: int, b: int)
    requires
        fits(a),
        fits(b),
        b != 0,
        a != i128::MIN || b != -1,
    ensures
        fits(trunc_div(a, b)),
{
    let x = if a >= 0 { a } else { -a };
    assert(-x <= x / b <= x) by (nonlinear_arith)
        requires
            x >= 0,
            b != 0,
    ;
    if b < -1 {
        assert(2 * (x / b) >= -x) by (nonlinear_arith)
            requires
                x >= 0,
                b <= -2,
        ;
    }
    if b > 0 {
        assert(x / b >= 0) by (nonlinear_arith)
            requires
                x >= 0,
                b > 0,
        ;
    }
}

/// `x^n / n!` in fixed point for `x >= 0`, each step rounded down.
pub open spec fn taylor_term(x: int, n: nat) -> int
    decreases n,
{
    if n == 0 {
        FIXED_POINT_SCALE as int
    } else {
        taylor_term(x, (n - 1) as nat) * x / (FIXED_POINT_SCALE as int) / (n as int)
    }
}

/// `1 + x + x^2 / 2! + ... + x^n / n!` in fixed point for `x >= 0`.
pub open spec fn taylor_sum(x: int, n: nat) -> int
    decreases n,
{
    if n == 0 {
        taylor_term(x, 0)
    } else {
        taylor_sum(x, (n - 1) as nat) + taylor_term(x, n)
    }
}

/// `e^x` in fixed point: by the Taylor series on `[0, 5]`, as the reciprocal of
/// `e^-x` on `[-5, 0]`, saturated above and zero below.
pub open spec fn exp_of(x: int) -> int {
    if x > 5 * FIXED_POINT_SCALE {
        i128::MAX as int / 2
    } else if x < -5 * FIXED_POINT_SCALE {
        0
    } else if x >= 0 {
        taylor_sum(x, TAYLOR_TERMS as nat)
    } else {
        FIXED_POINT_SCALE * FIXED_POINT_SCALE / taylor_sum(-x, TAYLOR_TERMS as nat)
    }
}

proof fn lemma_div_mono(a: int, b: int, d: int)
    requires
        0 <= a <= b,
        d > 0,
    ensures
        0 <= a / d <= b / d,
{
    vstd::arithmetic::div_mod::lemma_div_is_ordered(a, b, d);
    vstd::arithmetic::div_mod::lemma_div_pos_is_pos(a, d);
}

/// Terms and sums are nonnegative and grow with `x`.
proof fn lemma_taylor_mono(a: int, b: int, n: nat)
    requires
        0 <= a <= b,
    ensures
        0 <= taylor_term(a, n) <= taylor_term(b, n),
        0 <= taylor_sum(a, n) <= taylor_sum(b, n),
        n >= 1 ==> taylor_sum(b, n) - taylor_sum(a, n) >= b - a,
        n >= 1 ==> taylor_sum(a, n) >= FIXED_POINT_SCALE + a,
    decreases n,
{
    if n > 0 {
        let p = (n - 1) as nat;
        lemma_taylor_mono(a, b, p);
        let ta = taylor_term(a, p);
        let tb = taylor_term(b, p);
        assert(0 <= ta * a <= tb * b) by (nonlinear_arith)
            requires
                0 <= ta <= tb,
                0 <= a <= b,
        ;
        let s = FIXED_POINT_SCALE as int;
        lemma_div_mono(ta * a, tb * b, s);
        lemma_div_mono(ta * a / s, tb * b / s, n as int);
        assert(taylor_sum(a, n) == taylor_sum(a, p) + taylor_term(a, n));
        assert(taylor_sum(b, n) == taylor_sum(b, p) + taylor_term(b, n));
        if n == 1 {
            assert(taylor_term(a, 0) == s && taylor_term(b, 0) == s);
            assert(s * a / s == a) by (nonlinear_arith)
                requires
                    s > 0,
            ;
            assert(s * b / s == b) by (nonlinear_arith)
                requires
                    s > 0,
            ;
            assert(taylor_term(a, 1) == a / 1 && taylor_term(b, 1) == b / 1);
            assert(a / 1 == a && b / 1 == b) by (nonlinear_arith);
            assert(taylor_sum(a, 0) == s && taylor_sum(b, 0) == s);
        }
    }
}

/// No term exceeds 27 on `[0, 5]`, so that a term times `x` stays in range.
proof fn lemma_taylor_bound(x: int, n: nat)
    requires
        0 <= x <= 5 * FIXED_POINT_SCALE,
        n <= TAYLOR_TERMS,
    ensures
        0 <= taylor_term(x, n) <= 27 * FIXED_POINT_SCALE,
        0 <= taylor_sum(x, n) <= 27 * FIXED_POINT_SCALE * (n + 1),
    decreases n,
{
    let top = 5 * FIXED_POINT_SCALE as int;
    lemma_taylor_mono(x, top, n);
    assert(taylor_term(top, 0) == 1000000000000000000);
    assert(taylor_term(top, 1) == 5000000000000000000);
    assert(taylor_term(top, 2) == 12500000000000000000);
    assert(taylor_term(top, 3) == 20833333333333333333);
    assert(taylor_term(top, 4) == 26041666666666666666);
    assert(taylor_term(top, 5) == 26041666666666666666);
    assert(taylor_term(top, 6) == 21701388888888888888);
    assert(taylor_term(top, 7) == 15500992063492063491);
    assert(taylor_term(top, 8) == 9688120039682539681);
    assert(taylor_term(top, 9) == 5382288910934744267);
    assert(taylor_term(top, 10) == 2691144455467372133);
    assert(taylor_term(top, 11) == 1223247479757896424);
    assert(taylor_term(top, 12) == 509686449899123510);
    assert(taylor_term(top, 13) == 196033249961201350);
    assert(taylor_term(top, 14) == 70011874986143339);
    assert(taylor_term(top, 15) == 23337291662047779);
    assert(taylor_term(top, 16) == 7292903644389930);
    assert(taylor_term(top, 17) == 2144971660114685);
    assert(taylor_term(top, 18) == 595825461142968);
    assert(taylor_term(top, 19) == 156796173984991);
    assert(taylor_term(top, 20) == 39199043496247);
    if n > 0 {
        lemma_taylor_bound(x, (n - 1) as nat);
    }
}

/// `e^x` in fixed point for `0 <= x <= 5`.
fn exp_nonneg(x: i128) -> (r: i128)
    requires
        0 <= x <= 5 * FIXED_POINT_SCALE,
    ensures
        r == taylor_sum(x as int, TAYLOR_TERMS as nat),
        FIXED_POINT_SCALE <= r <= 567 * FIXED_POINT_SCALE,
{
    let mut result: i128 = FIXED_POINT_SCALE;
    let mut term: i128 = FIXED_POINT_SCALE;
    let mut n: u32 = 0;
    while n < TAYLOR_TERMS
        invariant
            n <= TAYLOR_TERMS,
            0 <= x <= 5 * FIXED_POINT_SCALE,
            term == taylor_term(x as int, n as nat),
            result == taylor_sum(x as int, n as nat),
        decreases TAYLOR_TERMS - n,
    {
        proof {
            lemma_taylor_bound(x as int, n as nat);
            lemma_taylor_bound(x as int, (n + 1) as nat);
            assert(0 <= term * x <= (27 * FIXED_POINT_SCALE) * (5 * FIXED_POINT_SCALE))
                by (nonlinear_arith)
                requires
                    0 <= term <= 27 * FIXED_POINT_SCALE,
                    0 <= x <= 5 * FIXED_POINT_SCALE,
            ;
        }
        n = n + 1;
        term = term * x / FIXED_POINT_SCALE / (n as i128);
        result = result + term;
    }
    proof {
        lemma_taylor_bound(x as int, TAYLOR_TERMS as nat);
        lemma_taylor_mono(x as int, x as int, TAYLOR_TERMS as nat);
        assert(27 * FIXED_POINT_SCALE * (TAYLOR_TERMS as nat + 1) == 567 * FIXED_POINT_SCALE)
            by (nonlinear_arith);
    }
    result
}

/// Computes `e^x`. `x` and the result are in fixed point. Within 0.01% on
/// `[-5, 5]`; above that range the result saturates, below it is zero.
pub fn exp_fixed_point(x: i128) -> (r: i128)
    ensures
        r == exp_of(x as int),
        0 <= r <= i128::MAX / 2,
{
    if x == 0 {
        proof {
            lemma_exp_zero();
        }
        return FIXED_POINT_SCALE;
    }
    if x > 5 * FIXED_POINT_SCALE {
        return i128::MAX / 2;
    }
    if x < -5 * FIXED_POINT_SCALE {
        return 0;
    }
    if x > 0 {
        exp_nonneg(x)
    } else {
        let inverse: i128 = exp_nonneg(-x);
        proof {
            let square = FIXED_POINT_SCALE * FIXED_POINT_SCALE;
            lemma_div_mono(0, square, inverse as int);
            assert(square / (inverse as int) <= square) by (nonlinear_arith)
                requires
                    square >= 0,
                    inverse >= 1,
            ;
        }
        FIXED_POINT_SCALE * FIXED_POINT_SCALE / inverse
    }
}

/// `e^0` is one.
pub proof fn lemma_exp_zero()
    ensures
        exp_of(0) == FIXED_POINT_SCALE,
{
    lemma_zero_sum(TAYLOR_TERMS as nat);
}

proof fn lemma_zero_term(n: nat)
    requires
        n >= 1,
    ensures
        taylor_term(0, n) == 0,
{
    let t = taylor_term(0, (n - 1) as nat);
    assert(t * 0 == 0);
    assert(0int / (n as int) == 0) by (nonlinear_arith)
        requires
            n >= 1,
    ;
}

proof fn lemma_zero_sum(n: nat)
    ensures
        taylor_sum(0, n) == FIXED_POINT_SCALE,
    decreases n,
{
    if n > 0 {
        lemma_zero_sum((n - 1) as nat);
        lemma_zero_term(n);
    }
}

/// The number that a fixed-point value stands for.
pub open spec fn scaled(v: int) -> real {
    v as real / (FIXED_POINT_SCALE as int as real)
}

/// `x^n / n!`.
pub open spec fn series_term(x: real, n: nat) -> real
    decreases n,
{
    if n == 0 {
        1real
    } else {
        series_term(x, (n - 1) as nat) * x / (n as int as real)
    }
}

/// `1 + x + x^2 / 2! + ... + x^n / n!`.
pub open spec fn series(x: real, n: nat) -> real
    decreases n,
{
    if n == 0 {
        series_term(x, 0)
    } else {
        series(x, (n - 1) as nat) + series_term(x, n)
    }
}

/// The approximations of `e^x` whose limit, as `n` grows, is `e^x`: partial
/// sums of the Taylor series for `x >= 0`, and for `x < 0` the reciprocals of
/// those for `-x`.
pub open spec fn exp_series(x: real, n: nat) -> real {
    if x >= 0real {
        series(x, n)
    } else {
        1real / series(-x, n)
    }
}

proof fn lemma_floor(a: int, d: int)
    requires
        a >= 0,
        d > 0,
    ensures
        (a / d) as real <= a as real / (d as real),
        a as real / (d as real) <= (a / d) as real + 1real,
{
    let q = a / d;
    let r = a % d;
    assert(a == q * d + r && 0 <= r < d) by (nonlinear_arith)
        requires
            d > 0,
            q == a / d,
            r == a % d,
    ;
    let qr = q as real;
    let dr = d as real;
    let rr = r as real;
    let ar = a as real;
    assert((q * d) as real == qr * dr) by (nonlinear_arith)
        requires
            qr == q as real,
            dr == d as real,
    ;
    assert(ar == qr * dr + rr);
    assert(qr <= ar / dr && ar / dr <= qr + 1real) by (nonlinear_arith)
        requires
            ar == qr * dr + rr,
            0real <= rr,
            rr < dr,
            dr > 0real,
    ;
}

/// How far rounding may have pulled the fixed-point term below the true one.
spec fn rounding(n: nat) -> real
    decreases n,
{
    if n == 0 {
        0real
    } else {
        rounding((n - 1) as nat) * 5real / (n as int as real) + 2real
    }
}

spec fn total_rounding(n: nat) -> real
    decreases n,
{
    if n == 0 {
        0real
    } else {
        total_rounding((n - 1) as nat) + rounding(n)
    }
}

proof fn lemma_term_close(x: int, n: nat)
    requires
        0 <= x <= 5 * FIXED_POINT_SCALE,
    ensures
        rounding(n) >= 0real,
        series_term(scaled(x), n) >= 0real,
        (FIXED_POINT_SCALE as int as real) * series_term(scaled(x), n) - rounding(n) <= taylor_term(
            x,
            n,
        ) as real,
        taylor_term(x, n) as real <= (FIXED_POINT_SCALE as int as real) * series_term(
            scaled(x),
            n,
        ),
    decreases n,
{
    let s = FIXED_POINT_SCALE as int;
    let sr = s as real;
    let xr = x as real;
    let big_x = scaled(x);
    if n > 0 {
        let p = (n - 1) as nat;
        lemma_term_close(x, p);
        lemma_taylor_mono(x, x, p);
        let t = taylor_term(x, p);
        let tr = t as real;
        let a = t * x;
        assert(a >= 0) by (nonlinear_arith)
            requires
                a == t * x,
                t >= 0,
                x >= 0,
        ;
        let q1 = a / s;
        lemma_floor(a, s);
        lemma_div_mono(0, a, s);
        let nr = n as int as real;
        lemma_floor(q1, n as int);
        let q2 = q1 / (n as int);
        let ar = a as real;
        assert(ar == tr * xr) by (nonlinear_arith)
            requires
                a == t * x,
                ar == a as real,
                tr == t as real,
                xr == x as real,
        ;
        let tau = series_term(big_x, p);
        let tau_n = series_term(big_x, n);
        let rho = rounding(p);
        let q1r = q1 as real;
        let q2r = q2 as real;
        assert(taylor_term(x, n) == q2);
        assert(0real <= big_x && big_x <= 5real && sr * big_x == xr) by (nonlinear_arith)
            requires
                big_x == xr / sr,
                sr == 1000000000000000000real,
                0real <= xr,
                xr <= 5000000000000000000real,
        ;
        lemma_step_close(sr, big_x, xr, tr, ar, q1r, q2r, nr, tau, tau_n, rho);
    }
}

proof fn lemma_step_close(
    sr: real,
    big_x: real,
    xr: real,
    tr: real,
    ar: real,
    q1r: real,
    q2r: real,
    nr: real,
    tau: real,
    tau_n: real,
    rho: real,
)
    requires
        sr == 1000000000000000000real,
        0real <= big_x,
        big_x <= 5real,
        sr * big_x == xr,
        ar == tr * xr,
        q1r <= ar / sr,
        ar / sr <= q1r + 1real,
        q2r <= q1r / nr,
        q1r / nr <= q2r + 1real,
        nr >= 1real,
        tau >= 0real,
        tau_n == tau * big_x / nr,
        rho >= 0real,
        sr * tau - rho <= tr,
        tr <= sr * tau,
    ensures
        tau_n >= 0real,
        rho * 5real / nr + 2real >= 0real,
        sr * tau_n - (rho * 5real / nr + 2real) <= q2r,
        q2r <= sr * tau_n,
{
    assert(ar / sr == tr * big_x) by (nonlinear_arith)
        requires
            sr * big_x == xr,
            ar == tr * xr,
            sr > 0real,
    ;
    assert(tr * big_x <= sr * tau * big_x) by (nonlinear_arith)
        requires
            tr <= sr * tau,
            big_x >= 0real,
    ;
    assert(tr * big_x >= sr * tau * big_x - rho * 5real) by (nonlinear_arith)
        requires
            sr * tau - rho <= tr,
            0real <= big_x,
            big_x <= 5real,
            rho >= 0real,
    ;
    let y = sr * tau * big_x;
    assert(y / nr == sr * tau_n) by (nonlinear_arith)
        requires
            y == sr * tau * big_x,
            tau_n == tau * big_x / nr,
            nr >= 1real,
    ;
    assert(q1r / nr <= y / nr) by (nonlinear_arith)
        requires
            q1r <= y,
            nr >= 1real,
    ;
    assert(q1r / nr >= y / nr - rho * 5real / nr - 1real) by (nonlinear_arith)
        requires
            q1r >= y - rho * 5real - 1real,
            nr >= 1real,
    ;
    assert(tau_n >= 0real) by (nonlinear_arith)
        requires
            tau_n == tau * big_x / nr,
            tau >= 0real,
            big_x >= 0real,
            nr >= 1real,
    ;
    assert(rho * 5real / nr >= 0real) by (nonlinear_arith)
        requires
            rho >= 0real,
            nr >= 1real,
    ;
}

proof fn lemma_sum_close(x: int, n: nat)
    requires
        0 <= x <= 5 * FIXED_POINT_SCALE,
    ensures
        (FIXED_POINT_SCALE as int as real) * series(scaled(x), n) - total_rounding(n) <= taylor_sum(
            x,
            n,
        ) as real,
        taylor_sum(x, n) as real <= (FIXED_POINT_SCALE as int as real) * series(scaled(x), n),
    decreases n,
{
    lemma_term_close(x, n);
    if n > 0 {
        let p = (n - 1) as nat;
        lemma_sum_close(x, p);
        let sr = FIXED_POINT_SCALE as int as real;
        let e = series(scaled(x), p);
        let t = series_term(scaled(x), n);
        assert(sr * (e + t) == sr * e + sr * t) by (nonlinear_arith);
    }
}

/// On `[0, 5]` the terms of the series grow with `x`.
proof fn lemma_series_mono(x: real, n: nat)
    requires
        0real <= x,
        x <= 5real,
    ensures
        0real <= series_term(x, n),
        series_term(x, n) <= series_term(5real, n),
        1real <= series(x, n),
        series(x, n) <= series(5real, n),
    decreases n,
{
    if n > 0 {
        let p = (n - 1) as nat;
        lemma_series_mono(x, p);
        let a = series_term(x, p);
        let b = series_term(5real, p);
        let nr = n as int as real;
        assert(0real <= a * x / nr && a * x / nr <= b * 5real / nr) by (nonlinear_arith)
            requires
                0real <= a,
                a <= b,
                0real <= x,
                x <= 5real,
                nr >= 1real,
        ;
    }
}

/// Past the twentieth term the series gains at most that term again.
proof fn lemma_tail(x: real, n: nat)
    requires
        0real <= x,
        x <= 5real,
        n >= TAYLOR_TERMS,
    ensures
        series(x, TAYLOR_TERMS as nat) <= series(x, n),
        series(x, n) + series_term(x, n) <= series(x, TAYLOR_TERMS as nat) + series_term(
            x,
            TAYLOR_TERMS as nat,
        ),
    decreases n,
{
    if n > TAYLOR_TERMS {
        let p = (n - 1) as nat;
        lemma_tail(x, p);
        lemma_series_mono(x, p);
        lemma_series_mono(x, n);
        let a = series_term(x, p);
        let nr = n as int as real;
        assert(2real * (a * x / nr) <= a) by (nonlinear_arith)
            requires
                0real <= a,
                0real <= x,
                x <= 5real,
                nr >= 20real,
        ;
    }
}

/// The terms and sums of the series at five.
spec fn term_at_five(n: nat) -> real
    decreases n,
{
    if n == 0 {
        1real
    } else {
        term_at_five((n - 1) as nat) * 5real / (n as int as real)
    }
}

spec fn sum_at_five(n: nat) -> real
    decreases n,
{
    if n == 0 {
        1real
    } else {
        sum_at_five((n - 1) as nat) + term_at_five(n)
    }
}

proof fn lemma_at_five(n: nat)
    ensures
        series_term(5real, n) == term_at_five(n),
        series(5real, n) == sum_at_five(n),
    decreases n,
{
    if n > 0 {
        lemma_at_five((n - 1) as nat);
        let a = term_at_five((n - 1) as nat);
        let x = 5real;
        assert(a * x == a * 5real) by (nonlinear_arith)
            requires
                x == 5real,
        ;
    }
}

/// From bounds on a term and a sum at five, in billionths, to the next ones.
proof fn lemma_five_step(n: nat, nr: real, before: real, term: real, sum: real)
    requires
        n >= 1,
        nr == n as int as real,
        term_at_five((n - 1) as nat) * 1000000000real <= before,
        before * 5real <= term * nr,
        sum_at_five((n - 1) as nat) * 1000000000real + term <= sum,
    ensures
        term_at_five(n) * 1000000000real <= term,
        sum_at_five(n) * 1000000000real <= sum,
{
    let a = term_at_five((n - 1) as nat);
    assert(a * 5real / nr * 1000000000real <= term) by (nonlinear_arith)
        requires
            a * 1000000000real <= before,
            before * 5real <= term * nr,
            nr >= 1real,
    ;
}

proof fn lemma_series_numbers()
    ensures
        series_term(5real, 20) <= 1real / 20000real,
        series(5real, 20) <= 149real,
        total_rounding(20) <= 200real,
{
    lemma_at_five(20);
    lemma_five_step(1, 1real, 1000000000real, 5000000000real, 6000000000real);
    lemma_five_step(2, 2real, 5000000000real, 12500000000real, 18500000000real);
    lemma_five_step(3, 3real, 12500000000real, 20833333334real, 39333333334real);
    lemma_five_step(4, 4real, 20833333334real, 26041666668real, 65375000002real);
    lemma_five_step(5, 5real, 26041666668real, 26041666668real, 91416666670real);
    lemma_five_step(6, 6real, 26041666668real, 21701388890real, 113118055560real);
    lemma_five_step(7, 7real, 21701388890real, 15500992065real, 128619047625real);
    lemma_five_step(8, 8real, 15500992065real, 9688120041real, 138307167666real);
    lemma_five_step(9, 9real, 9688120041real, 5382288912real, 143689456578real);
    lemma_five_step(10, 10real, 5382288912real, 2691144456real, 146380601034real);
    lemma_five_step(11, 11real, 2691144456real, 1223247480real, 147603848514real);
    lemma_five_step(12, 12real, 1223247480real, 509686450real, 148113534964real);
    lemma_five_step(13, 13real, 509686450real, 196033250real, 148309568214real);
    lemma_five_step(14, 14real, 196033250real, 70011875real, 148379580089real);
    lemma_five_step(15, 15real, 70011875real, 23337292real, 148402917381real);
    lemma_five_step(16, 16real, 23337292real, 7292904real, 148410210285real);
    lemma_five_step(17, 17real, 7292904real, 2144972real, 148412355257real);
    lemma_five_step(18, 18real, 2144972real, 595826real, 148412951083real);
    lemma_five_step(19, 19real, 595826real, 156797real, 148413107880real);
    lemma_five_step(20, 20real, 156797real, 39200real, 148413147080real);
    reveal_with_fuel(rounding, 21);
    reveal_with_fuel(total_rounding, 21);
}

/// On `[-5, 5]` the exponential is within 0.01% of `e^x`: of every
/// approximation from the twentieth on of the sequence that tends to `e^x`.
pub proof fn law_exp_accuracy(x: int, n: nat)
    requires
        -5 * FIXED_POINT_SCALE <= x <= 5 * FIXED_POINT_SCALE,
        n >= TAYLOR_TERMS,
    ensures
        ({
            let e = exp_series(scaled(x), n);
            let r = scaled(exp_of(x));
            &&& e > 0real
            &&& e - e / 10000real <= r
            &&& r <= e + e / 10000real
        }),
{
    let s = FIXED_POINT_SCALE as int;
    let sr = s as real;
    let m = if x >= 0 { x } else { -x };
    let mr = m as real;
    let big_m = scaled(m);
    assert(0real <= big_m && big_m <= 5real) by (nonlinear_arith)
        requires
            big_m == mr / sr,
            sr == 1000000000000000000real,
            0real <= mr,
            mr <= 5000000000000000000real,
    ;
    lemma_series_numbers();
    lemma_sum_close(m, 20);
    lemma_series_mono(big_m, 20);
    lemma_series_mono(big_m, n);
    lemma_tail(big_m, n);
    let p = taylor_sum(m, 20);
    let pr = p as real;
    let e0 = series(big_m, 20);
    let e = series(big_m, n);
    assert(e0 <= e && e <= e0 + 1real / 20000real && 1real <= e0 && e0 <= 149real);
    lemma_relative(sr, pr, e0, e);
    if x >= 0 {
        assert(scaled(exp_of(x)) == pr / sr);
        assert(scaled(x) >= 0real);
    } else {
        lemma_taylor_mono(m, m, 20);
        let a = s * s;
        lemma_floor(a, p);
        let q = a / p;
        let qr = q as real;
        let ar = a as real;
        assert(ar == sr * sr);
        lemma_reciprocal(sr, pr, e, ar, qr);
        assert(scaled(exp_of(x)) == qr / sr);
        let xr = x as real;
        assert(mr == -xr);
        assert(xr / sr < 0real && mr / sr == -(xr / sr)) by (nonlinear_arith)
            requires
                sr == 1000000000000000000real,
                xr < 0real,
                mr == -xr,
        ;
        assert(-scaled(x) == big_m);
        assert(exp_series(scaled(x), n) == 1real / e);
    }
}

proof fn lemma_relative(sr: real, pr: real, e0: real, e: real)
    requires
        sr == 1000000000000000000real,
        sr * e0 - 200real <= pr,
        pr <= sr * e0,
        1real <= e0,
        e0 <= e,
        e <= e0 + 1real / 20000real,
    ensures
        e - e / 10000real <= pr / sr,
        pr / sr <= e,
        sr * (e - e / 15000real) <= pr,
        pr <= sr * e,
{
    assert(pr >= sr * e - sr * (1real / 20000real) - 200real) by (nonlinear_arith)
        requires
            sr == 1000000000000000000real,
            sr * e0 - 200real <= pr,
            e <= e0 + 1real / 20000real,
    ;
    assert(pr <= sr * e) by (nonlinear_arith)
        requires
            sr == 1000000000000000000real,
            pr <= sr * e0,
            e0 <= e,
    ;
    assert(sr * (e - e / 15000real) <= pr) by (nonlinear_arith)
        requires
            sr == 1000000000000000000real,
            pr >= sr * e - sr * (1real / 20000real) - 200real,
            e >= 1real,
    ;
    assert(e - e / 15000real <= pr / sr && pr / sr <= e) by (nonlinear_arith)
        requires
            sr == 1000000000000000000real,
            sr * (e - e / 15000real) <= pr,
            pr <= sr * e,
    ;
}

proof fn lemma_reciprocal(sr: real, pr: real, e: real, ar: real, qr: real)
    requires
        sr == 1000000000000000000real,
        ar == sr * sr,
        1real <= e,
        e <= 150real,
        sr * (e - e / 15000real) <= pr,
        pr <= sr * e,
        qr <= ar / pr,
        ar / pr <= qr + 1real,
    ensures
        1real / e > 0real,
        1real / e - 1real / e / 10000real <= qr / sr,
        qr / sr <= 1real / e + 1real / e / 10000real,
{
    let i = 1real / e;
    assert(i > 0real && i * e == 1real && i >= 1real / 150real) by (nonlinear_arith)
        requires
            i == 1real / e,
            1real <= e,
            e <= 150real,
    ;
    assert(pr > 0real) by (nonlinear_arith)
        requires
            sr == 1000000000000000000real,
            sr * (e - e / 15000real) <= pr,
            1real <= e,
    ;
    let v = ar / pr;
    assert(v * pr == ar) by (nonlinear_arith)
        requires
            v == ar / pr,
            pr > 0real,
    ;
    assert(v >= sr * i) by (nonlinear_arith)
        requires
            v * pr == sr * sr,
            pr <= sr * e,
            pr > 0real,
            sr == 1000000000000000000real,
            i * e == 1real,
            i > 0real,
            e >= 1real,
    ;
    assert(v <= sr * (i + i / 10000real)) by (nonlinear_arith)
        requires
            v * pr == sr * sr,
            sr * (e - e / 15000real) <= pr,
            pr > 0real,
            sr == 1000000000000000000real,
            i * e == 1real,
            i > 0real,
            e >= 1real,
    ;
    assert(qr / sr <= i + i / 10000real) by (nonlinear_arith)
        requires
            qr <= v,
            v <= sr * (i + i / 10000real),
            sr == 1000000000000000000real,
    ;
    assert(i - i / 10000real <= qr / sr) by (nonlinear_arith)
        requires
            qr + 1real >= v,
            v >= sr * i,
            i >= 1real / 150real,
            sr == 1000000000000000000real,
    ;
}

/// On `[0, 1]` the exponential stays below three.
proof fn lemma_exp_to_one(y: int)
    requires
        0 <= y <= FIXED_POINT_SCALE,
    ensures
        FIXED_POINT_SCALE + y <= exp_of(y) <= 3 * FIXED_POINT_SCALE,
{
    let one = FIXED_POINT_SCALE as int;
    lemma_taylor_mono(y, one, 20);
    assert(taylor_term(one, 0) == 1000000000000000000 && taylor_sum(one, 0) == 1000000000000000000);
    assert(taylor_term(one, 1) == 1000000000000000000 && taylor_sum(one, 1) == 2000000000000000000);
    assert(taylor_term(one, 2) == 500000000000000000 && taylor_sum(one, 2) == 2500000000000000000);
    assert(taylor_term(one, 3) == 166666666666666666 && taylor_sum(one, 3) == 2666666666666666666);
    assert(taylor_term(one, 4) == 41666666666666666 && taylor_sum(one, 4) == 2708333333333333332);
    assert(taylor_term(one, 5) == 8333333333333333 && taylor_sum(one, 5) == 2716666666666666665);
    assert(taylor_term(one, 6) == 1388888888888888 && taylor_sum(one, 6) == 2718055555555555553);
    assert(taylor_term(one, 7) == 198412698412698 && taylor_sum(one, 7) == 2718253968253968251);
    assert(taylor_term(one, 8) == 24801587301587 && taylor_sum(one, 8) == 2718278769841269838);
    assert(taylor_term(one, 9) == 2755731922398 && taylor_sum(one, 9) == 2718281525573192236);
    assert(taylor_term(one, 10) == 275573192239 && taylor_sum(one, 10) == 2718281801146384475);
    assert(taylor_term(one, 11) == 25052108385 && taylor_sum(one, 11) == 2718281826198492860);
    assert(taylor_term(one, 12) == 2087675698 && taylor_sum(one, 12) == 2718281828286168558);
    assert(taylor_term(one, 13) == 160590438 && taylor_sum(one, 13) == 2718281828446758996);
    assert(taylor_term(one, 14) == 11470745 && taylor_sum(one, 14) == 2718281828458229741);
    assert(taylor_term(one, 15) == 764716 && taylor_sum(one, 15) == 2718281828458994457);
    assert(taylor_term(one, 16) == 47794 && taylor_sum(one, 16) == 2718281828459042251);
    assert(taylor_term(one, 17) == 2811 && taylor_sum(one, 17) == 2718281828459045062);
    assert(taylor_term(one, 18) == 156 && taylor_sum(one, 18) == 2718281828459045218);
    assert(taylor_term(one, 19) == 8 && taylor_sum(one, 19) == 2718281828459045226);
    assert(taylor_term(one, 20) == 0 && taylor_sum(one, 20) == 2718281828459045226);
}

/// Whether `y` is the logarithm of `m` rounded down: the last point at which
/// the exponential does not exceed `m`.
pub open spec fn is_floor_ln(m: int, y: int) -> bool {
    0 <= y && exp_of(y) <= m < exp_of(y + 1)
}

/// The logarithm of `m` in `[1, 2)` rounded down, and never above that of two: the
/// exponential falls a few units short of two at `LN_2`.
pub open spec fn ln_rest(m: int) -> int {
    let y = choose|y: int| is_floor_ln(m, y);
    if y > LN_2 {
        LN_2 as int
    } else {
        y
    }
}

/// `ln(x)` in fixed point for `x > 0`: a factor of two is worth `LN_2`, and
/// what is left in `[1, 2)` is resolved to the last unit.
pub open spec fn ln_of(x: int) -> int
    decreases
            (if x >= 2 * FIXED_POINT_SCALE {
                x
            } else if x < FIXED_POINT_SCALE {
                FIXED_POINT_SCALE - x
            } else {
                0
            }),
{
    if x >= 2 * FIXED_POINT_SCALE {
        LN_2 + ln_of(x / 2)
    } else if 0 < x < FIXED_POINT_SCALE {
        ln_of(2 * x) - LN_2
    } else {
        ln_rest(x)
    }
}

/// The rounded-down logarithm is unique.
proof fn lemma_floor_ln_unique(m: int, a: int, b: int)
    requires
        m < 2 * FIXED_POINT_SCALE,
        is_floor_ln(m, a),
        is_floor_ln(m, b),
    ensures
        a == b,
{
    let one = FIXED_POINT_SCALE as int;
    lemma_exp_to_one(one);
    if a > one {
        law_exp_monotone(one, a);
    }
    if b > one {
        law_exp_monotone(one, b);
    }
    if a < b {
        law_exp_monotone(a + 1, b);
    } else if b < a {
        law_exp_monotone(b + 1, a);
    }
}

/// The exponential never decreases.
pub proof fn law_exp_monotone(a: int, b: int)
    requires
        a <= b,
    ensures
        exp_of(a) <= exp_of(b),
{
    let s = FIXED_POINT_SCALE as int;
    let n = TAYLOR_TERMS as nat;
    let sum = |x: int| taylor_sum(x, n);
    if -5 * s <= b <= 5 * s {
        let mb = if b >= 0 { b } else { -b };
        lemma_taylor_bound(mb, n);
        lemma_taylor_mono(mb, mb, n);
        if b < 0 {
            lemma_div_mono(0, s * s, sum(mb));
        }
    }
    if -5 * s <= a <= 5 * s {
        let ma = if a >= 0 { a } else { -a };
        lemma_taylor_bound(ma, n);
        lemma_taylor_mono(ma, ma, n);
        assert(27 * s * (n + 1) == 567 * s) by (nonlinear_arith)
            requires
                n == 20,
        ;
        if a < 0 {
            let p = sum(ma);
            assert(0 <= s * s / p <= s) by (nonlinear_arith)
                requires
                    p >= s,
                    s > 0,
            ;
        }
        if -5 * s <= b <= 5 * s {
            if a >= 0 {
                lemma_taylor_mono(a, b, n);
            } else if b < 0 {
                lemma_taylor_mono(-b, -a, n);
                let pa = sum(-a);
                let pb = sum(-b);
                assert(s * s / pa <= s * s / pb) by {
                    vstd::arithmetic::div_mod::lemma_div_is_ordered_by_denominator(s * s, pb, pa);
                }
            }
        }
    }
}

/// The exponential is never negative.
proof fn lemma_exp_nonnegative(x: int)
    ensures
        exp_of(x) >= 0,
{
    if x >= -6 * FIXED_POINT_SCALE {
        law_exp_monotone(-6 * FIXED_POINT_SCALE, x);
    }
}

/// Newton's method on `e^y = m`, kept inside a shrinking bracket.
fn ln_mantissa(m: i128) -> (y: i128)
    requires
        FIXED_POINT_SCALE <= m < 2 * FIXED_POINT_SCALE,
    ensures
        is_floor_ln(m as int, y as int),
        y < FIXED_POINT_SCALE,
{
    let mut lo: i128 = 0;
    let mut hi: i128 = FIXED_POINT_SCALE;
    let mut y: i128 = 0;
    proof {
        lemma_exp_zero();
        lemma_exp_to_one(FIXED_POINT_SCALE as int);
    }
    while hi - lo > 1
        invariant
            FIXED_POINT_SCALE <= m < 2 * FIXED_POINT_SCALE,
            0 <= lo < hi <= FIXED_POINT_SCALE,
            lo <= y <= hi,
            exp_of(lo as int) <= m < exp_of(hi as int),
        decreases hi - lo,
    {
        let e: i128 = exp_fixed_point(y);
        proof {
            lemma_exp_to_one(y as int);
            let d = m - e;
            let s = FIXED_POINT_SCALE as int;
            assert(-3 * s * s <= d * s <= s * s) by (nonlinear_arith)
                requires
                    -3 * s <= d <= s,
                    s > 0,
            ;
            lemma_trunc_size(d * s, e as int);
        }
        let step: i128 = (m - e) * FIXED_POINT_SCALE / e;
        let aim: i128 = y + step;
        let next: i128 = if aim <= lo {
            lo + 1
        } else if aim >= hi {
            hi - 1
        } else {
            aim
        };
        let reached: i128 = exp_fixed_point(next);
        if reached <= m {
            lo = next;
        } else {
            hi = next;
        }
        y = next;
    }
    lo
}

proof fn lemma_trunc_size(a: int, d: int)
    requires
        d >= 1,
    ensures
        a >= 0 ==> 0 <= a / d <= a,
        a < 0 ==> 0 <= (-a) / d <= -a,
{
    if a >= 0 {
        assert(0 <= a / d <= a) by (nonlinear_arith)
            requires
                a >= 0,
                d >= 1,
        ;
    } else {
        let b = -a;
        assert(0 <= b / d <= b) by (nonlinear_arith)
            requires
                b >= 0,
                d >= 1,
        ;
    }
}

/// Computes `ln(x)` by Newton's method. `x` and the result are in fixed point.
pub fn ln_fixed_point(x: i128) -> (r: i128)
    requires
        x > 0,
    ensures
        r == ln_of(x as int),
        -(FIXED_POINT_SCALE * FIXED_POINT_SCALE) <= r <= x + FIXED_POINT_SCALE,
{
    let mut m: i128 = x;
    let mut k: i128 = 0;
    while m >= 2 * FIXED_POINT_SCALE
        invariant
            x > 0,
            m > 0,
            0 <= k,
            m >= FIXED_POINT_SCALE || m == x,
            k * FIXED_POINT_SCALE + m <= x,
            m < FIXED_POINT_SCALE ==> k == 0,
            ln_of(x as int) == k * LN_2 + ln_of(m as int),
        decreases m,
    {
        m = m / 2;
        k = k + 1;
    }
    while m < FIXED_POINT_SCALE
        invariant
            x > 0,
            0 < m < 2 * FIXED_POINT_SCALE,
            -FIXED_POINT_SCALE <= k,
            k * FIXED_POINT_SCALE + m <= x || k <= 0,
            m < FIXED_POINT_SCALE ==> k <= 0 && -k <= m,
            ln_of(x as int) == k * LN_2 + ln_of(m as int),
        decreases 2 * FIXED_POINT_SCALE - m,
    {
        m = 2 * m;
        k = k - 1;
    }
    let y: i128 = ln_mantissa(m);
    let rest: i128 = if y > LN_2 {
        LN_2
    } else {
        y
    };
    proof {
        lemma_ln_rest(m as int, y as int);
        assert(k >= 0 ==> 0 <= k * LN_2 <= k * FIXED_POINT_SCALE) by (nonlinear_arith);
        assert(k < 0 && -FIXED_POINT_SCALE <= k ==> -FIXED_POINT_SCALE * FIXED_POINT_SCALE <= k
            * LN_2 <= -LN_2) by (nonlinear_arith);
    }
    k * LN_2 + rest
}

/// What is left of the logarithm, from the rounded-down logarithm.
proof fn lemma_ln_rest(m: int, y: int)
    requires
        FIXED_POINT_SCALE <= m < 2 * FIXED_POINT_SCALE,
        is_floor_ln(m, y),
    ensures
        ln_of(m) == (if y > LN_2 {
            LN_2 as int
        } else {
            y
        }),
{
    let z = choose|z: int| is_floor_ln(m, z);
    lemma_floor_ln_unique(m, y, z);
}

/// The logarithm takes back the exponential, to the last unit, from zero up to
/// the logarithm of two.
pub proof fn law_ln_undoes_exp(y: int)
    requires
        0 <= y <= LN_2,
    ensures
        ln_of(exp_of(y)) == y,
{
    lemma_exp_to_one(y);
    lemma_taylor_mono(y, y + 1, 20);
    law_ln_two();
    law_exp_monotone(y, LN_2 as int);
    assert(is_floor_ln(exp_of(y), y));
    lemma_ln_rest(exp_of(y), y);
}

/// `x` is `m` times two to the power `k`, with `m` in `[1, 2)` rounded down.
pub open spec fn splits(x: int, m: int, k: int) -> bool {
    &&& FIXED_POINT_SCALE <= m < 2 * FIXED_POINT_SCALE
    &&& k >= 0 ==> m * pow2(k as nat) <= x < (m + 1) * pow2(k as nat)
    &&& k < 0 ==> m == x * pow2((-k) as nat)
}

proof fn lemma_some_floor_ln(m: int, y: int)
    requires
        FIXED_POINT_SCALE <= m < 2 * FIXED_POINT_SCALE,
        0 <= y <= FIXED_POINT_SCALE,
        exp_of(y) > m,
    ensures
        exists|z: int| 0 <= z < y && is_floor_ln(m, z),
    decreases y,
{
    lemma_exp_zero();
    assert(y > 0);
    if exp_of(y - 1) <= m {
        assert(is_floor_ln(m, y - 1));
    } else {
        lemma_some_floor_ln(m, y - 1);
    }
}

proof fn lemma_ln_mantissa(m: int) -> (y: int)
    requires
        FIXED_POINT_SCALE <= m < 2 * FIXED_POINT_SCALE,
    ensures
        is_floor_ln(m, y),
        0 <= y < FIXED_POINT_SCALE,
        ln_of(m) == (if y > LN_2 {
            LN_2 as int
        } else {
            y
        }),
{
    let one = FIXED_POINT_SCALE as int;
    lemma_exp_to_one(one);
    lemma_some_floor_ln(m, one);
    let z = choose|z: int| 0 <= z < one && is_floor_ln(m, z);
    lemma_ln_rest(m, z);
    z
}

proof fn lemma_splits(x: int) -> (parts: (int, int))
    requires
        x > 0,
    ensures
        splits(x, parts.0, parts.1),
        ln_of(x) == parts.1 * LN_2 + ln_of(parts.0),
        x < FIXED_POINT_SCALE ==> parts.1 < 0,
        x >= FIXED_POINT_SCALE ==> parts.1 >= 0,
    decreases
            (if x >= 2 * FIXED_POINT_SCALE {
                x
            } else if x < FIXED_POINT_SCALE {
                FIXED_POINT_SCALE - x
            } else {
                0
            }),
{
    let s = FIXED_POINT_SCALE as int;
    if x >= 2 * s {
        let (m, k) = lemma_splits(x / 2);
        lemma_pow2_unfold((k + 1) as nat);
        let p = pow2(k as nat);
        assert(m * (2 * p) <= x < (m + 1) * (2 * p)) by (nonlinear_arith)
            requires
                m * p <= x / 2 < (m + 1) * p,
        ;
        assert((k + 1) * LN_2 == k * LN_2 + LN_2) by (nonlinear_arith);
        (m, k + 1)
    } else if x < s {
        let (m, k) = lemma_splits(2 * x);
        let j = if k < 0 { -k } else { 0 };
        lemma2_to64();
        if k >= 0 {
            assert(k == 0) by {
                if k > 0 {
                    lemma_pow2_unfold(k as nat);
                    let p = pow2((k - 1) as nat);
                    lemma_pow2_pos((k - 1) as nat);
                    assert(m * (2 * p) >= 2 * s) by (nonlinear_arith)
                        requires
                            p >= 1,
                            m >= s,
                            s > 0,
                    ;
                }
            }
            assert(pow2(0) == 1);
            let p = pow2(k as nat);
            assert(m == 2 * x) by (nonlinear_arith)
                requires
                    p == 1,
                    m * p <= 2 * x < (m + 1) * p,
            ;
        }
        lemma_pow2_unfold((j + 1) as nat);
        let p = pow2(j as nat);
        assert(m == 2 * x * p) by (nonlinear_arith)
            requires
                m == (2 * x) * p || (p == 1 && m == 2 * x),
        ;
        assert(m == x * (2 * p)) by (nonlinear_arith)
            requires
                m == 2 * x * p,
        ;
        assert((k - 1) * LN_2 == k * LN_2 - LN_2) by (nonlinear_arith);
        assert(-(k - 1) == j + 1);
        assert(splits(x, m, k - 1));
        (m, k - 1)
    } else {
        lemma2_to64();
        assert(pow2(0) == 1);
        let p = pow2(0);
        assert(x * p <= x < (x + 1) * p) by (nonlinear_arith)
            requires
                p == 1,
        ;
        (x, 0)
    }
}

proof fn lemma_unit_step(x: real, n: nat)
    requires
        0real <= x,
        x <= 1real,
        n >= 1,
    ensures
        series_term(x, n) * (n as int as real) <= series_term(x, (n - 1) as nat),
{
    lemma_series_mono(x, (n - 1) as nat);
    let a = series_term(x, (n - 1) as nat);
    let nr = n as int as real;
    assert(a * x / nr * nr <= a) by (nonlinear_arith)
        requires
            0real <= a,
            x <= 1real,
            0real <= x,
            nr >= 1real,
    ;
}

/// On `[0, 1]` the twentieth term is below one unit.
proof fn lemma_unit_tail(x: real)
    requires
        0real <= x,
        x <= 1real,
    ensures
        series_term(x, 20) * 1000000000000000000real <= 1real,
{
    lemma_unit_step(x, 1);
    lemma_unit_step(x, 2);
    lemma_unit_step(x, 3);
    lemma_unit_step(x, 4);
    lemma_unit_step(x, 5);
    lemma_unit_step(x, 6);
    lemma_unit_step(x, 7);
    lemma_unit_step(x, 8);
    lemma_unit_step(x, 9);
    lemma_unit_step(x, 10);
    lemma_unit_step(x, 11);
    lemma_unit_step(x, 12);
    lemma_unit_step(x, 13);
    lemma_unit_step(x, 14);
    lemma_unit_step(x, 15);
    lemma_unit_step(x, 16);
    lemma_unit_step(x, 17);
    lemma_unit_step(x, 18);
    lemma_unit_step(x, 19);
    lemma_unit_step(x, 20);
}

/// On `[0, 1]` the exponential is at most 201 units below `e^x`, and never above
/// it.
pub proof fn law_exp_accuracy_to_one(x: int, n: nat)
    requires
        0 <= x <= FIXED_POINT_SCALE,
        n >= TAYLOR_TERMS,
    ensures
        exp_series(scaled(x), n) - 201real / 1000000000000000000real <= scaled(exp_of(x)),
        scaled(exp_of(x)) <= exp_series(scaled(x), n),
{
    let sr = FIXED_POINT_SCALE as int as real;
    let xr = x as real;
    let big_x = scaled(x);
    assert(0real <= big_x && big_x <= 1real) by (nonlinear_arith)
        requires
            big_x == xr / sr,
            sr == 1000000000000000000real,
            0real <= xr,
            xr <= 1000000000000000000real,
    ;
    lemma_series_numbers();
    lemma_sum_close(x, 20);
    lemma_series_mono(big_x, n);
    lemma_tail(big_x, n);
    lemma_unit_tail(big_x);
    let pr = taylor_sum(x, 20) as real;
    let e0 = series(big_x, 20);
    let e = series(big_x, n);
    let t = series_term(big_x, 20);
    assert(e - 201real / 1000000000000000000real <= pr / sr && pr / sr <= e) by (nonlinear_arith)
        requires
            sr == 1000000000000000000real,
            sr * e0 - 200real <= pr,
            pr <= sr * e0,
            e0 <= e,
            e <= e0 + t,
            t * 1000000000000000000real <= 1real,
    ;
}

/// The constant for the logarithm of two is right: its exponential falls short of
/// two by at most ten units.
pub proof fn law_ln_two()
    ensures
        2 * FIXED_POINT_SCALE - 10 <= exp_of(LN_2 as int) < 2 * FIXED_POINT_SCALE,
{
    let x = LN_2 as int;
    assert(taylor_term(x, 0) == 1000000000000000000 && taylor_sum(x, 0) == 1000000000000000000);
    assert(taylor_term(x, 1) == 693147180559945309 && taylor_sum(x, 1) == 1693147180559945309);
    assert(taylor_term(x, 2) == 240226506959100712 && taylor_sum(x, 2) == 1933373687519046021);
    assert(taylor_term(x, 3) == 55504108664821579 && taylor_sum(x, 3) == 1988877796183867600);
    assert(taylor_term(x, 4) == 9618129107628476 && taylor_sum(x, 4) == 1998495925291496076);
    assert(taylor_term(x, 5) == 1333355814642844 && taylor_sum(x, 5) == 1999829281106138920);
    assert(taylor_term(x, 6) == 154035303933816 && taylor_sum(x, 6) == 1999983316410072736);
    assert(taylor_term(x, 7) == 15252733804059 && taylor_sum(x, 7) == 1999998569143876795);
    assert(taylor_term(x, 8) == 1321548679014 && taylor_sum(x, 8) == 1999999890692555809);
    assert(taylor_term(x, 9) == 101780860092 && taylor_sum(x, 9) == 1999999992473415901);
    assert(taylor_term(x, 10) == 7054911620 && taylor_sum(x, 10) == 1999999999528327521);
    assert(taylor_term(x, 11) == 444553827 && taylor_sum(x, 11) == 1999999999972881348);
    assert(taylor_term(x, 12) == 25678435 && taylor_sum(x, 12) == 1999999999998559783);
    assert(taylor_term(x, 13) == 1369148 && taylor_sum(x, 13) == 1999999999999928931);
    assert(taylor_term(x, 14) == 67787 && taylor_sum(x, 14) == 1999999999999996718);
    assert(taylor_term(x, 15) == 3132 && taylor_sum(x, 15) == 1999999999999999850);
    assert(taylor_term(x, 16) == 135 && taylor_sum(x, 16) == 1999999999999999985);
    assert(taylor_term(x, 17) == 5 && taylor_sum(x, 17) == 1999999999999999990);
    assert(taylor_term(x, 18) == 0 && taylor_sum(x, 18) == 1999999999999999990);
    assert(taylor_term(x, 19) == 0 && taylor_sum(x, 19) == 1999999999999999990);
    assert(taylor_term(x, 20) == 0 && taylor_sum(x, 20) == 1999999999999999990);
}

/// The logarithm is accurate. It is made of a multiple of the logarithm of two,
/// one for each factor of two in `x`, and of a rest whose exponential is what is
/// left of `x`: not below that of the rest by more than 201 units, nor above that
/// of the next unit by more than ten.
pub proof fn law_ln_accuracy(x: int, n: nat)
    requires
        x > 0,
        n >= TAYLOR_TERMS,
    ensures
        exists|m: int, k: int| #[trigger]
            splits(x, m, k) && ({
                let y = ln_of(x) - k * LN_2;
                &&& 0 <= y <= LN_2
                &&& exp_series(scaled(y), n) - 201real / 1000000000000000000real <= scaled(m)
                &&& scaled(m) <= exp_series(scaled(y + 1), n) + 10real / 1000000000000000000real
            }),
{
    let (m, k) = lemma_splits(x);
    let z = lemma_ln_mantissa(m);
    let y = ln_of(m);
    law_ln_two();
    law_exp_monotone(y, z);
    law_exp_monotone(LN_2 as int, LN_2 + 1);
    law_exp_accuracy_to_one(y, n);
    law_exp_accuracy_to_one(y + 1, n);
    lemma_scaled_order(exp_of(y), m);
    assert(m <= exp_of(y + 1) + 10);
    lemma_scaled_order(m, exp_of(y + 1) + 10);
    lemma_scaled_sum(exp_of(y + 1), 10);
    assert(splits(x, m, k));
}

proof fn lemma_scaled_order(a: int, b: int)
    requires
        a <= b,
    ensures
        scaled(a) <= scaled(b),
{
    let ar = a as real;
    let br = b as real;
    let sr = FIXED_POINT_SCALE as int as real;
    assert(ar / sr <= br / sr) by (nonlinear_arith)
        requires
            ar <= br,
            sr == 1000000000000000000real,
    ;
}

proof fn lemma_scaled_sum(a: int, b: int)
    ensures
        scaled(a + b) == scaled(a) + b as real / 1000000000000000000real,
{
    let ar = a as real;
    let br = b as real;
    let sr = FIXED_POINT_SCALE as int as real;
    assert((ar + br) / sr == ar / sr + br / sr) by (nonlinear_arith)
        requires
            sr == 1000000000000000000real,
    ;
    assert((a + b) as real == ar + br);
}

/// The logarithm of one and more is not negative; of less than two, not above
/// that of two.
pub proof fn lemma_ln_range(x: int)
    requires
        x > 0,
    ensures
        x >= FIXED_POINT_SCALE ==> ln_of(x) >= 0,
        x < 2 * FIXED_POINT_SCALE ==> ln_of(x) <= LN_2,
        x < FIXED_POINT_SCALE ==> ln_of(x) <= 0,
    decreases
            (if x >= 2 * FIXED_POINT_SCALE {
                x
            } else if x < FIXED_POINT_SCALE {
                FIXED_POINT_SCALE - x
            } else {
                0
            }),
{
    if x >= 2 * FIXED_POINT_SCALE {
        lemma_ln_range(x / 2);
    } else if x < FIXED_POINT_SCALE {
        lemma_ln_range(2 * x);
    } else {
        let z = lemma_ln_mantissa(x);
    }
}

/// The logarithm never decreases.
pub proof fn law_ln_monotone(a: int, b: int)
    requires
        0 < a <= b,
    ensures
        ln_of(a) <= ln_of(b),
    decreases
            (if b >= 2 * FIXED_POINT_SCALE {
                b
            } else {
                0
            }),
            (if a < FIXED_POINT_SCALE {
                FIXED_POINT_SCALE - a
            } else {
                0
            }),
{
    let s = FIXED_POINT_SCALE as int;
    if b >= 2 * s {
        if a >= 2 * s {
            law_ln_monotone(a / 2, b / 2);
        } else {
            lemma_ln_range(a);
            lemma_ln_range(b / 2);
        }
    } else if a < s {
        if b < s {
            law_ln_monotone(2 * a, 2 * b);
        } else {
            lemma_ln_range(a);
            lemma_ln_range(b);
        }
    } else {
        let y = lemma_ln_mantissa(a);
        let z = lemma_ln_mantissa(b);
        if z < y {
            law_exp_monotone(z + 1, y);
        }
    }
}

/// The exponential either stays below 149 or is saturated.
pub proof fn lemma_exp_range(x: int)
    ensures
        0 <= exp_of(x) < 149 * FIXED_POINT_SCALE || exp_of(x) == i128::MAX as int / 2,
{
    lemma_exp_nonnegative(x);
    if x <= 5 * FIXED_POINT_SCALE {
        law_exp_monotone(x, 5 * FIXED_POINT_SCALE);
        lemma_exp_five();
    }
}

/// `e^5` is below 149.
pub proof fn lemma_exp_five()
    ensures
        exp_of(5 * FIXED_POINT_SCALE) < 149 * FIXED_POINT_SCALE,
{
    let x = 5 * FIXED_POINT_SCALE as int;
    assert(taylor_term(x, 0) == 1000000000000000000 && taylor_sum(x, 0) == 1000000000000000000);
    assert(taylor_term(x, 1) == 5000000000000000000 && taylor_sum(x, 1) == 6000000000000000000);
    assert(taylor_term(x, 2) == 12500000000000000000 && taylor_sum(x, 2) == 18500000000000000000);
    assert(taylor_term(x, 3) == 20833333333333333333 && taylor_sum(x, 3) == 39333333333333333333);
    assert(taylor_term(x, 4) == 26041666666666666666 && taylor_sum(x, 4) == 65374999999999999999);
    assert(taylor_term(x, 5) == 26041666666666666666 && taylor_sum(x, 5) == 91416666666666666665);
    assert(taylor_term(x, 6) == 21701388888888888888 && taylor_sum(x, 6) == 113118055555555555553);
    assert(taylor_term(x, 7) == 15500992063492063491 && taylor_sum(x, 7) == 128619047619047619044);
    assert(taylor_term(x, 8) == 9688120039682539681 && taylor_sum(x, 8) == 138307167658730158725);
    assert(taylor_term(x, 9) == 5382288910934744267 && taylor_sum(x, 9) == 143689456569664902992);
    assert(taylor_term(x, 10) == 2691144455467372133 && taylor_sum(x, 10) == 146380601025132275125);
    assert(taylor_term(x, 11) == 1223247479757896424 && taylor_sum(x, 11) == 147603848504890171549);
    assert(taylor_term(x, 12) == 509686449899123510 && taylor_sum(x, 12) == 148113534954789295059);
    assert(taylor_term(x, 13) == 196033249961201350 && taylor_sum(x, 13) == 148309568204750496409);
    assert(taylor_term(x, 14) == 70011874986143339 && taylor_sum(x, 14) == 148379580079736639748);
    assert(taylor_term(x, 15) == 23337291662047779 && taylor_sum(x, 15) == 148402917371398687527);
    assert(taylor_term(x, 16) == 7292903644389930 && taylor_sum(x, 16) == 148410210275043077457);
    assert(taylor_term(x, 17) == 2144971660114685 && taylor_sum(x, 17) == 148412355246703192142);
    assert(taylor_term(x, 18) == 595825461142968 && taylor_sum(x, 18) == 148412951072164335110);
    assert(taylor_term(x, 19) == 156796173984991 && taylor_sum(x, 19) == 148413107868338320101);
    assert(taylor_term(x, 20) == 39199043496247 && taylor_sum(x, 20) == 148413147067381816348);
}

/// Outside `[-5, 5]` the exponential is the largest value halved, or zero; at zero it
/// is one.
pub proof fn law_exp_ends(x: int)
    ensures
        x > 5_000_000_000_000_000_000 ==> exp_of(x) == 85070591730234615865843651857942052863,
        x < -5_000_000_000_000_000_000 ==> exp_of(x) == 0,
        x == 0 ==> exp_of(x) == 1_000_000_000_000_000_000,
{
    lemma_exp_zero();
}

/// A factor of two adds the logarithm of two; the logarithm of one is zero.
pub proof fn law_ln_doubling(x: int)
    requires
        x > 0,
    ensures
        ln_of(2 * x) == ln_of(x) + 693_147_180_559_945_309,
        ln_of(1_000_000_000_000_000_000) == 0,
{
    let s = FIXED_POINT_SCALE as int;
    if x >= s {
        assert(2 * x / 2 == x);
    }
    lemma_exp_zero();
    lemma_exp_to_one(1);
    lemma_taylor_mono(0, 1, 20);
    assert(is_floor_ln(s, 0));
    lemma_ln_rest(s, 0);
}

/// On `[0, 5]` the exponential is the sum of the series up to the twentieth power,
/// rounded down in its steps: never above it, and at most 200 units below.
pub proof fn law_exp_is_the_series(x: int)
    requires
        0 <= x <= 5_000_000_000_000_000_000,
    ensures
        1000000000000000000real * series(scaled(x), 20) - 200real <= exp_of(x) as real,
        exp_of(x) as real <= 1000000000000000000real * series(scaled(x), 20),
{
    lemma_sum_close(x, 20);
    lemma_series_numbers();
}

/// The exponential of a negative number is the reciprocal, rounded down: what two calls
/// on opposite sides of zero give, multiplied, is one but for that rounding.
pub proof fn law_exp_reciprocal(x: int)
    requires
        0 < x <= 5_000_000_000_000_000_000,
    ensures
        exp_of(-x) * exp_of(x) <= 1_000_000_000_000_000_000_000_000_000_000_000_000 < (exp_of(-x)
            + 1) * exp_of(x),
{
    lemma_taylor_mono(x, x, 20);
    let p = taylor_sum(x, 20);
    let a = FIXED_POINT_SCALE * FIXED_POINT_SCALE;
    let q = a / p;
    assert(q * p <= a < (q + 1) * p) by (nonlinear_arith)
        requires
            q == a / p,
            p > 0,
    ;
    assert(a == 1_000_000_000_000_000_000_000_000_000_000_000_000);
}

} // verus!
