//! The logarithmic market scoring rule: what the shares of a two-sided market
//! cost, and at what prices they trade.

use crate::fixed_point::{
    exp_fixed_point, exp_of, fits, law_exp_monotone, law_ln_monotone, lemma_exp_five,
    lemma_exp_range, lemma_exp_zero, lemma_ln_range, lemma_trunc_fits, ln_fixed_point, ln_of,
    trunc_div, FIXED_POINT_SCALE,
};
use vstd::prelude::*;

verus! {

/// The price of a certain outcome, in basis points.
pub const FULL_PRICE_BPS: u32 = 10_000;

/// `q / b` in fixed point.
pub open spec fn ratio(q: int, b: int) -> int {
    trunc_div(q * FIXED_POINT_SCALE, b)
}

/// The quotient of `q` by `b` can be computed.
pub open spec fn ratio_fits(q: int, b: int) -> bool {
    b != 0 && fits(q * FIXED_POINT_SCALE) && fits(ratio(q, b))
}

/// `e^(q_yes / b) + e^(q_no / b)`.
pub open spec fn weight_sum(q_yes: int, q_no: int, b: int) -> int {
    exp_of(ratio(q_yes, b)) + exp_of(ratio(q_no, b))
}

/// `b * ln(e^(q_yes / b) + e^(q_no / b))`.
pub open spec fn cost_of(q_yes: int, q_no: int, b: int) -> int {
    trunc_div(b * ln_of(weight_sum(q_yes, q_no, b)), FIXED_POINT_SCALE as int)
}

/// The cost can be computed: no product leaves the range, and the logarithm
/// has a positive argument.
pub open spec fn cost_fits(q_yes: int, q_no: int, b: int) -> bool {
    &&& ratio_fits(q_yes, b)
    &&& ratio_fits(q_no, b)
    &&& weight_sum(q_yes, q_no, b) > 0
    &&& fits(b * ln_of(weight_sum(q_yes, q_no, b)))
}

/// The share of a weight in a sum of weights, in fixed point, rounded down. Of a
/// weight too large to be scaled first, the sum is scaled down instead.
pub open spec fn share_of(weight: int, sum: int) -> int {
    if fits(weight * FIXED_POINT_SCALE) {
        weight * FIXED_POINT_SCALE / sum
    } else {
        weight / (sum / (FIXED_POINT_SCALE as int))
    }
}

/// `e^(q_yes / b) / (e^(q_yes / b) + e^(q_no / b))` in basis points, rounded
/// down; one half where both weights vanish.
pub open spec fn yes_price_of(q_yes: int, q_no: int, b: int) -> int {
    price_of(exp_of(ratio(q_yes, b)), exp_of(ratio(q_no, b)))
}

/// The price of the side that weighs `x`, against `y`, in basis points.
pub open spec fn price_of(x: int, y: int) -> int {
    let price = if x + y == 0 {
        FIXED_POINT_SCALE as int / 2
    } else {
        share_of(x, x + y)
    };
    price * FULL_PRICE_BPS / (FIXED_POINT_SCALE as int)
}

/// The price can be computed.
pub open spec fn price_fits(q_yes: int, q_no: int, b: int) -> bool {
    &&& ratio_fits(q_yes, b)
    &&& ratio_fits(q_no, b)
}

/// `q / b` in fixed point, or nothing where it is out of range.
fn checked_ratio(q: i128, b: i128) -> (r: Option<i128>)
    ensures
        r is Some <==> ratio_fits(q as int, b as int),
        r matches Some(v) ==> v == ratio(q as int, b as int),
{
    if b == 0 {
        return None;
    }
    match q.checked_mul(FIXED_POINT_SCALE) {
        None => None,
        Some(scaled) => {
            if b == -1 && scaled == i128::MIN {
                let ghost most = -scaled;
                assert(most / (-1) == -most) by (nonlinear_arith);
                None
            } else {
                proof {
                    lemma_trunc_fits(scaled as int, b as int);
                }
                Some(scaled / b)
            }
        },
    }
}

/// Whether the cost can be computed.
pub fn lmsr_cost_fits(q_yes: i128, q_no: i128, b: i128) -> (yes: bool)
    ensures
        yes == cost_fits(q_yes as int, q_no as int, b as int),
{
    match (checked_ratio(q_yes, b), checked_ratio(q_no, b)) {
        (Some(yes), Some(no)) => {
            let sum: i128 = exp_fixed_point(yes) + exp_fixed_point(no);
            if sum <= 0 {
                return false;
            }
            let ln_sum: i128 = ln_fixed_point(sum);
            b.checked_mul(ln_sum).is_some()
        },
        _ => false,
    }
}

/// Whether both weights come out as zero, so that their sum has no logarithm.
pub fn lmsr_weights_vanish(q_yes: i128, q_no: i128, b: i128) -> (yes: bool)
    ensures
        yes == (ratio_fits(q_yes as int, b as int) && ratio_fits(q_no as int, b as int)
            && weight_sum(q_yes as int, q_no as int, b as int) <= 0),
{
    match (checked_ratio(q_yes, b), checked_ratio(q_no, b)) {
        (Some(yes), Some(no)) => exp_fixed_point(yes) + exp_fixed_point(no) <= 0,
        _ => false,
    }
}

/// The cost function `C(q_yes, q_no) = b * ln(e^(q_yes/b) + e^(q_no/b))`, where
/// `b` is the liquidity parameter.
pub fn lmsr_cost(q_yes: i128, q_no: i128, b: i128) -> (cost: i128)
    requires
        cost_fits(q_yes as int, q_no as int, b as int),
    ensures
        cost == cost_of(q_yes as int, q_no as int, b as int),
{
    let q_yes_scaled: i128 = q_yes * FIXED_POINT_SCALE / b;
    let q_no_scaled: i128 = q_no * FIXED_POINT_SCALE / b;
    let sum: i128 = exp_fixed_point(q_yes_scaled) + exp_fixed_point(q_no_scaled);
    let ln_sum: i128 = ln_fixed_point(sum);
    b * ln_sum / FIXED_POINT_SCALE
}

/// Whether the price can be computed.
pub fn yes_price_fits(q_yes: i128, q_no: i128, b: i128) -> (yes: bool)
    ensures
        yes == price_fits(q_yes as int, q_no as int, b as int),
{
    match (checked_ratio(q_yes, b), checked_ratio(q_no, b)) {
        (Some(_), Some(_)) => true,
        _ => false,
    }
}

/// The current price of the yes outcome in basis points.
pub fn get_yes_price_bps(q_yes: i128, q_no: i128, b: i128) -> (bps: u32)
    requires
        price_fits(q_yes as int, q_no as int, b as int),
    ensures
        bps == yes_price_of(q_yes as int, q_no as int, b as int),
        bps <= FULL_PRICE_BPS,
{
    let q_yes_scaled: i128 = q_yes * FIXED_POINT_SCALE / b;
    let q_no_scaled: i128 = q_no * FIXED_POINT_SCALE / b;
    let exp_yes: i128 = exp_fixed_point(q_yes_scaled);
    let exp_no: i128 = exp_fixed_point(q_no_scaled);
    let sum: i128 = exp_yes + exp_no;
    proof {
        lemma_weights(q_yes_scaled as int, q_no_scaled as int);
    }
    let price: i128 = if sum == 0 {
        FIXED_POINT_SCALE / 2
    } else {
        match exp_yes.checked_mul(FIXED_POINT_SCALE) {
            Some(scaled) => scaled / sum,
            None => exp_yes / (sum / FIXED_POINT_SCALE),
        }
    };
    let bps: i128 = price * (FULL_PRICE_BPS as i128) / FIXED_POINT_SCALE;
    bps as u32
}

/// A weight can be scaled, or is the largest there is.
pub open spec fn is_weight(x: int) -> bool {
    0 <= x < 149 * FIXED_POINT_SCALE || x == i128::MAX as int / 2
}

/// A share lies between zero and one. It is not below the exact share, and where
/// the weight can be scaled it is that share, rounded down.
proof fn lemma_share(x: int, y: int)
    requires
        is_weight(x),
        is_weight(y),
        x + y > 0,
    ensures
        0 <= share_of(x, x + y) <= FIXED_POINT_SCALE,
        x * FIXED_POINT_SCALE / (x + y) <= share_of(x, x + y),
        fits(x * FIXED_POINT_SCALE) <==> x < 149 * FIXED_POINT_SCALE,
        !fits(x * FIXED_POINT_SCALE) ==> (x + y) / (FIXED_POINT_SCALE as int) > 0,
{
    let s = FIXED_POINT_SCALE as int;
    let sum = x + y;
    assert(0 <= x * s / sum <= s) by (nonlinear_arith)
        requires
            0 <= x <= sum,
            sum > 0,
            s > 0,
    ;
    if x >= 149 * s {
        let d = sum / s;
        let r = sum % s;
        assert(sum == d * s + r && 0 <= r < s && d > s);
        let p = x / d;
        assert(0 <= p <= s) by (nonlinear_arith)
            requires
                0 <= x <= d * s + r,
                r < d,
                d > 0,
                p == x / d,
        ;
        let q = x * s / sum;
        assert(q <= p) by (nonlinear_arith)
            requires
                q == x * s / sum,
                p == x / d,
                sum >= d * s,
                d > 0,
                s > 0,
                x >= 0,
        ;
    }
}

proof fn lemma_weights(u: int, v: int)
    ensures
        is_weight(exp_of(u)),
        is_weight(exp_of(v)),
        exp_of(u) + exp_of(v) > 0 ==> ({
            let (x, y) = (exp_of(u), exp_of(v));
            &&& 0 <= share_of(x, x + y) <= FIXED_POINT_SCALE
            &&& !fits(x * FIXED_POINT_SCALE) ==> (x + y) / (FIXED_POINT_SCALE as int) > 0
        }),
{
    lemma_exp_range(u);
    lemma_exp_range(v);
    if exp_of(u) + exp_of(v) > 0 {
        lemma_share(exp_of(u), exp_of(v));
    }
}

/// Sides with equal pools trade at one half.
pub proof fn law_equal_pools_trade_at_half(q: int, b: int)
    ensures
        yes_price_of(q, q, b) == 5000,
{
    let e = exp_of(ratio(q, b));
    let s = FIXED_POINT_SCALE as int;
    lemma_exp_range(ratio(q, b));
    if e >= 149 * s {
        assert(e == 85070591730234615865843651857942052863);
        assert((e + e) / s == 170141183460469231731);
        assert(e / 170141183460469231731 == 500000000000000000);
    } else if e + e != 0 {
        assert(e * s / (e + e) == s / 2) by (nonlinear_arith)
            requires
                e != 0,
                s == 1_000_000_000_000_000_000,
        ;
    }
}

/// A larger weight has no lower price.
proof fn lemma_price_order(x: int, y: int, n: int)
    requires
        is_weight(x),
        is_weight(y),
        is_weight(n),
        x <= y,
    ensures
        price_of(x, n) <= price_of(y, n),
{
    let s = FIXED_POINT_SCALE as int;
    if x + n > 0 {
        lemma_share(x, n);
        lemma_share(y, n);
        let px = x * s / (x + n);
        let py = y * s / (y + n);
        assert(px <= py) by (nonlinear_arith)
            requires
                0 <= x <= y,
                n >= 0,
                x + n > 0,
                s > 0,
                px == x * s / (x + n),
                py == y * s / (y + n),
        ;
        vstd::arithmetic::div_mod::lemma_div_is_ordered(
            share_of(x, x + n) * FULL_PRICE_BPS,
            share_of(y, y + n) * FULL_PRICE_BPS,
            s,
        );
    } else if y > 0 {
        lemma_share(y, n);
        let py = y * s / (y + n);
        assert(py == s) by (nonlinear_arith)
            requires
                y > 0,
                n == 0,
                py == y * s / (y + n),
        ;
    }
}

/// More shares on the yes side never lower its price.
pub proof fn law_yes_price_monotone(q: int, more: int, q_no: int, b: int)
    requires
        b > 0,
        q <= more,
    ensures
        yes_price_of(q, q_no, b) <= yes_price_of(more, q_no, b),
{
    lemma_ratio_order(q, more, b);
    law_exp_monotone(ratio(q, b), ratio(more, b));
    lemma_exp_range(ratio(q, b));
    lemma_exp_range(ratio(more, b));
    lemma_exp_range(ratio(q_no, b));
    lemma_price_order(exp_of(ratio(q, b)), exp_of(ratio(more, b)), exp_of(ratio(q_no, b)));
}

/// The prices of the two sides, each rounded down, sum to the full price or one
/// basis point less.
pub proof fn law_prices_of_both_sides(q_yes: int, q_no: int, b: int)
    ensures
        FULL_PRICE_BPS - 1 <= yes_price_of(q_yes, q_no, b) + yes_price_of(q_no, q_yes, b)
            <= FULL_PRICE_BPS,
{
    let s = FIXED_POINT_SCALE as int;
    let x = exp_of(ratio(q_yes, b));
    let y = exp_of(ratio(q_no, b));
    lemma_exp_range(ratio(q_yes, b));
    lemma_exp_range(ratio(q_no, b));
    if x + y > 0 {
        lemma_share(x, y);
        lemma_share(y, x);
        let sum = x + y;
        let p = x * s / sum;
        let q = y * s / sum;
        assert(s - 1 <= p + q <= s) by (nonlinear_arith)
            requires
                p == x * s / sum,
                q == y * s / sum,
                sum == x + y,
                sum > 0,
                x >= 0,
                y >= 0,
        ;
        if x >= 149 * s && y >= 149 * s {
            law_equal_pools_trade_at_half(q_yes, b);
            assert(x == y);
        } else if x >= 149 * s {
            lemma_small_share(y, x);
        } else if y >= 149 * s {
            lemma_small_share(x, y);
        }
    }
}

/// A side whose exponential saturates, against one whose does not, trades within
/// a basis point of the full price.
pub proof fn law_saturated_side_is_nearly_certain(q_yes: int, q_no: int, b: int)
    requires
        ratio(q_yes, b) > 5 * FIXED_POINT_SCALE,
        ratio(q_no, b) <= 5 * FIXED_POINT_SCALE,
    ensures
        FULL_PRICE_BPS - 1 <= yes_price_of(q_yes, q_no, b) <= FULL_PRICE_BPS,
{
    let s = FIXED_POINT_SCALE as int;
    let x = exp_of(ratio(q_yes, b));
    let y = exp_of(ratio(q_no, b));
    law_exp_monotone(ratio(q_no, b), 5 * FIXED_POINT_SCALE);
    lemma_exp_range(ratio(q_no, b));
    lemma_exp_five();
    lemma_share(x, y);
    lemma_small_share(y, x);
    let sum = x + y;
    let p = x * s / sum;
    let q = y * s / sum;
    assert(s - 1 <= p + q) by (nonlinear_arith)
        requires
            p == x * s / sum,
            q == y * s / sum,
            sum == x + y,
            sum > 0,
    ;
}

/// Against a saturated weight any other has hardly a share.
proof fn lemma_small_share(x: int, y: int)
    requires
        0 <= x < 149 * FIXED_POINT_SCALE,
        y == i128::MAX as int / 2,
    ensures
        0 <= x * FIXED_POINT_SCALE / (x + y) <= 2,
{
    let s = FIXED_POINT_SCALE as int;
    let q = x * s / (x + y);
    assert(0 <= q <= 2) by (nonlinear_arith)
        requires
            q == x * s / (x + y),
            0 <= x * s < 3 * (x + y),
            x + y > 0,
    ;
}

proof fn lemma_ratio_order(q: int, more: int, b: int)
    requires
        b > 0,
        q <= more,
    ensures
        ratio(q, b) <= ratio(more, b),
{
    let s = FIXED_POINT_SCALE as int;
    let x = q * s;
    let y = more * s;
    assert(x <= y);
    if x >= 0 {
        vstd::arithmetic::div_mod::lemma_div_is_ordered(x, y, b);
    } else if y < 0 {
        vstd::arithmetic::div_mod::lemma_div_is_ordered(-y, -x, b);
    } else {
        vstd::arithmetic::div_mod::lemma_div_pos_is_pos(-x, b);
        vstd::arithmetic::div_mod::lemma_div_pos_is_pos(y, b);
    }
}

/// The higher the liquidity, the less a first bet moves the price from one half.
pub proof fn law_liquidity_damps_first_bet(q: int, b: int, more: int)
    requires
        0 <= q,
        0 < b <= more,
    ensures
        5000 <= yes_price_of(q, 0, more) <= yes_price_of(q, 0, b),
{
    let s = FIXED_POINT_SCALE as int;
    let p = q * s;
    assert(ratio(0, b) == 0 && ratio(0, more) == 0) by {
        assert(0int / b == 0 && 0int / more == 0) by (nonlinear_arith)
            requires
                b > 0,
                more > 0,
        ;
    }
    vstd::arithmetic::div_mod::lemma_div_is_ordered_by_denominator(p, b, more);
    vstd::arithmetic::div_mod::lemma_div_pos_is_pos(p, more);
    law_exp_monotone(ratio(q, more), ratio(q, b));
    law_exp_monotone(0, ratio(q, more));
    lemma_exp_zero();
    let x = exp_of(ratio(q, more));
    let y = exp_of(ratio(q, b));
    lemma_exp_range(ratio(q, more));
    lemma_exp_range(ratio(q, b));
    lemma_price_order(x, y, s);
    lemma_price_order(s, x, s);
    assert(price_of(s, s) == 5000);
}

/// Adding to either pool never lowers the cost.
pub proof fn law_cost_monotone(y: int, n: int, y2: int, n2: int, b: int)
    requires
        b > 0,
        0 <= y <= y2,
        0 <= n <= n2,
    ensures
        cost_of(y, n, b) <= cost_of(y2, n2, b),
{
    let s = FIXED_POINT_SCALE as int;
    lemma_ratio_order(y, y2, b);
    lemma_ratio_order(n, n2, b);
    vstd::arithmetic::div_mod::lemma_div_pos_is_pos(y * s, b);
    vstd::arithmetic::div_mod::lemma_div_pos_is_pos(n * s, b);
    law_exp_monotone(ratio(y, b), ratio(y2, b));
    law_exp_monotone(ratio(n, b), ratio(n2, b));
    law_exp_monotone(0, ratio(y, b));
    law_exp_monotone(0, ratio(n, b));
    lemma_exp_zero();
    let w = weight_sum(y, n, b);
    let w2 = weight_sum(y2, n2, b);
    law_ln_monotone(w, w2);
    lemma_ln_range(w);
    let l = ln_of(w);
    let l2 = ln_of(w2);
    assert(0 <= b * l <= b * l2) by (nonlinear_arith)
        requires
            b > 0,
            0 <= l <= l2,
    ;
    vstd::arithmetic::div_mod::lemma_div_is_ordered(b * l, b * l2, s);
}

/// The quotient of a pool by the liquidity parameter is rounded toward zero, to the
/// last unit of fixed point, and takes the signs of both.
pub proof fn law_ratio(q: int, b: int)
    requires
        b != 0,
    ensures
        b > 0 && q >= 0 ==> ratio(q, b) * b <= 1_000_000_000_000_000_000 * q < (ratio(q, b) + 1)
            * b && ratio(q, b) >= 0,
        ratio(-q, b) == -ratio(q, b),
        ratio(q, -b) == -ratio(q, b),
{
    let a = q * FIXED_POINT_SCALE;
    if b > 0 && q >= 0 {
        let r = a / b;
        assert(r * b <= a < (r + 1) * b && r >= 0) by (nonlinear_arith)
            requires
                r == a / b,
                b > 0,
                a >= 0,
        ;
    }
    let m = if a >= 0 { a } else { -a };
    assert(m / (-b) == -(m / b)) by (nonlinear_arith)
        requires
            m >= 0,
            b != 0,
    ;
    assert(0int / b == 0 && 0int / (-b) == 0) by (nonlinear_arith)
        requires
            b != 0,
    ;
    assert((-q) * FIXED_POINT_SCALE == -a);
}

/// The cost of pools. With `u` and `v` for the pools over the liquidity parameter, it
/// is that parameter times the logarithm of the sum of their exponentials, rounded
/// down; it does not tell the pools apart.
pub proof fn law_cost(y: int, n: int, b: int, u: int, v: int)
    requires
        0 < b <= i128::MAX,
        y >= 0,
        n >= 0,
        u * b <= 1_000_000_000_000_000_000 * y < (u + 1) * b,
        v * b <= 1_000_000_000_000_000_000 * n < (v + 1) * b,
    ensures
        cost_of(y, n, b) * 1_000_000_000_000_000_000 <= b * ln_of(exp_of(u) + exp_of(v))
            < (cost_of(y, n, b) + 1) * 1_000_000_000_000_000_000,
        cost_of(y, n, b) == cost_of(n, y, b),
        cost_fits(y, n, b) <==> 1_000_000_000_000_000_000 * y <= i128::MAX
            && 1_000_000_000_000_000_000 * n <= i128::MAX && b * ln_of(exp_of(u) + exp_of(v))
            <= i128::MAX,
{
    lemma_quotient(y, b, u);
    lemma_quotient(n, b, v);
    law_exp_monotone(0, u);
    law_exp_monotone(0, v);
    lemma_exp_zero();
    let w = exp_of(u) + exp_of(v);
    lemma_ln_range(w);
    let l = ln_of(w);
    assert(b * l >= 0) by (nonlinear_arith)
        requires
            b > 0,
            l >= 0,
    ;
    law_computable(y, n, b);
}

proof fn lemma_quotient(q: int, b: int, u: int)
    requires
        b > 0,
        q >= 0,
        u * b <= 1_000_000_000_000_000_000 * q < (u + 1) * b,
    ensures
        ratio(q, b) == u,
        u >= 0,
{
    let a = q * FIXED_POINT_SCALE;
    let r = a / b;
    assert(r == u && u >= 0) by (nonlinear_arith)
        requires
            r == a / b,
            b > 0,
            a >= 0,
            u * b <= a < (u + 1) * b,
    ;
}

/// When prices and costs can be computed: with a liquidity parameter that is not
/// zero, as long as the pools in fixed point stay in range; costs also need weights
/// that do not both vanish, and to stay in range themselves.
pub proof fn law_computable(y: int, n: int, b: int)
    requires
        fits(b),
    ensures
        ({
            let pools = b != 0 && i128::MIN <= 1_000_000_000_000_000_000 * y <= i128::MAX
                && i128::MIN <= 1_000_000_000_000_000_000 * n <= i128::MAX;
            let w = exp_of(ratio(y, b)) + exp_of(ratio(n, b));
            &&& price_fits(y, n, b) <==> pools
            &&& cost_fits(y, n, b) <==> pools && w > 0 && i128::MIN <= b * ln_of(w) <= i128::MAX
        }),
{
    let s = FIXED_POINT_SCALE as int;
    assert(y * s != i128::MIN as int && n * s != i128::MIN as int);
    if b != 0 && fits(y * s) {
        lemma_trunc_fits(y * s, b);
    }
    if b != 0 && fits(n * s) {
        lemma_trunc_fits(n * s, b);
    }
}

/// The price of the yes side, for any pools whose exponentials are in range: it is the
/// share of the one exponential in the sum of both, in basis points, rounded down,
/// short of it by no more than a basis point and what rounding in fixed point takes.
pub proof fn law_price_is_a_share(y: int, n: int, b: int)
    requires
        ratio(y, b) <= 5_000_000_000_000_000_000,
        ratio(n, b) <= 5_000_000_000_000_000_000,
        exp_of(ratio(y, b)) + exp_of(ratio(n, b)) > 0,
    ensures
        ({
            let p = yes_price_of(y, n, b);
            let x = exp_of(ratio(y, b));
            let sum = x + exp_of(ratio(n, b));
            &&& p * sum <= 10_000 * x
            &&& 10_000 * x * 1_000_000_000_000_000_000 < (p + 1) * sum * 1_000_000_000_000_000_000
                + 10_000 * sum
        }),
{
    let s = FIXED_POINT_SCALE as int;
    law_exp_monotone(ratio(y, b), 5 * s);
    law_exp_monotone(ratio(n, b), 5 * s);
    lemma_exp_five();
    lemma_exp_range(ratio(y, b));
    lemma_exp_range(ratio(n, b));
    let x = exp_of(ratio(y, b));
    let sum = x + exp_of(ratio(n, b));
    lemma_share(x, exp_of(ratio(n, b)));
    let q = x * s / sum;
    let p = q * 10_000 / s;
    assert(yes_price_of(y, n, b) == p);
    assert(q * sum <= x * s < (q + 1) * sum) by (nonlinear_arith)
        requires
            q == x * s / sum,
            sum > 0,
    ;
    assert(p * s <= q * 10_000 < (p + 1) * s);
    assert(p * sum <= 10_000 * x) by (nonlinear_arith)
        requires
            p * s <= q * 10_000,
            q * sum <= x * s,
            s > 0,
            sum > 0,
    ;
    assert(10_000 * x * s < (p + 1) * sum * s + 10_000 * sum) by (nonlinear_arith)
        requires
            q * 10_000 < (p + 1) * s,
            x * s < (q + 1) * sum,
            s > 0,
            sum > 0,
    ;
}

/// The price of the yes side, with `u` and `v` for pools over the liquidity parameter.
pub proof fn law_price(y: int, n: int, b: int, u: int, v: int)
    requires
        b > 0,
        y >= 0,
        n >= 0,
        u * b <= 1_000_000_000_000_000_000 * y < (u + 1) * b,
        v * b <= 1_000_000_000_000_000_000 * n < (v + 1) * b,
        u <= 5_000_000_000_000_000_000,
        v <= 5_000_000_000_000_000_000,
    ensures
        ({
            let p = yes_price_of(y, n, b);
            let sum = exp_of(u) + exp_of(v);
            &&& p * sum <= 10_000 * exp_of(u)
            &&& 10_000 * exp_of(u) * 1_000_000_000_000_000_000 < (p + 1) * sum
                * 1_000_000_000_000_000_000 + 10_000 * sum
        }),
{
    lemma_quotient(y, b, u);
    lemma_quotient(n, b, v);
    law_exp_monotone(0, u);
    law_exp_monotone(0, v);
    lemma_exp_zero();
    law_price_is_a_share(y, n, b);
}

/// Where both exponentials saturate, or both vanish, the price is one half.
pub proof fn law_price_where_weights_are_equal(y: int, n: int, b: int)
    requires
        exp_of(ratio(y, b)) == exp_of(ratio(n, b)),
    ensures
        yes_price_of(y, n, b) == 5_000,
{
    law_equal_pools_trade_at_half(y, b);
}

/// The cost of any pools whose exponentials do not both vanish: the liquidity
/// parameter times the logarithm of the sum, rounded toward zero.
pub proof fn law_cost_rounds_toward_zero(y: int, n: int, b: int)
    ensures
        ({
            let c = cost_of(y, n, b);
            let exact = b * ln_of(exp_of(ratio(y, b)) + exp_of(ratio(n, b)));
            &&& exact >= 0 ==> c * 1_000_000_000_000_000_000 <= exact < (c + 1)
                * 1_000_000_000_000_000_000
            &&& exact < 0 ==> (c - 1) * 1_000_000_000_000_000_000 < exact <= c
                * 1_000_000_000_000_000_000
            &&& exact >= 0 ==> c >= 0
            &&& exact < 0 ==> c <= 0
        }),
{
}

} // verus!
