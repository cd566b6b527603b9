//! The exponential, the logarithm and the market's cost and prices.

use mentorminds::fixed_point::{exp_fixed_point, ln_fixed_point, FIXED_POINT_SCALE, LN_2};
use mentorminds::lmsr::{
    get_yes_price_bps, lmsr_cost, lmsr_cost_fits, lmsr_weights_vanish, yes_price_fits,
};

const ONE: i128 = FIXED_POINT_SCALE;
const B: i128 = 100_000_000_000_000_000;

fn close(got: i128, want: f64) -> bool {
    let got = got as f64 / 1e18;
    (got - want).abs() <= want.abs() / 10_000.0
}

#[test]
fn exp_has_exact_values() {
    assert_eq!(exp_fixed_point(0), ONE);
    assert_eq!(exp_fixed_point(ONE), 2_718_281_828_459_045_226);
    assert_eq!(exp_fixed_point(-ONE), 367_879_441_171_442_322);
    assert_eq!(exp_fixed_point(ONE / 2), 1_648_721_270_700_128_139);
    assert_eq!(exp_fixed_point(5 * ONE), 148_413_147_067_381_816_348);
    assert_eq!(exp_fixed_point(-5 * ONE), 6_737_947_545_482_509);
}

#[test]
fn exp_is_within_a_ten_thousandth() {
    let mut x: i128 = -5 * ONE;
    while x <= 5 * ONE {
        assert!(close(exp_fixed_point(x), (x as f64 / 1e18).exp()), "at {}", x);
        x += ONE / 16;
    }
}

#[test]
fn exp_saturates_outside_its_range() {
    assert_eq!(exp_fixed_point(5 * ONE + 1), i128::MAX / 2);
    assert_eq!(exp_fixed_point(i128::MAX), i128::MAX / 2);
    assert_eq!(exp_fixed_point(-5 * ONE - 1), 0);
    assert_eq!(exp_fixed_point(i128::MIN), 0);
}

#[test]
fn exp_never_decreases() {
    let points = [i128::MIN, -6 * ONE, -5 * ONE, -ONE, -1, 0, 1, ONE, 5 * ONE, 6 * ONE];
    for pair in points.windows(2) {
        assert!(exp_fixed_point(pair[0]) <= exp_fixed_point(pair[1]));
    }
}

#[test]
fn ln_has_exact_values() {
    assert_eq!(ln_fixed_point(ONE), 0);
    assert_eq!(ln_fixed_point(2 * ONE), LN_2);
    assert_eq!(ln_fixed_point(ONE / 2), -LN_2);
    assert_eq!(ln_fixed_point(3 * ONE), 1_098_612_288_668_109_696);
    assert_eq!(ln_fixed_point(10 * ONE), 2_302_585_092_994_045_688);
    assert_eq!(ln_fixed_point(1), -41_446_531_673_892_822_284);
}

#[test]
fn ln_of_two_is_right() {
    assert_eq!(exp_fixed_point(LN_2), 2 * ONE - 10);
}

#[test]
fn ln_is_accurate() {
    for x in [ONE / 1000, ONE / 7, 3 * ONE / 2, 5 * ONE, 1000 * ONE, i128::MAX] {
        assert!(close(ln_fixed_point(x), (x as f64 / 1e18).ln()), "at {}", x);
    }
}

#[test]
fn ln_takes_back_exp() {
    for y in [0, 1, 2, 1000, ONE / 3, ONE / 2, 693_147_180_559_945_000] {
        assert_eq!(ln_fixed_point(exp_fixed_point(y)), y);
    }
}

#[test]
fn cost_has_exact_values() {
    assert_eq!(lmsr_cost(0, 0, B), 69_314_718_055_994_530);
    assert_eq!(lmsr_cost(100, 0, B), 69_314_718_055_994_580);
    assert_eq!(lmsr_cost(B, 0, B), 131_326_168_751_822_283);
    assert_eq!(lmsr_cost(B, B, B), 169_314_718_055_994_531);
    assert_eq!(lmsr_cost(0, B, B), lmsr_cost(B, 0, B));
}

#[test]
fn cost_is_refused_out_of_range() {
    assert!(lmsr_cost_fits(B, 0, B));
    assert!(!lmsr_cost_fits(1, 1, 0));
    assert!(!lmsr_cost_fits(i128::MAX, 0, B));
    assert!(!lmsr_cost_fits(0, i128::MIN, B));
    assert!(!lmsr_weights_vanish(i128::MAX, 0, B));
}

#[test]
fn cost_has_no_logarithm_where_both_weights_vanish() {
    assert!(lmsr_weights_vanish(-6 * B, -6 * B, B));
    assert!(!lmsr_cost_fits(-6 * B, -6 * B, B));
    assert!(!lmsr_weights_vanish(-6 * B, 0, B));
}

#[test]
fn price_has_exact_values() {
    assert_eq!(get_yes_price_bps(0, 0, B), 5000);
    assert_eq!(get_yes_price_bps(B, 0, B), 7310);
    assert_eq!(get_yes_price_bps(0, B, B), 2689);
    assert_eq!(get_yes_price_bps(2 * B, B, B), 7310);
    assert_eq!(get_yes_price_bps(100, 0, B), 5000);
}

#[test]
fn price_defaults_to_one_half() {
    assert_eq!(get_yes_price_bps(-6 * B, -6 * B, B), 5000);
    assert_eq!(get_yes_price_bps(3 * B, 3 * B, B), 5000);
}

#[test]
fn price_is_refused_out_of_range() {
    assert!(yes_price_fits(5 * B, 0, B));
    assert!(yes_price_fits(6 * B, 0, B));
    assert!(!yes_price_fits(0, 0, 0));
    assert!(!yes_price_fits(i128::MAX, 0, B));
    assert!(!yes_price_fits(0, i128::MIN, B));
}

#[test]
fn price_of_a_saturated_side() {
    assert_eq!(get_yes_price_bps(600, 0, 100), 9999);
    assert_eq!(get_yes_price_bps(0, 600, 100), 0);
    assert_eq!(get_yes_price_bps(600, 500, 100), 9999);
    assert_eq!(get_yes_price_bps(600, -600, 100), 10000);
    assert_eq!(get_yes_price_bps(600, 700, 100), 5000);
}

#[test]
fn prices_of_both_sides_sum_to_the_whole() {
    for (yes, no) in [(0, 0), (100, 0), (250, 130), (499, 1), (600, 0), (700, 600), (-600, -600)] {
        let sum = get_yes_price_bps(yes, no, 100) + get_yes_price_bps(no, yes, 100);
        assert!(sum == 9999 || sum == 10000, "{} {}", yes, no);
    }
}

#[test]
fn ln_never_decreases() {
    for x in [ONE / 4, ONE / 2, ONE, 2 * ONE, 4 * ONE, 8 * ONE, 1024 * ONE] {
        for d in -40..40 {
            assert!(ln_fixed_point(x + d) <= ln_fixed_point(x + d + 1));
        }
    }
    assert_eq!(ln_fixed_point(2 * ONE - 1), LN_2);
    assert_eq!(ln_fixed_point(2 * ONE), LN_2);
}

#[test]
fn cost_never_falls_as_pools_grow() {
    let q = 693_147_180_559_945_313;
    assert!(lmsr_cost(q, q, ONE) <= lmsr_cost(q + 1, q + 1, ONE));
    let mut last = lmsr_cost(0, 0, ONE);
    for i in 0..60 {
        let cost = lmsr_cost(i * ONE / 10, i * ONE / 15, ONE);
        assert!(cost >= last);
        last = cost;
    }
}

#[test]
fn price_rises_with_the_yes_side_and_falls_with_liquidity() {
    let mut last: u32 = 0;
    for q in 0..5 {
        let price = get_yes_price_bps(q * B, B, B);
        assert!(price >= last);
        last = price;
    }
    assert!(get_yes_price_bps(B, 0, 2 * B) < get_yes_price_bps(B, 0, B));
    assert!(get_yes_price_bps(B, 0, 2 * B) > 5000);
}
