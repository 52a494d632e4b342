use basket_grid_engine::amount::{
    average_of, cents, clamped, exact_times, gap, magnitude, max, min, minus, plus, plus_wide,
    rate_of, scale, share_of, snap, tick_down, tick_up, times, weighted_mean, UNIT,
};

fn u(x: i64) -> i64 {
    x * UNIT
}

#[test]
fn sums_saturate() {
    assert_eq!(plus(u(2), u(3)), u(5));
    assert_eq!(minus(u(2), u(3)), u(-1));
    assert_eq!(plus(i64::MAX, 1), i64::MAX);
    assert_eq!(minus(i64::MIN, 1), i64::MIN);
    assert_eq!(clamped(1 << 100), i64::MAX);
    assert_eq!(clamped(-(1 << 100)), i64::MIN);
    assert_eq!(clamped(-7), -7);
}

#[test]
fn distances_are_exact() {
    assert_eq!(gap(i64::MIN, i64::MAX), u64::MAX);
    assert_eq!(gap(u(3), u(5)), u(2) as u64);
    assert_eq!(magnitude(-5), 5);
    assert_eq!(magnitude(i64::MIN), i64::MAX);
    assert_eq!(max(1, 2), 2);
    assert_eq!(min(1, 2), 1);
}

#[test]
fn products_and_quotients() {
    assert_eq!(times(u(3), u(4)), u(12));
    assert_eq!(times(UNIT / 2, UNIT / 2), UNIT / 4);
    assert_eq!(times(u(-3), UNIT / 2), -150_000_000);
    assert_eq!(scale(u(1), UNIT, u(3)), 33_333_333);
    assert_eq!(scale(u(-2), UNIT, u(3)), -66_666_667);
    assert_eq!(scale(7, 1, 2), 4);
    assert_eq!(scale(-7, 1, 2), -4);
    assert_eq!(scale(5, 1, 10), 1);
    assert_eq!(scale(4, 1, 10), 0);
    assert_eq!(times(i64::MAX, i64::MAX), i64::MAX);
    assert_eq!(times(i64::MAX, i64::MIN), i64::MIN);
}

#[test]
fn averages_come_from_exact_sums() {
    // A million at a hundred thousand, and as much at twice that.
    let once = exact_times(u(100_000), u(1_000_000));
    assert_eq!(average_of(once, u(1_000_000)), u(100_000));
    let both = plus_wide(once, exact_times(u(200_000), u(1_000_000)));
    assert_eq!(average_of(both, u(2_000_000)), u(150_000));
    assert_eq!(average_of(exact_times(u(-2), UNIT), u(3)), -66_666_667);
    assert_eq!(average_of(i128::MIN, 1), i64::MIN);
    assert_eq!(plus_wide(i128::MAX, 1), i128::MAX);
    assert_eq!(plus_wide(i128::MIN, -1), i128::MIN);
    assert_eq!(plus_wide(5, -7), -2);
}

#[test]
fn means_weigh_their_parts() {
    // One unit at 100 and three at 200 average 175.
    assert_eq!(weighted_mean(u(1), u(100), u(3), u(200), u(4)), u(175));
    assert_eq!(weighted_mean(0, u(50), u(2), u(60), u(2)), u(60));
}

#[test]
fn rates_and_shares() {
    // Six in half an hour are twelve an hour.
    assert_eq!(rate_of(6, 3_600_000, 1_800_000), u(12));
    assert_eq!(rate_of(1, 3_600_000, 3_600_000), UNIT);
    assert_eq!(share_of(u(10), 4), 250_000_000);
    assert_eq!(share_of(-5, 2), -3);
}

#[test]
fn ticks_are_half_units() {
    assert_eq!(tick_up(u(10)), u(10));
    assert_eq!(tick_up(u(10) + 1), u(10) + UNIT / 2);
    assert_eq!(tick_down(u(10) - 1), u(9) + UNIT / 2);
    assert_eq!(tick_up(-u(10) - 1), -u(10));
    assert_eq!(tick_down(-u(10) - 1), -u(10) - UNIT / 2);
    assert_eq!(tick_up(201_225_000_000), u(2012) + UNIT / 2);
    assert_eq!(tick_down(200_975_000_000), u(2009) + UNIT / 2);
}

#[test]
fn cents_round_to_the_nearest() {
    assert_eq!(cents(u(12)), 1200);
    assert_eq!(cents(1_499_999), 1);
    assert_eq!(cents(1_500_000), 2);
    assert_eq!(cents(-1_500_000), -2);
}

#[test]
fn snapping_goes_to_the_nearest_multiple() {
    assert_eq!(snap(u(14), u(10)), u(10));
    assert_eq!(snap(u(15), u(10)), u(20));
    assert_eq!(snap(-u(15), u(10)), -u(20));
    assert_eq!(snap(u(3), 1), u(3));
}

#[test]
fn a_mean_lies_between_its_parts() {
    let m = weighted_mean(u(1), u(100), u(2), u(101), u(3));
    assert!(u(100) <= m && m <= u(101));
    assert_eq!(m, 10_066_666_667);
}
