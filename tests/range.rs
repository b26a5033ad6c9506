use slight::range::{Range, RangeBuilder};

#[test]
fn range_normalized_len_eq_100() {
    assert_eq!(Range::normalized(0, 255).len(), 100);
}

#[test]
fn normalized_levels_are_exact() {
    let levels = Range::normalized(0, 255);
    assert_eq!(levels[0], 2);
    assert_eq!(levels[1], 5);
    assert_eq!(levels[49], 127);
    assert_eq!(levels[99], 255);
    let shifted = Range::normalized(10, 110);
    assert_eq!(shifted[0], 11);
    assert_eq!(shifted[99], 110);
}

#[test]
fn normalized_of_empty_range_is_all_zero() {
    let levels = Range::normalized(0, 0);
    assert_eq!(levels.len(), 100);
    assert!(levels.iter().all(|&v| v == 0));
}

#[test]
fn same_target_gives_no_steps() {
    assert!(Range::from_a_to_b(7, 7).is_empty());
    assert!(Range::new(7, 10).to().absolute(7).build().is_empty());
    assert!(Range::new(7, 10).by().absolute(0).build().is_empty());
}

#[test]
fn ascending_steps_exclude_start() {
    assert_eq!(Range::from_a_to_b(3, 6), vec![4, 5, 6]);
}

#[test]
fn descending_steps_exclude_start() {
    assert_eq!(Range::from_a_to_b(6, 3), vec![5, 4, 3]);
}

#[test]
fn to_absolute_up() {
    let steps = Range::new(10, 100).to().absolute(50).build();
    let expected: Vec<usize> = (11..=50).collect();
    assert_eq!(steps.len(), 40);
    assert_eq!(steps, expected);
}

#[test]
fn to_absolute_down() {
    let steps = Range::new(50, 100).to().absolute(10).build();
    let expected: Vec<usize> = (10..50).rev().collect();
    assert_eq!(steps.len(), 40);
    assert_eq!(steps, expected);
}

#[test]
fn absolute_targets_are_clamped() {
    assert_eq!(Range::new(98, 100).to().absolute(500).build(), vec![99, 100]);
    assert_eq!(Range::new(2, 100).to().absolute(-5).build(), vec![1, 0]);
    assert_eq!(Range::new(98, 100).by().absolute(30).build(), vec![99, 100]);
    assert_eq!(Range::new(2, 100).by().absolute(-30).build(), vec![1, 0]);
}

#[test]
fn relative_target_rounds_to_nearest() {
    assert_eq!(Range::new(0, 255).to().relative(5000).target(), 128);
    assert_eq!(Range::new(0, 255).to().relative(1000).target(), 26);
    assert_eq!(Range::new(0, 255).to().relative(15000).target(), 255);
    assert_eq!(Range::new(100, 255).by().relative(-1000).target(), 74);
    assert_eq!(Range::new(100, 255).by().absolute(5).target(), 105);
}

#[test]
fn fractional_percent_target() {
    // 2.5% of 255 is 6.375, which rounds to 6.
    assert_eq!(Range::new(0, 255).to().relative(250).target(), 6);
    // 0.5% of 100 is 0.5, which rounds up to 1.
    assert_eq!(Range::new(10, 100).by().relative(50).build(), vec![11]);
    // 2.5% at an exponent of 2.0 takes five levels.
    assert_eq!(Range::by_percent(0, 100, 250, 200), vec![1, 2, 3, 4, 5]);
}

#[test]
fn by_percent_without_exponent_is_linear() {
    let steps = Range::new(0, 100).by().relative(1000).build();
    let expected: Vec<usize> = (1..=10).collect();
    assert_eq!(steps, expected);
}

#[test]
fn shaped_relative_up_takes_percentile_levels() {
    // 2% at an exponent of 2.0 visits four percentile levels above 10.
    let steps = Range::new(10, 255).by().relative(200).exp(200).build();
    assert_eq!(steps, vec![12, 15, 17, 20]);
}

#[test]
fn shaped_relative_down_takes_percentile_levels() {
    let steps = Range::new(10, 255).by().relative(-200).exp(200).build();
    assert_eq!(steps, vec![7, 5, 2]);
}

#[test]
fn shaped_steps_have_no_duplicates_on_small_devices() {
    let steps = Range::by_percent(0, 10, 5000, 400);
    assert_eq!(steps, (1..=10).collect::<Vec<usize>>());
    assert!(steps.windows(2).all(|w| w[0] < w[1]));
    let down = Range::by_percent(7, 10, -5000, 400);
    assert_eq!(down, vec![6, 5, 4, 3, 2, 1, 0]);
}

#[test]
fn shaped_absolute_moves_stay_linear() {
    let steps = Range::new(1, 5).to().absolute(4).exp(400).build();
    assert_eq!(steps, vec![2, 3, 4]);
}
