use tce::aggregate::AggregateResult;
use tce::attributes::{reflectance_to_intensity, temperature_to_color, Rgb};

#[test]
fn intensity_at_minimum_is_zero() {
    assert_eq!(reflectance_to_intensity(0, 0, 1_000_000), 0);
    assert_eq!(reflectance_to_intensity(-500_000, -500_000, 500_000), 0);
}

#[test]
fn intensity_at_maximum_is_full() {
    assert_eq!(reflectance_to_intensity(1_000_000, 0, 1_000_000), 65535);
    assert_eq!(reflectance_to_intensity(500_000, -500_000, 500_000), 65535);
}

#[test]
fn intensity_at_midpoint_rounds_to_half() {
    assert_eq!(reflectance_to_intensity(500_000, 0, 1_000_000), 32768);
}

#[test]
fn intensity_quarter_point() {
    // 65535 * 0.25 = 16383.75, rounded to 16384.
    assert_eq!(reflectance_to_intensity(250_000, 0, 1_000_000), 16384);
}

#[test]
fn intensity_saturates_outside_range() {
    assert_eq!(reflectance_to_intensity(-1, 0, 1_000_000), 0);
    assert_eq!(reflectance_to_intensity(2_000_000, 0, 1_000_000), 65535);
}

#[test]
fn cold_temperatures_are_blue() {
    let c = temperature_to_color(&AggregateResult::Value(0), 0, 40_000);
    assert_eq!(c, Rgb { red: 0, green: 0, blue: 255 });
    let below = temperature_to_color(&AggregateResult::Value(-10_000), 0, 40_000);
    assert_eq!(below, Rgb { red: 0, green: 0, blue: 255 });
}

#[test]
fn hot_temperatures_are_red() {
    let c = temperature_to_color(&AggregateResult::Value(40_000), 0, 40_000);
    assert_eq!(c, Rgb { red: 255, green: 0, blue: 0 });
    let above = temperature_to_color(&AggregateResult::Value(90_000), 0, 40_000);
    assert_eq!(above, Rgb { red: 255, green: 0, blue: 0 });
}

#[test]
fn midpoint_temperature_is_half_purple() {
    let c = temperature_to_color(&AggregateResult::Value(20_000), 0, 40_000);
    assert_eq!(c, Rgb { red: 128, green: 0, blue: 128 });
}

#[test]
fn no_data_maps_to_black() {
    let c = temperature_to_color(&AggregateResult::NoData, 0, 40_000);
    assert_eq!(c, Rgb { red: 0, green: 0, blue: 0 });
}

#[test]
fn gradient_is_monotone_in_red() {
    let mut last = 0;
    for t in [0i64, 10_000, 20_000, 30_000, 40_000] {
        let c = temperature_to_color(&AggregateResult::Value(t), 0, 40_000);
        assert!(c.red as i64 >= last);
        last = c.red as i64;
    }
}
