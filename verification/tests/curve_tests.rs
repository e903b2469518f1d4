use fan_curve_app::convert::duty_to_pwm;
use fan_curve_app::convert::pwm_to_duty;
use fan_curve_app::fan::FanCurve;
use fan_curve_app::fan::FanCurveConfig;
use fan_curve_app::fan::FanPoint;
use fan_curve_app::monitor::FanMonitor;
use fan_curve_app::monitor::TickAction;

#[test]
fn test_fan_curve_interpolation() {
    let curve = FanCurve::standard();

    assert_eq!(curve.calculate_duty_for_temperature(0), 0);
    assert_eq!(curve.calculate_duty_for_temperature(30000), 2000);
    assert_eq!(curve.calculate_duty_for_temperature(70000), 6000);
    assert_eq!(curve.calculate_duty_for_temperature(100000), 10000);

    assert_eq!(curve.calculate_duty_for_temperature(35000), 2500);
    assert_eq!(curve.calculate_duty_for_temperature(65000), 5500);

    assert_eq!(curve.calculate_duty_for_temperature(0), 0);
    assert_eq!(curve.calculate_duty_for_temperature(150000), 10000);

    // Degrees Celsius given as whole degrees, scaled to thousandths.
    assert_eq!(curve.calculate_duty_for_temperature((0.0f32 * 1000.0) as u32), 0);
    assert_eq!(curve.calculate_duty_for_temperature((30.0f32 * 1000.0) as u32), 2000);
    assert_eq!(curve.calculate_duty_for_temperature((70.0f32 * 1000.0) as u32), 6000);
    assert_eq!(curve.calculate_duty_for_temperature((100.0f32 * 1000.0) as u32), 10000);
}

#[test]
fn interpolates_between_points_with_rounding() {
    // A 35 degree sample on the 30..100 span of 2000..10000 lands on
    // 2571 (factor 5/70 of the 8000 span, rounded).
    let mut curve = FanCurve::new("test".to_string());
    curve.add_point(0, 0);
    curve.add_point(30, 2000);
    curve.add_point(100, 10000);
    assert_eq!(curve.calculate_duty_for_temperature(35000), 2571);
}

#[test]
fn full_duty_at_the_top_point_gives_full_pwm() {
    let mut curve = FanCurve::new("test".to_string());
    curve.add_point(0, 0);
    curve.add_point(50, 10000);
    curve.add_point(100, 10000);
    let duty = curve.calculate_duty_for_temperature(50000);
    assert_eq!(duty, 10000);
    assert_eq!(duty_to_pwm(duty), 255);
}

#[test]
fn empty_curve_yields_zero_duty() {
    let curve = FanCurve::new("empty".to_string());
    assert_eq!(curve.calculate_duty_for_temperature(0), 0);
    assert_eq!(curve.calculate_duty_for_temperature(42000), 0);
    assert_eq!(curve.calculate_duty_for_temperature(4_000_000_000), 0);
}

#[test]
fn clamps_outside_the_curve_range() {
    let mut curve = FanCurve::new("clamp".to_string());
    curve.add_point(30, 2000);
    curve.add_point(100, 10000);
    assert_eq!(curve.calculate_duty_for_temperature(10_000), 2000);
    assert_eq!(curve.calculate_duty_for_temperature(30_000), 2000);
    assert_eq!(curve.calculate_duty_for_temperature(200_000), 10000);
}

#[test]
fn add_point_keeps_points_sorted() {
    let mut curve = FanCurve::new("sorted".to_string());
    curve.add_point(50, 5000);
    curve.add_point(10, 1000);
    curve.add_point(30, 3000);
    let pts: Vec<(i16, u16)> = curve.points().iter().map(|p| (p.temp, p.duty)).collect();
    assert_eq!(pts, vec![(10, 1000), (30, 3000), (50, 5000)]);
}

#[test]
fn remove_point_and_last_point() {
    let mut curve = FanCurve::new("edit".to_string());
    curve.add_point(10, 1000);
    curve.add_point(20, 2000);
    curve.add_point(30, 3000);
    let removed = curve.remove_point(1).unwrap();
    assert_eq!((removed.temp, removed.duty), (20, 2000));
    let last = curve.remove_last_point().unwrap();
    assert_eq!((last.temp, last.duty), (30, 3000));
    assert_eq!(curve.points().len(), 1);
    assert!(curve.remove_point(5).is_none());
    curve.remove_last_point();
    assert!(curve.remove_last_point().is_none());
}

#[test]
fn get_point_and_points_mut() {
    let mut curve = FanCurve::new("points".to_string());
    curve.add_point(10, 1000);
    assert_eq!(curve.get_point(0).unwrap().duty, 1000);
    assert!(curve.get_point(1).is_none());
    curve.points_mut().push(FanPoint::new(20, 2000));
    assert_eq!(curve.points().len(), 2);
    curve.set_name("renamed".to_string());
    assert_eq!(curve.name(), "renamed");
}

#[test]
fn pwm_conversions_round_to_nearest() {
    assert_eq!(duty_to_pwm(0), 0);
    assert_eq!(duty_to_pwm(10000), 255);
    assert_eq!(duty_to_pwm(5000), 128);
    assert_eq!(duty_to_pwm(2571), 66);
    assert_eq!(pwm_to_duty(0), 0);
    assert_eq!(pwm_to_duty(255), 10000);
    assert_eq!(pwm_to_duty(128), 5020);
}

#[test]
fn pwm_round_trip_is_close_and_inverse_exact() {
    for d in [0u16, 1, 39, 40, 2571, 5000, 9999, 10000] {
        let back = pwm_to_duty(duty_to_pwm(d));
        let diff = if back > d { back - d } else { d - back };
        assert!(diff <= 20, "duty {} came back as {}", d, back);
    }
    for p in [0u8, 1, 66, 127, 128, 254, 255] {
        assert_eq!(duty_to_pwm(pwm_to_duty(p)), p);
    }
}

#[test]
fn builtin_config_holds_the_four_reference_curves() {
    let config = FanCurveConfig::new();
    let names: Vec<&str> = config.curves.iter().map(|c| c.name()).collect();
    assert_eq!(names, vec!["Standard", "Threadripper 2", "HEDT", "Xeon"]);
    assert_eq!(config.default_curve_index, Some(0));
    assert_eq!(config.curves[3].points().len(), 11);
}

#[test]
fn monitor_drives_the_interpolated_duty() {
    let mut monitor = FanMonitor::new();
    monitor.start_monitoring();
    assert!(monitor.is_monitoring());

    // Without a curve a sample hands control back to the firmware.
    match monitor.tick(Some(35000)) {
        TickAction::SetAutomatic => {}
        _ => panic!("expected the automatic action"),
    }

    // With a curve the tick drives the interpolated duty.
    monitor.set_fan_curve(&vec![(0, 0), (30, 20), (100, 100)]);
    match monitor.tick(Some(35000)) {
        TickAction::SetDuty(pwm) => assert_eq!(pwm, duty_to_pwm(2571)),
        _ => panic!("expected a duty action"),
    }
    let (temp, duty) = monitor.last_sample();
    assert_eq!(temp, Some(35000));
    assert_eq!(duty, 2571);

    // A failed reading is counted and skipped.
    match monitor.tick(None) {
        TickAction::Skip => {}
        _ => panic!("expected a skipped tick"),
    }
    assert_eq!(monitor.failed_reads(), 1);

    // An explicit auto request moves back to idle.
    monitor.set_automatic();
    match monitor.tick(Some(40000)) {
        TickAction::SetAutomatic => {}
        _ => panic!("expected the automatic action"),
    }
}

#[test]
fn applying_the_same_curve_twice_changes_nothing_more() {
    let pairs = vec![(0u8, 0u8), (30, 20), (100, 100)];
    let mut once = FanMonitor::new();
    once.set_fan_curve(&pairs);
    let mut twice = FanMonitor::new();
    twice.set_fan_curve(&pairs);
    twice.set_fan_curve(&pairs);
    match (once.tick(Some(35000)), twice.tick(Some(35000))) {
        (TickAction::SetDuty(a), TickAction::SetDuty(b)) => assert_eq!(a, b),
        _ => panic!("expected duty actions"),
    }
    assert_eq!(once.last_sample(), twice.last_sample());
}
