use fan_curve_app::codec::config_from_json;
use fan_curve_app::codec::config_to_json;
use fan_curve_app::codec::curve_from_json;
use fan_curve_app::codec::curve_to_json;
use fan_curve_app::cpu_temp::CpuManufacturer;
use fan_curve_app::cpu_temp::CpuTempDetector;
use fan_curve_app::cpu_temp::detect_cpu_manufacturer;
use fan_curve_app::cpu_temp::parse_temperature_millidegrees;
use fan_curve_app::daemon::FanCurveDaemon;
use fan_curve_app::daemon::SaveAction;
use fan_curve_app::daemon::SaveAttempt;
use fan_curve_app::daemon::config_matches;
use fan_curve_app::errors::FanCurveError;
use fan_curve_app::fan::FanCurve;
use fan_curve_app::fan::FanCurveConfig;
use fan_curve_app::fan_control::FanController;
use fan_curve_app::fan_control::parse_pwm_value;
use fan_curve_app::fan_detector::FanDetector;
use fan_curve_app::fan_detector::parse_fan_speed;
use fan_curve_app::hwmon::HwmonDevice;
use fan_curve_app::hwmon::HwmonFile;
use fan_curve_app::store::NamedFile;
use fan_curve_app::store::load_all_fan_curves;
use fan_curve_app::thelio_io::ThelioIoClient;

fn file(name: &str, content: &str) -> HwmonFile {
    HwmonFile { name: name.to_string(), content: content.to_string() }
}

fn device(path: &str, name: Option<&str>, files: Vec<HwmonFile>) -> HwmonDevice {
    HwmonDevice { path: path.to_string(), name: name.map(|s| s.to_string()), files }
}

#[test]
fn test_cpu_manufacturer_detection() {
    let detector = CpuTempDetector::new();
    assert!(!detector.is_initialized());
    assert!(true);
}

#[test]
fn test_pwm_conversion() {
    let _controller = FanController::new();
    assert_eq!(0, ((0.0 / 100.0) * 255.0) as u8);
    assert_eq!(255, ((100.0 / 100.0) * 255.0) as u8);
    assert_eq!(127, ((50.0 / 100.0) * 255.0) as u8);
}

#[test]
fn test_fan_detector_creation() {
    let detector = FanDetector::new();
    assert!(!detector.is_initialized());
    assert_eq!(detector.fan_count(), 0);
}

#[test]
fn config_round_trips_through_json() {
    let config = FanCurveConfig::new();
    let text = config_to_json(&config);
    let reloaded = config_from_json(text.as_str()).unwrap();
    assert!(config_matches(&config, &reloaded));
}

#[test]
fn curve_with_escapes_round_trips_through_json() {
    let mut curve = FanCurve::new("a \"quoted\\\" name".to_string());
    curve.add_point(-5, 500);
    curve.add_point(90, 9000);
    let text = curve_to_json(&curve);
    let reloaded = curve_from_json(text.as_str()).unwrap();
    assert_eq!(reloaded.name(), curve.name());
    assert_eq!(reloaded.points(), curve.points());
}

#[test]
fn malformed_documents_are_rejected() {
    assert!(matches!(
        config_from_json("not a config"),
        Err(FanCurveError::Serialization(_))
    ));
    assert!(matches!(
        curve_from_json("{\"name\":\"x\",\"points\":[}"),
        Err(FanCurveError::Serialization(_))
    ));
    assert!(matches!(
        config_from_json("{\"curves\":[],\"default_curve_index\":null} trailing"),
        Err(FanCurveError::Serialization(_))
    ));
}

#[test]
fn parser_decodes_string_escapes() {
    // Control characters and code escapes as other writers of the
    // format emit them.
    let text = "{\"name\":\"a\\nb\\tc\\u0041d\\u00e9\",\"points\":[]}";
    let curve = curve_from_json(text).unwrap();
    assert_eq!(curve.name(), "a\nb\tc\u{41}d\u{e9}");

    // A name holding a raw control character round trips through the
    // crate's own encoder as well.
    let mut odd = FanCurve::new("line\nbreak".to_string());
    odd.add_point(1, 1);
    let reloaded = curve_from_json(curve_to_json(&odd).as_str()).unwrap();
    assert_eq!(reloaded.name(), "line\nbreak");

    // Unknown escapes and lone surrogate codes are rejected.
    assert!(curve_from_json("{\"name\":\"a\\qb\",\"points\":[]}").is_err());
    assert!(curve_from_json("{\"name\":\"a\\uD800b\",\"points\":[]}").is_err());
    assert!(curve_from_json("{\"name\":\"a\\u12\",\"points\":[]}").is_err());
}

#[test]
fn parser_accepts_blanks_between_tokens() {
    let text = "{ \"curves\" : [ { \"name\" : \"A\" , \"points\" : [ { \"temp\" : -3 , \"duty\" : 70 } ] } ] , \"default_curve_index\" : 0 }";
    let config = config_from_json(text).unwrap();
    assert_eq!(config.curves.len(), 1);
    assert_eq!(config.curves[0].name(), "A");
    assert_eq!(config.curves[0].points()[0].temp, -3);
    assert_eq!(config.curves[0].points()[0].duty, 70);
    assert_eq!(config.default_curve_index, Some(0));
}

#[test]
fn daemon_rejects_out_of_range_points() {
    let mut daemon = FanCurveDaemon::new(FanCurveConfig::new(), None);
    assert!(matches!(
        daemon.add_fan_curve_point(150, 50),
        Err(FanCurveError::InvalidFanPoint { temp: 150, duty: 50 })
    ));
    assert!(matches!(
        daemon.add_fan_curve_point(-1, 50),
        Err(FanCurveError::InvalidFanPoint { .. })
    ));
    assert!(matches!(
        daemon.add_fan_curve_point(50, 101),
        Err(FanCurveError::InvalidFanPoint { .. })
    ));
    let before = daemon.config().curves[0].points().len();
    daemon.add_fan_curve_point(55, 42).unwrap();
    assert_eq!(daemon.config().curves[0].points().len(), before + 1);
}

#[test]
fn daemon_selects_curves_by_index_and_name() {
    let mut daemon = FanCurveDaemon::new(FanCurveConfig::new(), None);
    assert_eq!(daemon.get_current_fan_curve().unwrap().name(), "Standard");
    daemon.set_fan_curve(2).unwrap();
    assert_eq!(daemon.get_current_fan_curve().unwrap().name(), "HEDT");
    assert!(matches!(
        daemon.set_fan_curve(99),
        Err(FanCurveError::Config(_))
    ));
    daemon.set_fan_curve_by_name("Xeon").unwrap();
    assert_eq!(daemon.get_current_fan_curve().unwrap().name(), "Xeon");
    assert!(matches!(
        daemon.set_fan_curve_by_name("Quiet"),
        Err(FanCurveError::FanCurveNotFound { .. })
    ));
    daemon.set_default_fan_curve("Threadripper 2").unwrap();
    assert_eq!(daemon.config().default_curve_index, Some(1));
    assert!(matches!(
        daemon.set_default_fan_curve("Quiet"),
        Err(FanCurveError::FanCurveNotFound { .. })
    ));
    assert_eq!(daemon.get_fan_curves().len(), 4);
}

#[test]
fn daemon_removes_points_until_none_are_left() {
    let mut config = FanCurveConfig::new();
    let mut small = FanCurve::new("Small".to_string());
    small.add_point(10, 1000);
    config.curves = vec![small];
    config.default_curve_index = None;
    let mut daemon = FanCurveDaemon::new(config, None);
    daemon.remove_fan_curve_point().unwrap();
    assert!(matches!(
        daemon.remove_fan_curve_point(),
        Err(FanCurveError::Config(_))
    ));
}

#[test]
fn daemon_loads_the_default_or_persisted_config() {
    let loaded = FanCurveDaemon::load_config(None).unwrap();
    assert_eq!(loaded.curves.len(), 4);
    let text = config_to_json(&loaded);
    let reloaded = FanCurveDaemon::load_config(Some(text.as_str())).unwrap();
    assert!(config_matches(&loaded, &reloaded));
    assert!(matches!(
        FanCurveDaemon::load_config(Some("garbage")),
        Err(FanCurveError::Config(_))
    ));
}

#[test]
fn persistence_validation_compares_structurally() {
    let daemon = FanCurveDaemon::new(FanCurveConfig::new(), None);
    let same = FanCurveConfig::new();
    daemon.validate_persistence(&same).unwrap();
    let mut other = FanCurveConfig::new();
    other.default_curve_index = Some(2);
    assert!(matches!(
        daemon.validate_persistence(&other),
        Err(FanCurveError::Validation(_))
    ));
}

#[test]
fn save_attempts_retry_three_times() {
    let mut attempt = SaveAttempt::new();
    assert!(matches!(attempt.on_result(false), SaveAction::RetryAfterBackoff));
    assert!(matches!(attempt.on_result(false), SaveAction::RetryAfterBackoff));
    assert!(matches!(attempt.on_result(false), SaveAction::GiveUp));
    let mut ok = SaveAttempt::new();
    assert!(matches!(ok.on_result(true), SaveAction::Validate));
}

#[test]
fn detects_vendors_from_identification_text() {
    let intel = "processor\t: 0\nvendor_id\t: GenuineIntel\nmodel name\t: X\n";
    assert_eq!(detect_cpu_manufacturer(intel).unwrap(), CpuManufacturer::Intel);
    let amd = "vendor_id\t: AuthenticAMD\n";
    assert_eq!(detect_cpu_manufacturer(amd).unwrap(), CpuManufacturer::Amd);
    let odd = "vendor_id\t: SomebodyElse\n";
    assert_eq!(detect_cpu_manufacturer(odd).unwrap(), CpuManufacturer::Unknown);
    assert!(matches!(
        detect_cpu_manufacturer("processor: 0\n"),
        Err(FanCurveError::Config(_))
    ));
    assert!(matches!(
        detect_cpu_manufacturer("vendor_id GenuineIntel\n"),
        Err(FanCurveError::Config(_))
    ));
}

#[test]
fn discovers_the_cpu_temperature_sensor() {
    let devices = vec![
        device("/sys/class/hwmon/hwmon0", Some("acpitz"), vec![]),
        device(
            "/sys/class/hwmon/hwmon1",
            Some("coretemp"),
            vec![
                file("temp1_input", ""),
                file("temp1_label", "Package id 0"),
                file("temp2_input", ""),
                file("temp2_label", "Core 0"),
            ],
        ),
    ];
    let cpuinfo = "vendor_id\t: GenuineIntel\n";
    let mut detector = CpuTempDetector::new();
    detector.initialize(cpuinfo, &devices).unwrap();
    assert!(detector.is_initialized());
    assert_eq!(detector.manufacturer(), CpuManufacturer::Intel);
    let sensor = detector.get_sensor_info().unwrap();
    assert_eq!(sensor.hwmon_path, "/sys/class/hwmon/hwmon1");
    assert_eq!(sensor.temp_input_path, "/sys/class/hwmon/hwmon1/temp1_input");
    assert_eq!(sensor.temp_label_path, "/sys/class/hwmon/hwmon1/temp1_label");
    assert_eq!(sensor.sensor_name, "coretemp");

    // The label file of an input, by name.
    let label = detector
        .find_temp_label_file(&devices[1], "temp2_input")
        .unwrap();
    assert_eq!(label, "/sys/class/hwmon/hwmon1/temp2_label");
    assert!(detector.find_temp_label_file(&devices[1], "temp9_input").is_err());

    // Without a matching chip, discovery fails and leaves the detector
    // as it was.
    let mut other = CpuTempDetector::new();
    let none: Vec<HwmonDevice> = vec![device("/sys/class/hwmon/hwmon0", Some("acpitz"), vec![])];
    assert!(other.initialize(cpuinfo, &none).is_err());
    assert!(!other.is_initialized());
}

#[test]
fn parses_temperature_readings() {
    assert_eq!(parse_temperature_millidegrees("45000\n").unwrap(), 45000);
    assert_eq!(parse_temperature_millidegrees("-10000").unwrap(), -10000);
    assert!(matches!(
        parse_temperature_millidegrees("300000"),
        Err(FanCurveError::Config(_))
    ));
    assert!(matches!(
        parse_temperature_millidegrees("warm"),
        Err(FanCurveError::Config(_))
    ));
}

#[test]
fn discovers_the_fan_controller() {
    let devices = vec![
        device("/sys/class/hwmon/hwmon0", Some("coretemp"), vec![]),
        device(
            "/sys/class/hwmon/hwmon2",
            Some("nct6775"),
            vec![
                file("pwm2", ""),
                file("fan2_input", ""),
                file("fan2_label", "case fan"),
            ],
        ),
    ];
    let mut controller = FanController::new();
    controller.initialize(&devices).unwrap();
    assert!(controller.is_initialized());
    let info = controller.get_control_info().unwrap();
    assert_eq!(info.hwmon_path, "/sys/class/hwmon/hwmon2");
    assert_eq!(info.pwm_path, "/sys/class/hwmon/hwmon2/pwm2");
    assert_eq!(info.fan_input_path, "/sys/class/hwmon/hwmon2/fan2_input");
    assert_eq!(info.fan_label_path, "/sys/class/hwmon/hwmon2/fan2_label");
    assert_eq!(info.device_name, "nct6775");

    let (path, pwm) = controller.set_fan_duty(50).unwrap();
    assert_eq!(path, "/sys/class/hwmon/hwmon2/pwm2");
    assert_eq!(pwm, 128);
    assert!(matches!(
        controller.set_fan_duty(101),
        Err(FanCurveError::Config(_))
    ));
    assert!(matches!(
        FanController::new().set_fan_duty(50),
        Err(FanCurveError::Config(_))
    ));

    let (raw_path, raw) = controller.set_fan_pwm(200).unwrap();
    assert_eq!(raw_path, "/sys/class/hwmon/hwmon2/pwm2");
    assert_eq!(raw, 200);
    assert_eq!(controller.read_fan_speed("2450\n").unwrap(), 2450);
    assert_eq!(controller.read_fan_pwm(" 77 ").unwrap(), 77);
    assert!(controller.read_fan_pwm("299").is_err());
    assert!(matches!(
        FanController::new().read_fan_speed("2450"),
        Err(FanCurveError::Config(_))
    ));
}

#[test]
fn discovers_the_cpu_fan_and_plans_duty_writes() {
    let devices = vec![device(
        "/sys/class/hwmon/hwmon3",
        Some("system76_thelio_io"),
        vec![
            file("fan1_label", "Intake Fan"),
            file("fan1_input", ""),
            file("fan2_label", "CPU Fan"),
            file("fan2_input", ""),
            file("pwm2", ""),
            file("pwm2_enable", ""),
        ],
    )];
    let mut detector = FanDetector::new();
    detector.initialize(&devices).unwrap();
    assert!(detector.is_initialized());
    assert_eq!(detector.fan_count(), 1);
    let fan = detector.get_cpu_fan().unwrap();
    assert_eq!(fan.fan_number, 2);
    assert_eq!(fan.fan_label, "CPU Fan");
    assert_eq!(fan.fan_input_path, "/sys/class/hwmon/hwmon3/fan2_input");
    assert!(detector.get_fan(2).is_some());
    assert!(detector.get_fan(1).is_none());

    let plan = detector.set_duty(Some(128));
    assert_eq!(plan.len(), 2);
    assert_eq!(plan[0].path, "/sys/class/hwmon/hwmon3/pwm2_enable");
    assert_eq!(plan[0].value, "1");
    assert_eq!(plan[1].path, "/sys/class/hwmon/hwmon3/pwm2");
    assert_eq!(plan[1].value, "128");

    let auto = detector.set_duty(None);
    assert_eq!(auto.len(), 1);
    assert_eq!(auto[0].path, "/sys/class/hwmon/hwmon3/pwm2_enable");
    assert_eq!(auto[0].value, "2");

    let single = detector.set_fan_pwm(2, 66).unwrap();
    assert_eq!(single.len(), 2);
    assert_eq!(single[0].path, "/sys/class/hwmon/hwmon3/pwm2_enable");
    assert_eq!(single[0].value, "1");
    assert_eq!(single[1].path, "/sys/class/hwmon/hwmon3/pwm2");
    assert_eq!(single[1].value, "66");
    assert!(matches!(
        detector.set_fan_pwm(7, 66),
        Err(FanCurveError::Config(_))
    ));

    let speeds = detector
        .read_all_fan_speeds(&vec!["1380\n".to_string()])
        .unwrap();
    assert_eq!(speeds, vec![(2u8, 1380u16, "CPU Fan".to_string())]);
    assert!(detector.read_all_fan_speeds(&vec!["junk".to_string()]).is_err());
    let cpu = detector.read_cpu_fan_speed("900").unwrap();
    assert_eq!(cpu, Some((2u8, 900u16, "CPU Fan".to_string())));
    assert!(detector.read_cpu_fan_speed("junk").is_err());
    assert_eq!(FanDetector::new().read_cpu_fan_speed("900").unwrap(), None);
}

#[test]
fn parses_hardware_readings() {
    assert_eq!(parse_fan_speed("1380\n").unwrap(), 1380);
    assert!(parse_fan_speed("70000").is_err());
    assert!(parse_fan_speed("fast").is_err());
    assert_eq!(parse_pwm_value("255").unwrap(), 255);
    assert!(parse_pwm_value("256").is_err());
    assert!(parse_pwm_value("-1").is_err());
}

#[test]
fn merges_named_curves_first_found_wins() {
    let mut a = FanCurve::new("Quiet".to_string());
    a.add_point(10, 1000);
    let mut a2 = FanCurve::new("Quiet".to_string());
    a2.add_point(99, 9900);
    let mut b = FanCurve::new("Loud".to_string());
    b.add_point(20, 8000);

    let dirs = vec![
        vec![
            NamedFile { name: "quiet.json".to_string(), content: curve_to_json(&a) },
            NamedFile { name: "notes.txt".to_string(), content: "not a curve".to_string() },
            NamedFile { name: "broken.json".to_string(), content: "{oops".to_string() },
        ],
        vec![
            NamedFile { name: "quiet.json".to_string(), content: curve_to_json(&a2) },
            NamedFile { name: "loud.json".to_string(), content: curve_to_json(&b) },
        ],
    ];
    let merged = load_all_fan_curves(&dirs);
    assert_eq!(merged.len(), 2);
    assert_eq!(merged[0].name(), "Quiet");
    assert_eq!(merged[0].points()[0].duty, 1000);
    assert_eq!(merged[1].name(), "Loud");
}

#[test]
fn curve_file_names_fold_spaces_and_case() {
    assert_eq!(
        fan_curve_app::store::curve_file_name("My Quiet Curve"),
        "my_quiet_curve.json"
    );
    assert_eq!(fan_curve_app::store::curve_file_name("xeon"), "xeon.json");
}

#[test]
fn thelio_client_reports_availability() {
    let off = ThelioIoClient::new(false, "com.system76.ThelioIo".to_string(), true);
    assert!(!off.available());
    let missing = ThelioIoClient::new(true, "com.system76.ThelioIo".to_string(), false);
    assert!(!missing.available());
    let on = ThelioIoClient::new(true, "com.system76.ThelioIo".to_string(), true);
    assert!(on.available());
}
