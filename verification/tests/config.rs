use tce::config::{has_irb_extension, outfile, str_eq, str_le, Config, ScanPosition, TceError};
use tce::fixed::ROT_DEN;
use tce::frames::RigidTransform;

fn identity() -> RigidTransform {
    RigidTransform {
        r00: ROT_DEN,
        r01: 0,
        r02: 0,
        r10: 0,
        r11: ROT_DEN,
        r12: 0,
        r20: 0,
        r21: 0,
        r22: ROT_DEN,
        tx: 0,
        ty: 0,
        tz: 0,
    }
}

fn config(use_scanpos_names: bool, names: Option<Vec<String>>) -> Config {
    Config::new(
        String::from("images"),
        String::from("out"),
        0,
        1_000_000,
        0,
        40_000,
        false,
        false,
        false,
        use_scanpos_names,
        names,
    )
    .unwrap()
}

fn position(name: &str, paths: &[&str]) -> ScanPosition {
    ScanPosition {
        name: String::from(name),
        sop: identity(),
        rxp_paths: paths.iter().map(|p| String::from(*p)).collect(),
    }
}

#[test]
fn empty_reflectance_range_is_rejected() {
    let r = Config::new(
        String::new(),
        String::new(),
        5,
        5,
        0,
        1,
        false,
        false,
        false,
        false,
        None,
    );
    assert_eq!(r.unwrap_err(), TceError::InvalidReflectanceRange);
}

#[test]
fn inverted_temperature_range_is_rejected() {
    let r = Config::new(
        String::new(),
        String::new(),
        0,
        1,
        40_000,
        0,
        false,
        false,
        false,
        false,
        None,
    );
    assert_eq!(r.unwrap_err(), TceError::InvalidTemperatureRange);
}

#[test]
fn scanpos_naming_with_two_scans_fails_fast() {
    let cfg = config(true, None);
    let pos = position("SP01", &["data/a.rxp", "data/b.rxp"]);
    assert_eq!(cfg.translations(&pos).unwrap_err(), TceError::MultipleScansForPosition);
}

#[test]
fn scanpos_naming_with_one_scan_uses_position_name() {
    let cfg = config(true, None);
    let pos = position("SP01", &["data/a.rxp"]);
    let ts = cfg.translations(&pos).unwrap();
    assert_eq!(ts.len(), 1);
    assert_eq!(ts[0].infile, "data/a.rxp");
    assert_eq!(ts[0].outfile, "out/SP01.las");
}

#[test]
fn source_naming_replaces_extension_per_file() {
    let cfg = config(false, None);
    let pos = position("SP01", &["data/a.rxp", "data/deep/b.rxp", "plain"]);
    let ts = cfg.translations(&pos).unwrap();
    assert_eq!(ts.len(), 3);
    assert_eq!(ts[0].outfile, "out/a.las");
    assert_eq!(ts[1].outfile, "out/b.las");
    assert_eq!(ts[2].outfile, "out/plain.las");
}

#[test]
fn outfile_keeps_dotted_directories_intact() {
    // The dot in a directory name is not an extension.
    assert_eq!(outfile("out", "SP", "v1.2/scan", false), "out/scan.las");
    assert_eq!(outfile("out", "SP", "v1.2/scan.rxp", false), "out/scan.las");
}

#[test]
fn scan_positions_default_is_all_sorted_by_name() {
    let cfg = config(false, None);
    let positions = vec![
        position("SP10", &[]),
        position("SP02", &[]),
        position("SP01", &[]),
    ];
    let out = cfg.scan_positions(&positions).unwrap();
    let names: Vec<&str> = out.iter().map(|p| p.name.as_str()).collect();
    assert_eq!(names, ["SP01", "SP02", "SP10"]);
}

#[test]
fn scan_positions_selected_by_name_are_sorted() {
    let cfg = config(
        false,
        Some(vec![String::from("SP10"), String::from("SP01")]),
    );
    let positions = vec![
        position("SP10", &[]),
        position("SP02", &[]),
        position("SP01", &[]),
    ];
    let out = cfg.scan_positions(&positions).unwrap();
    let names: Vec<&str> = out.iter().map(|p| p.name.as_str()).collect();
    assert_eq!(names, ["SP01", "SP10"]);
}

#[test]
fn unknown_scan_position_name_is_an_error() {
    let cfg = config(false, Some(vec![String::from("SP99")]));
    let positions = vec![position("SP01", &[])];
    assert_eq!(cfg.scan_positions(&positions).unwrap_err(), TceError::UnknownScanPosition);
}

#[test]
fn string_order_is_lexicographic() {
    assert!(str_le("SP01", "SP02"));
    assert!(str_le("SP02", "SP10"));
    assert!(str_le("", "a"));
    assert!(!str_le("b", "a"));
    assert!(str_le("abc", "abc"));
    assert!(str_le("ab", "abc"));
}

#[test]
fn string_equality_is_exact() {
    assert!(str_eq("SP01", "SP01"));
    assert!(!str_eq("SP01", "SP02"));
    assert!(!str_eq("SP01", "SP011"));
}

#[test]
fn irb_extension_filter() {
    assert!(has_irb_extension("images/SP01/a.irb"));
    assert!(has_irb_extension("a.irb"));
    assert!(!has_irb_extension("images/SP01/a.jpg"));
    assert!(!has_irb_extension("images/SP01/irb"));
    assert!(!has_irb_extension("images/a.irb/file"));
}

#[test]
fn scanpos_name_with_dot_loses_its_suffix() {
    // The naming policy replaces an existing extension even in a
    // position name.
    assert_eq!(outfile("out", "SP01.v2", "data/a.rxp", true), "out/SP01.las");
}

#[test]
fn string_order_follows_code_points() {
    assert!(str_le("B", "\u{00c4}"));
    assert!(!str_le("\u{00c4}", "B"));
    assert!(str_eq("\u{00c4}", "\u{00c4}"));
}
