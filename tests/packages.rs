use yy1::{PackageConverter, PackageMap};

#[test]
fn exact_substitution_wins() {
    let map = PackageMap::new("R_0603_1608Metric".to_string(), "0603X".to_string());
    assert_eq!(map.rename("R_0603_1608Metric"), Some("0603X".to_string()));
    assert_eq!(map.rename("R_0603"), None);
    let conv = PackageConverter::new(vec![map]).unwrap();
    assert_eq!(conv.rename("R_0603_1608Metric"), "0603X");
}

#[test]
fn pattern_rules_shorten_names() {
    let conv = PackageConverter::new(vec![]).unwrap();
    assert_eq!(conv.rename("C_0402_1005Metric"), "0402");
    assert_eq!(conv.rename("Crystal_SMD_3225-4Pin_3.2x2.5mm"), "XTAL-3225");
    assert_eq!(conv.rename("QFN-32-1EP_5x5mm_P0.5mm"), "QFN-32");
    assert_eq!(conv.rename("TSSOP-20_4.4x6.5mm_P0.65mm"), "TSSOP-20");
    assert_eq!(conv.rename("LED_0805_2012Metric"), "0805");
    assert_eq!(conv.rename("BGA-256_17x17mm"), "BGA-256");
}

#[test]
fn unmatched_name_is_kept() {
    let conv = PackageConverter::new(vec![]).unwrap();
    assert_eq!(conv.rename("SOIC-8_3.9x4.9mm_P1.27mm"), "SOIC-8_3.9x4.9mm_P1.27mm");
    assert_eq!(conv.rename(""), "");
}

#[test]
fn rule_compilation() {
    assert!(yy1::PackageRule::compile("([0-9]+", "x").is_none());
    assert!(yy1::PackageRule::compile("[0-9]+", "x").is_some());
}
