use cove_optimizer::drivers::identity::{ids_equal_ci, normalize_id};

#[test]
fn normalize_id_trims_and_preserves_internal_structure() {
    assert_eq!(
        normalize_id("  PCI\\VEN_10EC&DEV_8168&SUBSYS_86771043  "),
        Some("PCI\\VEN_10EC&DEV_8168&SUBSYS_86771043".to_string())
    );
    assert_eq!(normalize_id("   "), None);
    assert_eq!(normalize_id(""), None);
}

#[test]
fn ids_equal_ci_is_case_insensitive() {
    assert!(ids_equal_ci("PCI\\VEN_1022", "pci\\ven_1022"));
    assert!(!ids_equal_ci("PCI\\VEN_1022", "PCI\\VEN_1023"));
}

#[test]
fn normalize_id_trims_unicode_whitespace_and_is_idempotent() {
    let once = normalize_id("\u{a0}\tUSB\\VID_046D&PID_C52B \u{2003}").unwrap();
    assert_eq!(once, "USB\\VID_046D&PID_C52B");
    assert_eq!(normalize_id(&once), Some(once.clone()));
}

#[test]
fn ids_equal_ci_folds_ascii_only() {
    assert!(ids_equal_ci("", ""));
    assert!(!ids_equal_ci("ACPI\\PNP0A08", "ACPI\\PNP0A08\\0"));
    assert!(!ids_equal_ci("\u{c9}", "\u{e9}"));
}
