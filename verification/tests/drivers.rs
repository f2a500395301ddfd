use cove_optimizer::drivers::identity::MachineContext;
use cove_optimizer::drivers::pnputil::{EnumMode, PnputilParseError};
use cove_optimizer::drivers::{
    audit_drivers, driver_status, enumeration_launch_error, enumeration_unavailable,
    next_enumeration_step, scan_device_identity, summarize_drivers, DriverInventoryItem,
    EnumAttempt, EnumNext,
};

fn item(name: &str, signed: Option<bool>) -> DriverInventoryItem {
    DriverInventoryItem {
        name: Some(name.to_string()),
        device: None,
        version: None,
        date: None,
        signed,
    }
}

#[test]
fn audit_summary_counts_and_splits() {
    let mut items = vec![item("u", Some(false)), item("n", None)];
    for i in 0..12 {
        items.push(item(&format!("s{i}"), Some(true)));
    }
    let report = summarize_drivers(true, None, &items);
    assert_eq!(report.total, 14);
    assert_eq!(report.unsigned, 1);
    assert_eq!(report.problematic.len(), 2);
    assert_eq!(report.problematic[0].status, "unsigned");
    assert_eq!(report.problematic[1].status, "unknown");
    assert_eq!(report.problematic[1].device, "Other");
    assert_eq!(report.healthy.len(), 10);
    assert_eq!(report.healthy[9].name, "s9");
    assert!(report.outdated.is_none());
}

#[test]
fn driver_defaults_and_status() {
    let blank = DriverInventoryItem { name: None, device: None, version: None, date: None, signed: Some(true) };
    let report = summarize_drivers(false, Some("e".to_string()), &[blank]);
    assert_eq!(report.healthy[0].name, "Unknown device");
    assert_eq!(report.healthy[0].version, "Unknown");
    assert_eq!(report.healthy[0].date, "unknown");
    assert_eq!(driver_status(Some(true)), "ok");
    let none = audit_drivers();
    assert!(!none.complete);
    assert_eq!(none.error.as_deref(), Some("Driver inventory is unavailable on this platform."));
}

#[test]
fn identity_scan_reports_errors_without_devices() {
    let machine = MachineContext {
        arch: "x86_64".to_string(),
        os_build: "unknown".to_string(),
        os_version: "linux".to_string(),
    };
    let report = scan_device_identity(machine.clone(), enumeration_unavailable());
    assert!(!report.complete && !report.degraded);
    assert_eq!(
        report.error.as_deref(),
        Some("malformed PnPUtil output: driver identity inventory is unavailable on this platform")
    );
    assert_eq!(report.machine, machine);
}

#[test]
fn enumeration_falls_back_in_order() {
    assert!(matches!(next_enumeration_step(EnumAttempt::Full, true), EnumNext::Parse(EnumMode::Full)));
    assert!(matches!(
        next_enumeration_step(EnumAttempt::Full, false),
        EnumNext::Retry(EnumAttempt::IdentityOnly)
    ));
    assert!(matches!(
        next_enumeration_step(EnumAttempt::IdentityOnly, false),
        EnumNext::Retry(EnumAttempt::Degraded)
    ));
    match next_enumeration_step(EnumAttempt::Degraded, false) {
        EnumNext::Fail(PnputilParseError::Malformed(m)) => assert_eq!(m, "pnputil enumeration failed"),
        _ => panic!("expected failure"),
    }
    assert_eq!(
        enumeration_launch_error(EnumAttempt::Degraded, "no such file"),
        PnputilParseError::Malformed(
            "could not start pnputil degraded fallback: no such file".to_string()
        )
    );
}
