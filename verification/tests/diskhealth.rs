use cove_optimizer::diskhealth::{
    chkdsk_invalid_drive, chkdsk_repair_result, chkdsk_scan_result, chkdsk_unknown_mode,
    get_largest_files, get_last_chkdsk, health_rating, invalid_drive_report, parse_last_chkdsk,
    plan_chkdsk, run_chkdsk, system_drive, trim_applies, trim_status, valid_drive_letter,
    ChkdskPlan, WearBand,
};

#[test]
fn drive_letters_are_strictly_validated() {
    assert_eq!(valid_drive_letter("c"), Some('C'));
    assert_eq!(valid_drive_letter("Z:"), Some('Z'));
    assert_eq!(valid_drive_letter("C: & whoami"), None);
    assert_eq!(valid_drive_letter("C'; calc; #"), None);
    assert_eq!(valid_drive_letter("\\\\server\\share"), None);
}

#[test]
fn drive_letters_allow_surrounding_whitespace_only() {
    assert_eq!(valid_drive_letter("  d:\t"), Some('D'));
    assert_eq!(valid_drive_letter("1:"), None);
    assert_eq!(valid_drive_letter(""), None);
    assert_eq!(valid_drive_letter("\u{e9}"), None);
    assert_eq!(valid_drive_letter("C;"), None);
}

#[test]
fn system_drive_reads_the_windows_directory() {
    assert_eq!(system_drive("D:\\Windows"), "D");
    assert_eq!(system_drive("e:\\WINDOWS"), "E");
    assert_eq!(system_drive("\\\\?\\C:\\Windows"), "C");
    assert_eq!(system_drive(""), "C");
    assert_eq!(system_drive("9:\\x"), "C");
}

#[test]
fn chkdsk_plan_checks_drive_before_mode() {
    assert!(matches!(plan_chkdsk("scan", "C: & x"), ChkdskPlan::InvalidDrive));
    assert!(matches!(plan_chkdsk("bogus", "nope"), ChkdskPlan::InvalidDrive));
    match plan_chkdsk("scan", "c") {
        ChkdskPlan::Scan { drive_arg } => assert_eq!(drive_arg, "C:"),
        _ => panic!("expected scan"),
    }
    match plan_chkdsk("r", "d:") {
        ChkdskPlan::Repair { drive_arg, recover } => {
            assert_eq!(drive_arg, "D:");
            assert!(recover);
        }
        _ => panic!("expected repair"),
    }
    match plan_chkdsk("f", "d:") {
        ChkdskPlan::Repair { recover, .. } => assert!(!recover),
        _ => panic!("expected repair"),
    }
    assert!(matches!(plan_chkdsk("x", "C"), ChkdskPlan::UnknownMode));
}

#[test]
fn chkdsk_messages() {
    let r = chkdsk_invalid_drive("scan");
    assert!(!r.success);
    assert_eq!(r.message, "Invalid drive. Select a local drive letter.");
    assert_eq!(chkdsk_unknown_mode("z").message, "Unknown chkdsk mode: z");
    let stub = run_chkdsk("f", "C");
    assert!(stub.success);
    assert_eq!(stub.message, "[stub] Would run chkdsk /f");
}

#[test]
fn chkdsk_scan_exit_codes() {
    let ok = chkdsk_scan_result(Some(0), "out", "");
    assert!(ok.success);
    assert_eq!(ok.output, "out");
    assert_eq!(ok.message, "Online scan completed; no errors were found.");
    let fixed = chkdsk_scan_result(Some(2), "a", "b");
    assert!(fixed.success);
    assert_eq!(fixed.output, "a\nb");
    let failed = chkdsk_scan_result(None, "", "");
    assert!(!failed.success);
    assert_eq!(
        failed.message,
        "The disk could not be checked or errors could not be fixed."
    );
    assert!(!chkdsk_scan_result(Some(-1), "", "").success);
}

#[test]
fn chkdsk_repair_reads_the_last_line() {
    let reboot = chkdsk_repair_result("f", "noise\n 1 ");
    assert!(reboot.success);
    assert!(reboot.scheduled_reboot);
    assert_eq!(reboot.message, "chkdsk /f scheduled for next reboot.");
    let done = chkdsk_repair_result("r", "0");
    assert!(done.success && !done.scheduled_reboot);
    assert_eq!(done.message, "chkdsk /r completed.");
    let bad = chkdsk_repair_result("f", "3");
    assert!(!bad.success);
    assert_eq!(bad.message, "chkdsk /f failed (WMI result 3).");
    let unknown = chkdsk_repair_result("f", "");
    assert_eq!(unknown.message, "chkdsk /f failed (WMI result unknown).");
}

#[test]
fn last_chkdsk_lines_are_read_in_order() {
    let out = "FOUND|2026-01-02T03:04:05|Checking | done\r\nDIRTY|True|true\nERR|access denied\n";
    let info = parse_last_chkdsk(out);
    assert!(info.found);
    assert_eq!(info.timestamp.as_deref(), Some("2026-01-02T03:04:05"));
    assert_eq!(info.result_text.as_deref(), Some("Checking | done"));
    assert!(info.dirty_bit);
    assert!(info.dirty_bit_known);
    assert!(!info.complete);
    assert_eq!(info.error.as_deref(), Some("access denied"));

    let none = parse_last_chkdsk("NOTFOUND\nDIRTY|False|true");
    assert!(!none.found && none.complete);
    assert!(!none.dirty_bit && none.dirty_bit_known);
    let short = parse_last_chkdsk("FOUND|only-time");
    assert!(!short.found);
}

#[test]
fn last_chkdsk_placeholder() {
    let info = get_last_chkdsk();
    assert!(info.found && info.complete && info.dirty_bit_known);
    assert_eq!(info.timestamp.as_deref(), Some("2026-06-01T03:15:00-05:00"));
}

#[test]
fn health_rating_table() {
    assert_eq!(health_rating("", WearBand::Low, None, None, None), "Unknown");
    assert_eq!(health_rating("unknown", WearBand::Low, None, None, None), "Unknown");
    assert_eq!(health_rating("Warning", WearBand::Low, None, None, None), "Critical");
    assert_eq!(health_rating("healthy", WearBand::Critical, None, None, None), "Critical");
    assert_eq!(health_rating("Healthy", WearBand::Worn, None, None, None), "Warning");
    assert_eq!(health_rating("Healthy", WearBand::Low, Some(60), Some(41), None), "Warning");
    assert_eq!(health_rating("Healthy", WearBand::Low, Some(60), Some(40), None), "Good");
    assert_eq!(
        health_rating("Healthy", WearBand::Unknown, Some(u64::MAX), Some(1), None),
        "Warning"
    );
    assert_eq!(health_rating("Healthy", WearBand::Low, None, None, Some(70)), "Warning");
    assert_eq!(health_rating("Healthy", WearBand::Low, None, None, Some(69)), "Good");
}

#[test]
fn trim_state_and_applicability() {
    assert_eq!(trim_status("DisableDeleteNotify = 0", true), (true, true));
    assert_eq!(trim_status("DisableDeleteNotify = 1", true), (false, true));
    assert_eq!(trim_status("DisableDeleteNotify = 0", false), (true, false));
    assert_eq!(trim_status("error", true), (false, false));
    assert!(trim_applies("SSD", "SATA"));
    assert!(trim_applies("Unspecified", "NVMe"));
    assert!(!trim_applies("HDD", "SATA"));
}

#[test]
fn disk_space_reports() {
    let bad = invalid_drive_report("C:;x");
    assert!(!bad.complete);
    assert_eq!(bad.errors, vec!["Invalid drive. Select a local drive letter.".to_string()]);
    let sample = get_largest_files("C:");
    assert_eq!(sample.largest_files.len(), 5);
    assert_eq!(
        sample.largest_files[0].path,
        "C:\\Users\\CS\\Downloads\\Win11_23H2_English_x64.iso"
    );
    assert_eq!(sample.free_bytes, Some(185_000_000_000));
}
