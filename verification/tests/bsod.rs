use cove_optimizer::bsod::{bsod_failure, parse_dump_listing, reported_dumps, scan_dumps, scan_dumps_report};

#[test]
fn dump_listing_lines() {
    let out = "noise\nDUMP| C:\\Windows\\Minidump\\a.dmp |2026-01-01T00:00:00| 1234\r\nDUMP|short\nDUMP|x|y";
    let dumps = parse_dump_listing(out);
    assert_eq!(dumps.len(), 2);
    assert_eq!(dumps[0].file, "C:\\Windows\\Minidump\\a.dmp");
    assert_eq!(dumps[0].date, "2026-01-01T00:00:00");
    assert_eq!(dumps[0].bug_check_name, "MINIDUMP_FOUND");
    assert_eq!(dumps[1].file, "x");
    assert_eq!(dumps[1].date, "y");
}

#[test]
fn report_items_need_path_and_time() {
    let items = vec![
        (Some("a".to_string()), Some("t".to_string())),
        (None, Some("t".to_string())),
        (Some("b".to_string()), None),
    ];
    let dumps = reported_dumps(items);
    assert_eq!(dumps.len(), 1);
    assert_eq!(dumps[0].description, "Crash dump found. Use WinDbg for bug check analysis.");
}

#[test]
fn unavailable_reports() {
    let r = scan_dumps_report();
    assert!(!r.complete);
    assert_eq!(r.error.as_deref(), Some("Crash dumps are unavailable on this platform."));
    assert!(scan_dumps().is_empty());
    assert_eq!(bsod_failure("e".to_string()).error.as_deref(), Some("e"));
}
