use cove_optimizer::cleanup::{
    admits_directory, classify_entry, enumeration_failure, EntryClass, MAX_PENDING_DIRECTORIES,
    catalog_entry_at, clean_targets, cleanup_root_parts, format_cleanup_bytes, is_dot_entry, is_safe_child_name,
    plan_cleanup, scan_targets, target_spec, CleanOutcome, CleanupTargetSpec,
    DirectoryMeasurement, CATALOG_LEN,
};

fn specs() -> Vec<CleanupTargetSpec> {
    (0..CATALOG_LEN)
        .map(|i| target_spec(i, format!("C:\\cleanup\\{}", catalog_entry_at(i).3)))
        .collect()
}

#[test]
fn unknown_target_is_rejected_without_scanning() {
    let results = clean_targets(&["clean.not_real".to_string()], &specs(), &[]);

    assert_eq!(results.len(), 1);
    assert!(!results[0].success);
    assert_eq!(results[0].message, "Unknown cleanup target.");
}

#[test]
fn cleanup_byte_format_is_readable() {
    assert_eq!(format_cleanup_bytes(0), "0 MB");
    assert_eq!(format_cleanup_bytes(512), "512 bytes");
    assert_eq!(format_cleanup_bytes(2048), "2 KB");
    assert_eq!(format_cleanup_bytes(3 * 1024 * 1024), "3 MB");
    assert_eq!(format_cleanup_bytes(1536 * 1024 * 1024), "1.5 GB");
}

#[test]
fn gigabyte_rounding_matches_float_formatting() {
    for bytes in [
        1u64 << 30,
        (1u64 << 30) + 53_687_091,
        (1u64 << 30) + 53_687_092,
        1_342_177_280,
        1_449_551_462,
        u64::MAX,
        (1u64 << 53) + 1,
        (1u64 << 60) + 12_345,
        987_654_321_987,
    ] {
        assert_eq!(
            format_cleanup_bytes(bytes),
            format!("{:.1} GB", bytes as f64 / (1u64 << 30) as f64),
            "bytes = {bytes}"
        );
    }
}

#[test]
fn outcome_messages() {
    let missing = CleanOutcome { freed_bytes: 0, deleted_files: 0, skipped_items: 0, root_missing: true };
    assert_eq!(missing.message(), "Already clean (folder does not exist).");
    let empty = CleanOutcome { freed_bytes: 0, deleted_files: 0, skipped_items: 0, root_missing: false };
    assert_eq!(empty.message(), "Cleaned 0 MB");
    let one = CleanOutcome { freed_bytes: 9, deleted_files: 1, skipped_items: 1, root_missing: false };
    assert_eq!(one.message(), "Cleaned 9 bytes; skipped 1 in-use, protected, or linked item.");
    let many = CleanOutcome { freed_bytes: 4096, deleted_files: 1, skipped_items: 3, root_missing: false };
    assert!(many.message().ends_with("skipped 3 in-use, protected, or linked items."));
}

#[test]
fn known_targets_take_outcomes_in_order() {
    let ids = vec![
        "clean.prefetch".to_string(),
        "nope".to_string(),
        "clean.wu_cache".to_string(),
    ];
    let plan = plan_cleanup(&ids, &specs());
    assert_eq!(plan, vec![Some(2), None, Some(5)]);
    let outcomes = vec![
        Ok(CleanOutcome { freed_bytes: 2048, deleted_files: 2, skipped_items: 1, root_missing: false }),
        Err("Refusing to clean a drive root.".to_string()),
    ];
    let results = clean_targets(&ids, &specs(), &outcomes);
    assert_eq!(results.len(), 3);
    assert!(results[0].success && results[0].partial);
    assert_eq!(results[0].freed_bytes, 2048);
    assert_eq!(results[1].message, "Unknown cleanup target.");
    assert!(!results[2].success);
    assert_eq!(results[2].message, "Refusing to clean a drive root.");
}

#[test]
fn scans_report_partial_measurements() {
    let s = specs();
    let measurements: Vec<Result<DirectoryMeasurement, String>> = (0..CATALOG_LEN)
        .map(|i| {
            if i == 0 {
                Ok(DirectoryMeasurement { size_bytes: 10, file_count: 2, skipped_items: 4 })
            } else if i == 1 {
                Err("denied".to_string())
            } else {
                Ok(DirectoryMeasurement { size_bytes: 0, file_count: 0, skipped_items: 0 })
            }
        })
        .collect();
    let targets = scan_targets(&s, &measurements);
    assert_eq!(targets[0].id, "clean.user_temp");
    assert_eq!(
        targets[0].scan_warning.as_deref(),
        Some("Size estimate is partial; 4 inaccessible or linked item(s) were skipped.")
    );
    assert_eq!(targets[1].scan_error.as_deref(), Some("denied"));
    assert_eq!(targets[6].safety, "yellow");
}

#[test]
fn entry_names() {
    assert!(is_dot_entry(&[46]));
    assert!(is_dot_entry(&[46, 46]));
    assert!(!is_dot_entry(&[46, 46, 46]));
    assert!(is_safe_child_name(&[97, 46, 116]));
    assert!(!is_safe_child_name(&[]));
    assert!(!is_safe_child_name(&[46]));
    assert!(!is_safe_child_name(&[97, 92, 98]));
    assert!(!is_safe_child_name(&[97, 58]));
}

#[test]
fn walk_entries_are_classified_without_following_links() {
    let dot: Vec<u16> = ".".encode_utf16().collect();
    let dotdot: Vec<u16> = "..".encode_utf16().collect();
    let name: Vec<u16> = "cache.tmp".encode_utf16().collect();
    assert_eq!(classify_entry(&dot, 0x10), EntryClass::Ignore);
    assert_eq!(classify_entry(&dotdot, 0x10), EntryClass::Ignore);
    assert_eq!(classify_entry(&name, 0x20), EntryClass::File);
    assert_eq!(classify_entry(&name, 0x10), EntryClass::Directory);
    assert_eq!(classify_entry(&name, 0x10 | 0x400), EntryClass::Skip);
    let bad: Vec<u16> = "a\\b".encode_utf16().collect();
    assert_eq!(classify_entry(&bad, 0x20), EntryClass::Skip);
}

#[test]
fn walk_tallies_saturate_and_failures_end_only_at_the_root() {
    assert_eq!(
        enumeration_failure(true, false, "denied"),
        Some("Could not enumerate cleanup folder: denied".to_string())
    );
    assert_eq!(enumeration_failure(true, true, "denied"), None);
    assert_eq!(enumeration_failure(false, false, "denied"), None);
    assert!(admits_directory(MAX_PENDING_DIRECTORIES - 2, 1));
    assert!(!admits_directory(MAX_PENDING_DIRECTORIES - 1, 1));
    assert!(!admits_directory(usize::MAX, 1));
    let mut m = DirectoryMeasurement::empty();
    m.add_file(u64::MAX - 1);
    m.add_file(10);
    m.add_skipped();
    assert_eq!((m.size_bytes, m.file_count, m.skipped_items), (u64::MAX, 2, 1));
    let mut o = CleanOutcome::empty(false);
    o.add_deleted(2048);
    o.add_skipped();
    assert_eq!(o.message(), "Cleaned 2 KB; skipped 1 in-use, protected, or linked item.");
}

fn parts(path: &str) -> Result<(char, Vec<String>), String> {
    cleanup_root_parts(path)
        .map(|(d, cs)| (d, cs.into_iter().map(|c| c.into_iter().collect()).collect()))
}

#[test]
fn cleanup_roots_must_be_absolute_local_folders() {
    assert_eq!(
        parts("C:\\Users\\cs\\AppData\\Local\\Temp"),
        Ok(('C', vec!["Users".into(), "cs".into(), "AppData".into(), "Local".into(), "Temp".into()]))
    );
    assert_eq!(parts("c:/Windows//Temp/."), Ok(('C', vec!["Windows".into(), "Temp".into()])));
    let absolute = Err("Cleanup target must be an absolute local drive path.".to_string());
    assert_eq!(parts("C:Temp"), absolute);
    assert_eq!(parts("\\\\server\\share\\Temp"), absolute);
    assert_eq!(parts(""), absolute);
    assert_eq!(parts("C:\\"), Err("Refusing to clean a drive root.".to_string()));
    assert_eq!(
        parts("C:\\Windows\\..\\Temp"),
        Err("Cleanup target contains an unsafe path component.".to_string())
    );
}
