use cove_optimizer::bloatware::{
    approved_package, bloatware_entry, failed_report, inventory_failure_detail, inventory_report,
    package_is_installed, refused_removal, remove_apps, removal_result, removal_script,
    scan_installed, BLOATWARE_LEN,
};

#[test]
fn installed_package_matching_is_case_insensitive_but_not_substring_based() {
    let installed = vec![
        "microsoft.bingweather".to_string(),
        "Contoso.Microsoft.GamingApp.Helper".to_string(),
    ];

    assert!(package_is_installed(&installed, "Microsoft.BingWeather"));
    assert!(!package_is_installed(&installed, "Microsoft.GamingApp"));
}

#[test]
fn inventory_marks_only_listed_packages() {
    let installed = vec!["MICROSOFT.GAMINGAPP".to_string(), "Other.App".to_string()];
    let report = inventory_report(&installed);
    assert!(report.complete);
    assert_eq!(report.apps.len(), BLOATWARE_LEN);
    assert_eq!(report.apps[1].package_name, "Microsoft.GamingApp");
    assert!(report.apps[1].installed);
    assert_eq!(report.apps.iter().filter(|a| a.installed).count(), 1);
    let failed = failed_report("boom".to_string());
    assert!(!failed.complete);
    assert!(failed.apps.iter().all(|a| !a.installed));
}

#[test]
fn placeholder_scan_marks_first_fifteen() {
    let report = scan_installed();
    assert_eq!(report.apps.len(), BLOATWARE_LEN);
    assert!(report.apps[14].installed);
    assert!(!report.apps[15].installed);
    assert_eq!(bloatware_entry(0).0, "Microsoft.BingWeather");
}

#[test]
fn inventory_failure_detail_falls_back() {
    assert_eq!(inventory_failure_detail("  \n"), "AppX inventory query failed");
    assert_eq!(inventory_failure_detail(" denied \n"), "denied");
}

#[test]
fn removal_requests_are_checked_against_the_list() {
    assert_eq!(approved_package("microsoft.zunemusic"), Some(23));
    assert_eq!(approved_package("Microsoft.ZuneMusic.Extra"), None);
    let refused = refused_removal("evil");
    assert!(!refused.success);
    assert_eq!(
        refused.message,
        "Refused: package was not issued by the bloatware inventory."
    );
}

#[test]
fn removal_script_escapes_quotes() {
    let script = removal_script("a'b");
    assert!(script.contains("$_.Name -eq 'a''b'"));
    assert_eq!(script.matches("a''b").count(), 4);
    assert!(!script.contains("a'b'"));
}

#[test]
fn removal_outcomes() {
    assert_eq!(removal_result("p", true, "").message, "Removed");
    let gone = removal_result("p", false, "package not found");
    assert!(gone.success);
    assert_eq!(gone.message, "Already removed");
    let err = removal_result("p", false, "first line\r\nsecond");
    assert!(!err.success);
    assert_eq!(err.message, "first line");
    assert_eq!(removal_result("p", false, "").message, "Unknown error");
    let stub = remove_apps(&["x".to_string()]);
    assert_eq!(stub[0].message, "[stub] Would remove");
}
