use cove_optimizer::drivers::sdio::package_tree::{
    plan_package_with_budget, test_charge_retained_path_bytes, test_plan_package,
    test_plan_package_with_budget, PackageTreeError, MAX_PACKAGE_RETAINED_PATH_BYTES,
};

#[test]
fn plan_counts_shared_directories_once() {
    assert_eq!(
        test_plan_package(&["driver.inf", "driver.cat"], &["bin/a.sys", "BIN/b.dll", "bin/x/c.dat"]),
        Ok((2, 5))
    );
    let plan = plan_package_with_budget(&["driver.inf"], &["bin/x/c.dat"], 1000).unwrap();
    assert_eq!(plan.dirs[0].rel, "bin");
    assert_eq!(plan.dirs[0].parent, None);
    assert_eq!(plan.dirs[1].rel, "bin/x");
    assert_eq!(plan.dirs[1].parent, Some(0));
    assert_eq!(plan.files[1].leaf, "c.dat");
    assert_eq!(plan.files[1].parent, Some(1));
}

#[test]
fn plan_refuses_collisions_and_unsafe_names() {
    assert_eq!(
        test_plan_package(&["driver.inf"], &["DRIVER.INF"]),
        Err(PackageTreeError::PathCollision {
            first: "driver.inf".to_string(),
            second: "DRIVER.INF".to_string()
        })
    );
    assert_eq!(
        test_plan_package(&[], &["bin", "bin/a.sys"]),
        Err(PackageTreeError::PathCollision { first: "bin".to_string(), second: "bin/a.sys".to_string() })
    );
    assert_eq!(
        test_plan_package(&[], &["bin/a.sys", "Bin"]),
        Err(PackageTreeError::PathCollision { first: "bin".to_string(), second: "Bin".to_string() })
    );
    assert_eq!(
        test_plan_package(&["sub/driver.inf"], &[]),
        Err(PackageTreeError::InvalidPackagePath { relative_path: "sub/driver.inf".to_string() })
    );
    assert_eq!(
        test_plan_package(&[], &["LONGFI~1.TXT"]),
        Err(PackageTreeError::InvalidPackagePath { relative_path: "LONGFI~1.TXT".to_string() })
    );
    assert_eq!(test_plan_package(&["a", "b", "c"], &[]), Err(PackageTreeError::TooManyFiles));
}

#[test]
fn plan_budget_counts_paths_and_leaf_copies() {
    // "bin" (3+3) then "bin/a.sys" (9+5): 20 bytes retained.
    assert_eq!(test_plan_package_with_budget(&[], &["bin/a.sys"], 20), Ok((1, 1)));
    assert_eq!(
        test_plan_package_with_budget(&[], &["bin/a.sys"], 19),
        Err(PackageTreeError::RetainedPathBudgetExceeded)
    );
    assert_eq!(test_charge_retained_path_bytes(MAX_PACKAGE_RETAINED_PATH_BYTES - 1, 1), Ok(MAX_PACKAGE_RETAINED_PATH_BYTES));
    assert_eq!(
        test_charge_retained_path_bytes(usize::MAX, 1),
        Err(PackageTreeError::RetainedPathBudgetExceeded)
    );
}
