use cove_optimizer::drivers::sdio::extraction::ExtractionError;
use cove_optimizer::drivers::sdio::install_plan::VerifiedDriverPackage;
use cove_optimizer::drivers::sdio::package_materialization::{
    from_package_tree_error, plan_materialization, public_files, rolled_back,
    MaterializedPackageFileKind, PackageMaterializationError,
};
use cove_optimizer::drivers::sdio::package_tree::{PackageTreeError, PlannedFile};
use cove_optimizer::drivers::sdio::payload_inventory::{inspect_payload_inventory, MemberFingerprint};

fn verified(catalog_leaf: Option<&str>) -> VerifiedDriverPackage {
    VerifiedDriverPackage {
        pack_archive_path: "D:\\SDIO\\DP_Chipset.7z".to_string(),
        pack_name: "DP_Chipset".to_string(),
        expected_archive_member: "amd/driver.inf".to_string(),
        expected_catalog_leaf: catalog_leaf.map(|c| c.to_string()),
        inf_path: "C:\\Stage\\driver.inf".to_string(),
        catalog_name: "driver.cat".to_string(),
        signer: None,
    }
}

fn planned(rel: &str) -> PlannedFile {
    PlannedFile { rel: rel.to_string(), parent: None, leaf: rel.to_string() }
}

#[test]
fn tree_errors_map_variant_for_variant() {
    assert_eq!(
        from_package_tree_error(PackageTreeError::Filesystem(ExtractionError::ArchiveTooManyBlocks)),
        PackageMaterializationError::Archive(ExtractionError::ArchiveTooManyBlocks)
    );
    assert_eq!(
        from_package_tree_error(PackageTreeError::Rollback {
            cause: Box::new(PackageTreeError::PackRootCollision),
            residue: "pkg".to_string(),
        }),
        PackageMaterializationError::Rollback {
            cause: Box::new(PackageMaterializationError::PackRootCollision),
            residue: "pkg".to_string(),
        }
    );
}

#[test]
fn rollback_residue_wraps_the_cause() {
    assert_eq!(
        rolled_back(PackageMaterializationError::TooManyFiles, None),
        PackageMaterializationError::TooManyFiles
    );
    assert_eq!(
        rolled_back(PackageMaterializationError::TooManyFiles, Some("left".to_string())),
        PackageMaterializationError::Rollback {
            cause: Box::new(PackageMaterializationError::TooManyFiles),
            residue: "left".to_string(),
        }
    );
}

#[test]
fn public_files_need_every_baseline() {
    let files = vec![planned("driver.inf"), planned("driver.cat"), planned("bin/a.sys")];
    let bases = vec![Some((10, [1u8; 32])), Some((20, [2u8; 32])), Some((30, [3u8; 32]))];
    let list = public_files(&files, &bases, 2).unwrap();
    assert_eq!(list.len(), 3);
    assert_eq!(list[0].kind(), MaterializedPackageFileKind::Inf);
    assert_eq!(list[1].kind(), MaterializedPackageFileKind::Catalog);
    assert_eq!(list[2].kind(), MaterializedPackageFileKind::Payload);
    assert_eq!(list[2].relative_path(), "bin/a.sys");
    assert_eq!(list[2].size_bytes(), 30);
    assert_eq!(list[1].sha256(), &[2u8; 32]);
    let no_catalog = public_files(&files[..1], &bases[..1], 1).unwrap();
    assert_eq!(no_catalog[0].kind(), MaterializedPackageFileKind::Inf);
    let missing = vec![Some((10, [1u8; 32])), None, Some((30, [3u8; 32]))];
    assert_eq!(
        public_files(&files, &missing, 2),
        Err(PackageMaterializationError::PackageChanged { relative_path: "driver.cat".to_string() })
    );
}

#[test]
fn materialization_plan_orders_inf_catalog_then_payloads() {
    let v = verified(Some("driver.cat"));
    assert_eq!(
        plan_materialization(None, &v, &[]).err(),
        Some(PackageMaterializationError::SourceUnavailable { leaf: "<inf>".to_string() })
    );
    let sources = vec!["bin/a.sys".to_string()];
    let fps = vec![MemberFingerprint {
        actual_member: "amd/bin/a.sys".to_string(),
        size_bytes: 3,
        sha256: [1; 32],
    }];
    let inv = inspect_payload_inventory(&v, &sources, Ok(()), Ok((fps, 3, 3)), Ok(())).unwrap();
    let m = plan_materialization(Some("driver.inf"), &v, inv.entries()).unwrap();
    assert_eq!(m.first_payload, 2);
    assert_eq!(m.plan.files.len(), 3);
    assert_eq!(m.plan.files[0].rel, "driver.inf");
    assert_eq!(m.plan.files[1].rel, "driver.cat");
    assert_eq!(m.plan.files[2].rel, "bin/a.sys");
    assert_eq!(m.expected, vec!["amd/bin/a.sys".to_string()]);
    let clash = verified(Some("DRIVER.INF"));
    assert_eq!(
        plan_materialization(Some("driver.inf"), &clash, &[]).err(),
        Some(PackageMaterializationError::PathCollision {
            first: "driver.inf".to_string(),
            second: "DRIVER.INF".to_string()
        })
    );
}
