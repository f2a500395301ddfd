use cove_optimizer::drivers::sdio::applicability::{
    ApplicabilityReason, AssessedCatalogCandidate, AssessedDeviceMatches,
    CatalogApplicabilityEvidence, CatalogOsApplicability, TargetArch, TargetOsDecoration,
};
use cove_optimizer::drivers::sdio::catalog::Candidate;
use cove_optimizer::drivers::sdio::extraction::ExtractionError;
use cove_optimizer::drivers::sdio::install_plan::{
    InstallPlanBuilder, PlanBlockReason, VerifiedDriverPackage,
};
use cove_optimizer::drivers::sdio::local_pack::{
    path_joins_leaf, resolve_assessed_pack, CanonicalChild, CanonicalProbe, ChildProbe, ChildState,
    LocalPackError, RootProbe, RootState, MAX_ARCHIVE_MEMBER_LEN,
};
use cove_optimizer::drivers::sdio::matching::{CatalogCandidateMatch, DeviceIdKind, MatchEvidence};
use cove_optimizer::drivers::sdio::payload_inventory::{
    expected_member, inspect_payload_inventory, plan_expected_members, test_accumulate_decode_bytes,
    check_fingerprints, InventoryAction, InventoryEvent, PayloadInventoryRun,
    test_accumulate_total_bytes, test_charge_runtime_bytes, test_expected_archive_member,
    test_payload_size_within_cap, test_validate_source_path, MemberFingerprint,
    PayloadInventoryError, MAX_PAYLOAD_FILES, MAX_PAYLOAD_FILE_BYTES, MAX_PAYLOAD_TOTAL_BYTES,
    MAX_PAYLOAD_TOTAL_DECODE_BYTES,
};

fn candidate(catalog: Option<&str>) -> Candidate {
    Candidate {
        inf_path: "amd\\".to_string(),
        inf_filename: "driver.inf".to_string(),
        provider: None,
        class: None,
        class_guid: None,
        catalog_file: catalog.map(|c| c.to_string()),
        version: None,
        date: None,
        install_section: "Install".to_string(),
        picked_section: "Install.NTamd64".to_string(),
        sect_pos: 1,
        models_section: Some("NTamd64.10.0".to_string()),
        inf_pos: 0,
    }
}

fn assessed(status: CatalogOsApplicability, catalog: Option<&str>) -> AssessedCatalogCandidate {
    AssessedCatalogCandidate {
        matched: CatalogCandidateMatch {
            pack_name: "DP_Chipset".to_string(),
            candidate: candidate(catalog),
            evidence: vec![MatchEvidence {
                kind: DeviceIdKind::Hardware,
                device_id: "PCI\\VEN_1022".to_string(),
                ordinal: 0,
                inf_pos: 0,
            }],
        },
        os: CatalogApplicabilityEvidence {
            models_section: Some("NTamd64.10.0".to_string()),
            target: Some(TargetOsDecoration {
                architecture: Some(TargetArch::Amd64),
                major: Some(10),
                minor: Some(0),
                product_type: None,
                suite_mask: None,
                build: None,
            }),
            status,
            reason: ApplicabilityReason::TargetSatisfied,
        },
    }
}

fn root() -> RootProbe {
    RootProbe { display: "D:\\SDIO".to_string(), state: RootState::Canonical("D:\\SDIO".to_string()) }
}

fn present_child() -> ChildProbe {
    ChildProbe {
        path: "D:\\SDIO\\DP_Chipset.7z".to_string(),
        state: ChildState::File {
            size: 1000,
            canonical: CanonicalProbe::Resolved(CanonicalChild {
                path: "D:\\SDIO\\DP_Chipset.7z".to_string(),
                parent: Some("D:\\SDIO".to_string()),
                file_name: Some("DP_Chipset.7z".to_string()),
            }),
        },
    }
}

fn verified(catalog_leaf: Option<&str>) -> VerifiedDriverPackage {
    VerifiedDriverPackage {
        pack_archive_path: "D:\\SDIO\\DP_Chipset.7z".to_string(),
        pack_name: "DP_Chipset".to_string(),
        expected_archive_member: "amd/driver.inf".to_string(),
        expected_catalog_leaf: catalog_leaf.map(|c| c.to_string()),
        inf_path: "C:\\Stage\\driver.inf".to_string(),
        catalog_name: "driver.cat".to_string(),
        signer: Some("Vendor".to_string()),
    }
}

#[test]
fn plan_entry_only_for_compatible_verified_identical_package() {
    let device = AssessedDeviceMatches {
        instance_id: "PCI\\VEN_1022&DEV_1480\\0".to_string(),
        candidates: vec![
            assessed(CatalogOsApplicability::HostCompatible, Some("driver.cat")),
            assessed(CatalogOsApplicability::Indeterminate, Some("driver.cat")),
        ],
    };
    let builder = InstallPlanBuilder::new(&device, root(), true);
    assert_eq!(builder.device_instance_id(), "PCI\\VEN_1022&DEV_1480\\0");
    let v = verified(Some("DRIVER.CAT"));
    let entry = builder.build(0, Some(&v), &present_child()).unwrap().unwrap();
    assert_eq!(entry.candidate_pack_name(), "DP_Chipset");
    assert_eq!(entry.candidate_inf_filename(), "driver.inf");
    assert_eq!(entry.verified_inf_path(), "C:\\Stage\\driver.inf");
    assert_eq!(entry.catalog_name(), "driver.cat");
    assert_eq!(entry.signer(), Some("Vendor"));
    assert_eq!(entry.applicability_status(), CatalogOsApplicability::HostCompatible);
    assert_eq!(entry.target_device_instance_id(), "PCI\\VEN_1022&DEV_1480\\0");

    assert!(builder.build(1, Some(&v), &present_child()).unwrap().is_none());
    assert!(builder.build(0, None, &present_child()).unwrap().is_none());
    assert_eq!(
        builder.build(7, Some(&v), &present_child()).err(),
        Some(PlanBlockReason::InconsistentInputs)
    );
    let mut other = verified(Some("driver.cat"));
    other.pack_archive_path = "E:\\Mirror\\DP_Chipset.7z".to_string();
    assert_eq!(
        builder.build(0, Some(&other), &present_child()).err(),
        Some(PlanBlockReason::IdentityMismatch)
    );
    let no_catalog = verified(None);
    assert_eq!(
        builder.build(0, Some(&no_catalog), &present_child()).err(),
        Some(PlanBlockReason::IdentityMismatch)
    );
    let missing = ChildProbe { path: "D:\\SDIO\\DP_Chipset.7z".to_string(), state: ChildState::NotFound };
    assert_eq!(
        builder.build(0, Some(&v), &missing).err(),
        Some(PlanBlockReason::IdentityMismatch)
    );

    let plan = builder.build_plan(&[
        (0, Some(&v), present_child()),
        (1, Some(&v), present_child()),
        (0, Some(&other), present_child()),
    ]);
    assert_eq!(plan.ready().len(), 1);
    assert_eq!(plan.target_device_instance_id(), "PCI\\VEN_1022&DEV_1480\\0");
    assert_eq!(builder.empty_plan().ready().len(), 0);
    assert_eq!(
        PlanBlockReason::IdentityMismatch.message(),
        "verified package identity does not match the candidate"
    );
}

#[test]
fn unnamed_device_is_inconsistent() {
    let device = AssessedDeviceMatches {
        instance_id: String::new(),
        candidates: vec![assessed(CatalogOsApplicability::HostCompatible, None)],
    };
    let builder = InstallPlanBuilder::new(&device, root(), true);
    let v = verified(None);
    assert_eq!(
        builder.build(0, Some(&v), &present_child()).err(),
        Some(PlanBlockReason::InconsistentInputs)
    );
}

#[test]
fn expected_members_compose_once_and_refuse_hostile_paths() {
    assert_eq!(
        test_expected_archive_member("amd/10x64/pkg/driver.inf", "bin/driver.sys").unwrap(),
        "amd/10x64/pkg/bin/driver.sys"
    );
    assert_eq!(test_expected_archive_member("driver.inf", "bin/driver.sys").unwrap(), "bin/driver.sys");
    for bad in [
        "", "/abs", "trail/", "a/../b", "a/./b", "a\\b", "c:x", "con.sys", "x/NUL", "dot.",
        "space ", "q?", "a//b", "\u{e9}.sys",
    ] {
        assert_eq!(
            test_validate_source_path(bad),
            Err(PayloadInventoryError::UnsafeSourcePath { index: 0 }),
            "{bad:?}"
        );
    }
    assert!(test_validate_source_path("sub/COM10.sys").is_ok());
    let mut long = vec!["a".repeat(204); 39].join("/");
    long.push('/');
    long.push_str(&"b".repeat(MAX_ARCHIVE_MEMBER_LEN - 2 - long.len()));
    assert!(test_validate_source_path(&long).is_ok());
    assert_eq!(
        expected_member(3, "dir/x.inf", &long),
        Err(PayloadInventoryError::ExpectedMemberTooLong)
    );
}

#[test]
fn member_plan_refuses_duplicates_and_empty() {
    let sources = vec!["bin/a.sys".to_string(), "BIN/A.SYS".to_string()];
    assert_eq!(
        plan_expected_members("pkg/x.inf", &sources),
        Err(PayloadInventoryError::DuplicateExpectedMember)
    );
    assert_eq!(plan_expected_members("pkg/x.inf", &[]), Err(PayloadInventoryError::NoSourceReferences));
    let many: Vec<String> = (0..=MAX_PAYLOAD_FILES).map(|i| format!("f{i}.sys")).collect();
    assert_eq!(plan_expected_members("pkg/x.inf", &many), Err(PayloadInventoryError::TooManyPayloads));
    let ok = plan_expected_members("pkg/x.inf", &["a.sys".to_string(), "b/c.dll".to_string()]).unwrap();
    assert_eq!(ok, vec!["pkg/a.sys".to_string(), "pkg/b/c.dll".to_string()]);
}

#[test]
fn inventory_is_all_or_nothing() {
    let v = verified(None);
    let sources = vec!["a.sys".to_string(), "b.dll".to_string()];
    let fps = vec![
        MemberFingerprint { actual_member: "amd/A.sys".to_string(), size_bytes: 3, sha256: [1; 32] },
        MemberFingerprint { actual_member: "amd/b.dll".to_string(), size_bytes: 4, sha256: [2; 32] },
    ];
    let inv = inspect_payload_inventory(&v, &sources, Ok(()), Ok((fps, 10, 9)), Ok(())).unwrap();
    assert_eq!(inv.entries().len(), 2);
    assert_eq!(inv.entries()[0].source_path(), "a.sys");
    assert_eq!(inv.entries()[0].actual_archive_member(), "amd/A.sys");
    assert_eq!(inv.entries()[1].fingerprint().size_bytes(), 4);
    assert_eq!(inv.entries()[1].fingerprint().sha256(), &[2; 32]);
    assert_eq!(inv.declared_decode_bytes(), 10);
    assert_eq!(inv.decode_bytes(), 9);
    assert_eq!(inv.verified_package().pack_name, "DP_Chipset");

    assert!(matches!(
        inspect_payload_inventory(&v, &sources, Err("lease lost".to_string()), Ok((Vec::new(), 0, 0)), Ok(())),
        Err(PayloadInventoryError::Attestation(m)) if m == "lease lost"
    ));
    assert!(matches!(
        inspect_payload_inventory(
            &v,
            &sources,
            Ok(()),
            Err(ExtractionError::PayloadMemberAmbiguous { index: 1, matches: 2 }),
            Ok(())
        ),
        Err(PayloadInventoryError::PayloadMemberAmbiguous { index: 1, matches: 2 })
    ));
    assert!(matches!(
        inspect_payload_inventory(&v, &sources, Ok(()), Err(ExtractionError::ArchiveTooManyBlocks), Ok(())),
        Err(PayloadInventoryError::Archive(ExtractionError::ArchiveTooManyBlocks))
    ));
    let bad = vec!["../x".to_string()];
    assert!(matches!(
        inspect_payload_inventory(&v, &bad, Err("never reached".to_string()), Ok((Vec::new(), 0, 0)), Ok(())),
        Err(PayloadInventoryError::UnsafeSourcePath { index: 0 })
    ));
}

#[test]
fn payload_bounds_at_module_caps() {
    assert!(test_payload_size_within_cap(MAX_PAYLOAD_FILE_BYTES).is_ok());
    assert_eq!(
        test_payload_size_within_cap(MAX_PAYLOAD_FILE_BYTES + 1),
        Err(PayloadInventoryError::PayloadTooLarge { index: 0 })
    );
    assert_eq!(test_accumulate_total_bytes(MAX_PAYLOAD_TOTAL_BYTES - 1, 1), Ok(MAX_PAYLOAD_TOTAL_BYTES));
    assert_eq!(
        test_accumulate_total_bytes(u64::MAX, 1),
        Err(PayloadInventoryError::PayloadTotalBytesExceeded)
    );
    assert_eq!(
        test_accumulate_decode_bytes(MAX_PAYLOAD_TOTAL_DECODE_BYTES, 1),
        Err(PayloadInventoryError::PayloadDecodeBudgetExceeded)
    );
    assert_eq!(test_charge_runtime_bytes(5, 5, 10), Ok(10));
    assert_eq!(
        test_charge_runtime_bytes(5, 6, 10),
        Err(PayloadInventoryError::PayloadDecodeBudgetExceeded)
    );
}

#[test]
fn plan_keeps_every_successful_build_in_request_order() {
    let device = AssessedDeviceMatches {
        instance_id: "PCI\\VEN_1022&DEV_1480\\0".to_string(),
        candidates: vec![
            assessed(CatalogOsApplicability::HostCompatible, Some("driver.cat")),
            assessed(CatalogOsApplicability::HostCompatible, Some("driver.cat")),
        ],
    };
    let builder = InstallPlanBuilder::new(&device, root(), true);
    let v = verified(Some("driver.cat"));
    let missing = ChildProbe { path: "D:\\SDIO\\DP_Chipset.7z".to_string(), state: ChildState::NotFound };
    let plan = builder.build_plan(&[
        (1, Some(&v), present_child()),
        (0, Some(&v), missing),
        (5, Some(&v), present_child()),
        (0, None, present_child()),
        (0, Some(&v), present_child()),
    ]);
    assert_eq!(plan.ready().len(), 2);
    for e in plan.ready() {
        assert_eq!(e.candidate_pack_name(), "DP_Chipset");
        assert_eq!(e.target_device_instance_id(), "PCI\\VEN_1022&DEV_1480\\0");
    }
}

#[test]
fn a_canonical_path_that_is_not_its_parent_and_leaf_escapes_the_root() {
    assert!(path_joins_leaf("D:\\SDIO\\DP_Chipset.7z", "D:\\SDIO", "DP_Chipset.7z"));
    assert!(path_joins_leaf("/srv/DP_Chipset.7z", "/srv", "DP_Chipset.7z"));
    assert!(path_joins_leaf("C:\\DP_Chipset.7z", "C:\\", "DP_Chipset.7z"));
    assert!(!path_joins_leaf("E:\\Other\\DP_Chipset.7z", "D:\\SDIO", "DP_Chipset.7z"));
    assert!(!path_joins_leaf("D:\\SDIO\\x\\DP_Chipset.7z", "D:\\SDIO", "DP_Chipset.7z"));
    assert!(!path_joins_leaf("D:\\SDIODP_Chipset.7z", "D:\\SDIO", "DP_Chipset.7z"));

    let device = AssessedDeviceMatches {
        instance_id: "PCI\\VEN_1022&DEV_1480\\0".to_string(),
        candidates: vec![assessed(CatalogOsApplicability::HostCompatible, Some("driver.cat"))],
    };
    let elsewhere = ChildProbe {
        path: "D:\\SDIO\\DP_Chipset.7z".to_string(),
        state: ChildState::File {
            size: 1000,
            canonical: CanonicalProbe::Resolved(CanonicalChild {
                path: "E:\\Other\\DP_Chipset.7z".to_string(),
                parent: Some("D:\\SDIO".to_string()),
                file_name: Some("DP_Chipset.7z".to_string()),
            }),
        },
    };
    assert_eq!(
        resolve_assessed_pack(&root(), &device.candidates[0], &elsewhere, true),
        Err(LocalPackError::PackEscapesRoot("E:\\Other\\DP_Chipset.7z".to_string()))
    );
}

#[test]
fn a_refused_source_list_finishes_before_any_attestation_or_reading() {
    let v = verified(None);
    let (run, a) = PayloadInventoryRun::start(&v, Vec::new());
    assert!(matches!(a, InventoryAction::Finished(Err(PayloadInventoryError::NoSourceReferences))));
    assert!(!run.accepts(&InventoryEvent::Attested(Ok(()))));
    let dup = vec!["bin/a.sys".to_string(), "BIN/A.SYS".to_string()];
    let (_, a) = PayloadInventoryRun::start(&v, dup);
    assert!(matches!(a, InventoryAction::Finished(Err(PayloadInventoryError::DuplicateExpectedMember))));
}

#[test]
fn an_inventory_run_attests_reads_and_attests_again() {
    let v = verified(None);
    let (mut run, a) = PayloadInventoryRun::start(&v, vec!["bin/a.sys".to_string()]);
    assert!(matches!(a, InventoryAction::Reattest));
    assert!(!run.accepts(&InventoryEvent::Fingerprinted(Err(ExtractionError::ArchiveTooManyBlocks))));
    match run.step(InventoryEvent::Attested(Ok(()))) {
        InventoryAction::Fingerprint(ms) => assert_eq!(ms, vec!["amd/bin/a.sys".to_string()]),
        _ => panic!("expected the members to read"),
    }
    let fps = vec![MemberFingerprint { actual_member: "amd/BIN/a.sys".to_string(), size_bytes: 5, sha256: [7; 32] }];
    assert!(matches!(run.step(InventoryEvent::Fingerprinted(Ok((fps, 6, 5)))), InventoryAction::Reattest));
    match run.step(InventoryEvent::Attested(Ok(()))) {
        InventoryAction::Finished(Ok(inv)) => {
            assert_eq!(inv.entries().len(), 1);
            assert_eq!(inv.entries()[0].actual_archive_member(), "amd/BIN/a.sys");
            assert_eq!(inv.declared_decode_bytes(), 6);
        },
        _ => panic!("expected an inventory"),
    }

    let (mut run2, _) = PayloadInventoryRun::start(&v, vec!["bin/a.sys".to_string()]);
    assert!(matches!(
        run2.step(InventoryEvent::Attested(Err("lease lost".to_string()))),
        InventoryAction::Finished(Err(PayloadInventoryError::Attestation(m))) if m == "lease lost"
    ));
}

#[test]
fn fingerprints_must_fit_the_planned_members() {
    let members = vec!["amd/a.sys".to_string(), "amd/b.dll".to_string()];
    let fp = |m: &str, n: u64| MemberFingerprint { actual_member: m.to_string(), size_bytes: n, sha256: [0; 32] };
    assert_eq!(check_fingerprints(&members, &[fp("AMD/A.SYS", 1), fp("amd/b.dll", 2)], 3, 3), Ok(()));
    assert_eq!(
        check_fingerprints(&members, &[fp("amd/a.sys", 1), fp("amd/c.dll", 2)], 3, 3),
        Err(PayloadInventoryError::PayloadMemberMissing { index: 1 })
    );
    assert_eq!(
        check_fingerprints(&members, &[fp("amd/a.sys", MAX_PAYLOAD_FILE_BYTES + 1), fp("amd/b.dll", 2)], 3, 3),
        Err(PayloadInventoryError::PayloadTooLarge { index: 0 })
    );
    assert_eq!(
        check_fingerprints(&members, &[fp("amd/a.sys", 1), fp("amd/b.dll", 2)], MAX_PAYLOAD_TOTAL_DECODE_BYTES + 1, 3),
        Err(PayloadInventoryError::PayloadDecodeBudgetExceeded)
    );

    let v = verified(None);
    let (mut run, _) = PayloadInventoryRun::start(&v, vec!["bin/a.sys".to_string()]);
    let _ = run.step(InventoryEvent::Attested(Ok(())));
    assert!(matches!(
        run.step(InventoryEvent::Fingerprinted(Ok((vec![fp("amd/other.sys", 1)], 1, 1)))),
        InventoryAction::Finished(Err(PayloadInventoryError::PayloadMemberMissing { index: 0 }))
    ));
}
