use cove_optimizer::drivers::sdio::extraction::ExtractionError;
use cove_optimizer::drivers::sdio::staging::{
    catalog_plan, staging_accepts_event, staging_start, staging_step, CatalogOutcome, CatalogPlan,
    StagingAction, StagingEvent,
};

#[test]
fn an_inf_and_its_catalog_are_staged_in_order() {
    let cat = catalog_plan(Some(Ok(("amd/driver.cat".to_string(), 7))));
    assert!(matches!(cat, CatalogPlan::Stage { size: 7, leaf_refusal: None }));
    let (s, a) = staging_start("amd/driver.inf", 10, cat);
    assert!(matches!(a, StagingAction::CreateChild));
    let (s, a) = staging_step(s, StagingEvent::Done);
    assert!(matches!(a, StagingAction::CreateFile { catalog: false }));
    let (s, a) = staging_step(s, StagingEvent::Done);
    assert!(matches!(a, StagingAction::Decode { catalog: false }));
    assert!(!staging_accepts_event(&s, &StagingEvent::Done));
    let (s, a) = staging_step(s, StagingEvent::Decoded(10));
    assert!(matches!(a, StagingAction::Seal { catalog: false }));
    let (s, a) = staging_step(s, StagingEvent::Done);
    assert!(matches!(a, StagingAction::CreateFile { catalog: true }));
    let (s, a) = staging_step(s, StagingEvent::Done);
    assert!(matches!(a, StagingAction::Decode { catalog: true }));
    let (s, a) = staging_step(s, StagingEvent::Decoded(7));
    assert!(matches!(a, StagingAction::Seal { catalog: true }));
    let (s, a) = staging_step(s, StagingEvent::Done);
    match a {
        StagingAction::Finished(Ok(o)) => {
            assert_eq!(o.size_bytes, 10);
            assert!(o.catalog == CatalogOutcome::Staged);
        },
        _ => panic!("expected a finished staging"),
    }
    assert!(!staging_accepts_event(&s, &StagingEvent::Done));
}

#[test]
fn a_decoded_size_mismatch_rolls_the_staging_back() {
    let (s, _) = staging_start("driver.inf", 10, catalog_plan(None));
    let (s, _) = staging_step(s, StagingEvent::Done);
    let (s, _) = staging_step(s, StagingEvent::Done);
    let (s, a) = staging_step(s, StagingEvent::Decoded(9));
    assert!(matches!(a, StagingAction::Rollback { inf_staged: true }));
    let (_, a) = staging_step(s, StagingEvent::RolledBack(Ok(())));
    assert!(matches!(
        a,
        StagingAction::Finished(Err(ExtractionError::DecodedSizeMismatch { expected: 10, written: 9 }))
    ));
}

#[test]
fn a_broken_catalog_rolls_back_after_a_failed_partial_removal_reports_it() {
    let plan = catalog_plan(Some(Ok(("x/driver.cat".to_string(), 5))));
    let (s, _) = staging_start("driver.inf", 3, plan);
    let (s, _) = staging_step(s, StagingEvent::Done);
    let (s, _) = staging_step(s, StagingEvent::Done);
    let (s, _) = staging_step(s, StagingEvent::Decoded(3));
    let (s, _) = staging_step(s, StagingEvent::Done);
    let (s, _) = staging_step(s, StagingEvent::Done);
    let (s, a) = staging_step(s, StagingEvent::Failed(ExtractionError::ArchiveBackend("crc".to_string())));
    assert!(matches!(a, StagingAction::RemoveCatalog));
    let (s, a) = staging_step(s, StagingEvent::CatalogRemoved(Ok(())));
    assert!(matches!(a, StagingAction::Rollback { inf_staged: true }));
    let (_, a) = staging_step(s, StagingEvent::RolledBack(Ok(())));
    assert!(matches!(a, StagingAction::Finished(Err(ExtractionError::ArchiveBackend(m))) if m == "crc"));

    assert!(matches!(catalog_plan(Some(Err(ExtractionError::TargetMemberMissing))), CatalogPlan::Missing));
    let (s, _) = staging_start("d/..", 3, catalog_plan(None));
    let (_, a) = staging_step(s, StagingEvent::Done);
    assert!(matches!(a, StagingAction::Rollback { inf_staged: false }));
    let (s, _) = staging_start("driver.inf", 3, catalog_plan(None));
    let (_, a) = staging_step(s, StagingEvent::Failed(ExtractionError::Io("denied".to_string())));
    assert!(matches!(a, StagingAction::Finished(Err(ExtractionError::Io(m))) if m == "denied"));
}
