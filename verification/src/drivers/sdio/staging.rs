//! Staging one INF (and the catalog beside it) out of a pack, as the
//! decisions between the file-system steps: create the staging folder,
//! create the INF file, decode into it, seal it (flush, take its baseline,
//! lease it), then the same for the catalog when the request names one that
//! the archive holds. Every failure after the staging folder exists rolls
//! it back; a partially staged catalog is removed first. The steps
//! themselves are I/O outside the library.
use vstd::prelude::*;
use crate::drivers::sdio::extraction::{ExtractionError, check_output_leaf, output_leaf_ok};
use crate::drivers::sdio::install_plan::{member_leaf, member_leaf_of};

verus! {

/// Where staging stands.
#[derive(Clone, Copy, PartialEq, Eq, Structural)]
pub enum StagingStage {
    CreatingChild,
    CreatingInf,
    DecodingInf,
    SealingInf,
    CreatingCatalog,
    DecodingCatalog,
    SealingCatalog,
    RemovingCatalog,
    RollingBack,
    Finished,
}

/// What the request and the archive say of the catalog.
pub enum CatalogPlan {
    /// The request names no catalog.
    NotNamed,
    /// The request names a catalog the archive does not hold: its expected
    /// leaf is recorded, nothing is staged.
    Missing,
    /// The archive holds the catalog but it cannot be staged.
    Broken(ExtractionError),
    /// Stage the catalog: its declared size, and the refusal of its output
    /// name if it has one.
    Stage { size: u64, leaf_refusal: Option<ExtractionError> },
}

/// What became of the catalog in a finished staging.
#[derive(Clone, Copy, PartialEq, Eq, Structural)]
pub enum CatalogOutcome {
    NotNamed,
    Recorded,
    Staged,
}

/// A finished staging: the INF's decoded size and the catalog's fate.
#[derive(Clone, Copy, PartialEq, Eq, Structural)]
pub struct StagedOutcome {
    pub size_bytes: u64,
    pub catalog: CatalogOutcome,
}

/// The staging state.
pub struct StagingState {
    pub stage: StagingStage,
    /// The INF's declared size.
    pub inf_size: u64,
    /// The refusal of the INF's output name, if it has one (taken out when
    /// it is reported).
    pub inf_leaf_refusal: Option<ExtractionError>,
    /// The catalog's plan (a refusal in it is taken out when it is
    /// reported).
    pub catalog: CatalogPlan,
    /// Whether the INF file has been created (and so must be removed on
    /// rollback).
    pub inf_staged: bool,
    /// The bytes decoded into the INF.
    pub written: u64,
    /// The failure a rollback under way will report.
    pub pending: Option<ExtractionError>,
}

/// What the caller is to do next.
pub enum StagingAction {
    /// Create the unique staging folder under the staging root.
    CreateChild,
    /// Create the INF (or the catalog) file, new, in the staging folder.
    CreateFile { catalog: bool },
    /// Decode the INF (or the catalog) into its file.
    Decode { catalog: bool },
    /// Flush the file, take its byte baseline and lease it.
    Seal { catalog: bool },
    /// Remove the partially staged catalog, bound to its identity.
    RemoveCatalog,
    /// Roll the staging folder back (with the INF in it when it was created).
    Rollback { inf_staged: bool },
    /// Staging is over.
    Finished(Result<StagedOutcome, ExtractionError>),
}

/// What the last step came to.
pub enum StagingEvent {
    /// The step succeeded.
    Done,
    /// The step failed.
    Failed(ExtractionError),
    /// Decoding wrote this many bytes.
    Decoded(u64),
    /// The partial catalog was removed, or removing it failed.
    CatalogRemoved(Result<(), ExtractionError>),
    /// The rollback finished, or failed.
    RolledBack(Result<(), ExtractionError>),
}

/// Whether `e` is what staging in state `s` waits for.
pub open spec fn staging_accepts(s: StagingState, e: StagingEvent) -> bool {
    match s.stage {
        StagingStage::DecodingInf | StagingStage::DecodingCatalog => e is Decoded || e is Failed,
        StagingStage::RemovingCatalog => e is CatalogRemoved,
        StagingStage::RollingBack => e is RolledBack && s.pending is Some,
        StagingStage::Finished => false,
        _ => e is Done || e is Failed,
    }
}

/// Roll back with `err` pending.
pub open spec fn roll_back(s: StagingState, err: ExtractionError) -> (StagingState, StagingAction) {
    let inf = s.inf_staged;
    (
        StagingState { stage: StagingStage::RollingBack, pending: Some(err), ..s },
        StagingAction::Rollback { inf_staged: inf },
    )
}

/// Finish with `r`.
pub open spec fn finish(s: StagingState, r: Result<StagedOutcome, ExtractionError>) -> (
    StagingState,
    StagingAction,
) {
    (StagingState { stage: StagingStage::Finished, pending: None, ..s }, StagingAction::Finished(r))
}

/// The next state and action from state `s` and event `e`.
pub open spec fn staging_step_spec(s: StagingState, e: StagingEvent) -> (StagingState, StagingAction) {
    match s.stage {
        StagingStage::CreatingChild => match e {
            StagingEvent::Failed(err) => finish(s, Err(err)),
            _ => match s.inf_leaf_refusal {
                Some(err) => roll_back(StagingState { inf_leaf_refusal: None, ..s }, err),
                None => (
                    StagingState { stage: StagingStage::CreatingInf, ..s },
                    StagingAction::CreateFile { catalog: false },
                ),
            },
        },
        StagingStage::CreatingInf => match e {
            StagingEvent::Failed(err) => roll_back(s, err),
            _ => (
                StagingState { stage: StagingStage::DecodingInf, inf_staged: true, ..s },
                StagingAction::Decode { catalog: false },
            ),
        },
        StagingStage::DecodingInf => match e {
            StagingEvent::Decoded(w) => if w != s.inf_size {
                roll_back(s, ExtractionError::DecodedSizeMismatch { expected: s.inf_size, written: w })
            } else {
                (
                    StagingState { stage: StagingStage::SealingInf, written: w, ..s },
                    StagingAction::Seal { catalog: false },
                )
            },
            StagingEvent::Failed(err) => roll_back(s, err),
            _ => (s, StagingAction::CreateChild),
        },
        StagingStage::SealingInf => match e {
            StagingEvent::Failed(err) => roll_back(s, err),
            _ => {
                let out = s.written;
                match s.catalog {
                    CatalogPlan::NotNamed => finish(
                        s,
                        Ok(StagedOutcome { size_bytes: out, catalog: CatalogOutcome::NotNamed }),
                    ),
                    CatalogPlan::Missing => finish(
                        s,
                        Ok(StagedOutcome { size_bytes: out, catalog: CatalogOutcome::Recorded }),
                    ),
                    CatalogPlan::Broken(err) => roll_back(
                        StagingState { catalog: CatalogPlan::NotNamed, ..s },
                        err,
                    ),
                    CatalogPlan::Stage { size, leaf_refusal } => match leaf_refusal {
                        Some(err) => roll_back(
                            StagingState {
                                catalog: CatalogPlan::Stage { size, leaf_refusal: None },
                                ..s
                            },
                            err,
                        ),
                        None => (
                            StagingState { stage: StagingStage::CreatingCatalog, ..s },
                            StagingAction::CreateFile { catalog: true },
                        ),
                    },
                }
            },
        },
        StagingStage::CreatingCatalog => match e {
            StagingEvent::Failed(err) => roll_back(s, err),
            _ => (
                StagingState { stage: StagingStage::DecodingCatalog, ..s },
                StagingAction::Decode { catalog: true },
            ),
        },
        StagingStage::DecodingCatalog => match e {
            StagingEvent::Decoded(w) => {
                let expected = match s.catalog {
                    CatalogPlan::Stage { size, .. } => size,
                    _ => w,
                };
                if w != expected {
                    (
                        StagingState {
                            stage: StagingStage::RemovingCatalog,
                            pending: Some(
                                ExtractionError::DecodedSizeMismatch { expected, written: w },
                            ),
                            ..s
                        },
                        StagingAction::RemoveCatalog,
                    )
                } else {
                    (
                        StagingState { stage: StagingStage::SealingCatalog, ..s },
                        StagingAction::Seal { catalog: true },
                    )
                }
            },
            StagingEvent::Failed(err) => (
                StagingState { stage: StagingStage::RemovingCatalog, pending: Some(err), ..s },
                StagingAction::RemoveCatalog,
            ),
            _ => (s, StagingAction::CreateChild),
        },
        StagingStage::SealingCatalog => match e {
            StagingEvent::Failed(err) => (
                StagingState { stage: StagingStage::RemovingCatalog, pending: Some(err), ..s },
                StagingAction::RemoveCatalog,
            ),
            _ => {
                let out = s.written;
                finish(s, Ok(StagedOutcome { size_bytes: out, catalog: CatalogOutcome::Staged }))
            },
        },
        StagingStage::RemovingCatalog => match e {
            StagingEvent::CatalogRemoved(Err(c)) => roll_back(s, c),
            _ => {
                let inf = s.inf_staged;
                (
                    StagingState { stage: StagingStage::RollingBack, ..s },
                    StagingAction::Rollback { inf_staged: inf },
                )
            },
        },
        StagingStage::RollingBack => match e {
            StagingEvent::RolledBack(Err(c)) => finish(s, Err(c)),
            _ => match s.pending {
                Some(err) => finish(s, Err(err)),
                None => (s, StagingAction::CreateChild),
            },
        },
        StagingStage::Finished => (s, StagingAction::CreateChild),
    }
}

/// Start staging the INF at archive member `inf_member` of declared size
/// `inf_size`, with the catalog as `catalog` says: its output name is
/// checked now, and the first step is creating the staging folder.
pub fn staging_start(inf_member: &str, inf_size: u64, catalog: CatalogPlan) -> (r: (
    StagingState,
    StagingAction,
))
    ensures
        r.0.stage == StagingStage::CreatingChild,
        r.0.inf_size == inf_size,
        r.0.catalog == catalog,
        !r.0.inf_staged,
        r.0.written == 0,
        r.0.pending is None,
        r.0.inf_leaf_refusal is None <==> output_leaf_ok(member_leaf(inf_member@)),
        r.0.inf_leaf_refusal matches Some(e) ==> e matches ExtractionError::InvalidPackAtExtraction(m)
            && m@ == "invalid output leaf"@,
        r.1 is CreateChild,
{
    let leaf = member_leaf_of(inf_member);
    let refusal = match check_output_leaf(leaf.as_str()) {
        Ok(()) => None,
        Err(e) => Some(e),
    };
    (
        StagingState {
            stage: StagingStage::CreatingChild,
            inf_size,
            inf_leaf_refusal: refusal,
            catalog,
            inf_staged: false,
            written: 0,
            pending: None,
        },
        StagingAction::CreateChild,
    )
}

/// The catalog plan from the catalog lookup: `None` when the request names
/// no catalog; a missing member is recorded; any other refusal makes the
/// catalog broken; a found member (its archive path and declared size) is
/// staged under the last part of its path, whose name is checked now.
pub fn catalog_plan(lookup: Option<Result<(String, u64), ExtractionError>>) -> (r: CatalogPlan)
    ensures
        match lookup {
            None => r is NotNamed,
            Some(Err(ExtractionError::TargetMemberMissing)) => r is Missing,
            Some(Err(e)) => r == CatalogPlan::Broken(e),
            Some(Ok((path, size))) => r matches CatalogPlan::Stage { size: s, leaf_refusal } && s == size
                && (leaf_refusal is None <==> output_leaf_ok(member_leaf(path@))) && (
            leaf_refusal matches Some(e) ==> e matches ExtractionError::InvalidPackAtExtraction(m)
                && m@ == "invalid output leaf"@),
        },
{
    match lookup {
        None => CatalogPlan::NotNamed,
        Some(Err(ExtractionError::TargetMemberMissing)) => CatalogPlan::Missing,
        Some(Err(e)) => CatalogPlan::Broken(e),
        Some(Ok((path, size))) => {
            let leaf = member_leaf_of(path.as_str());
            let leaf_refusal = match check_output_leaf(leaf.as_str()) {
                Ok(()) => None,
                Err(e) => Some(e),
            };
            CatalogPlan::Stage { size, leaf_refusal }
        },
    }
}

/// Whether `e` is what staging in state `s` waits for.
pub fn staging_accepts_event(s: &StagingState, e: &StagingEvent) -> (r: bool)
    ensures
        r == staging_accepts(*s, *e),
{
    match s.stage {
        StagingStage::DecodingInf | StagingStage::DecodingCatalog => matches!(e, StagingEvent::Decoded(_) | StagingEvent::Failed(_)),
        StagingStage::RemovingCatalog => matches!(e, StagingEvent::CatalogRemoved(_)),
        StagingStage::RollingBack => matches!(e, StagingEvent::RolledBack(_)) && s.pending.is_some(),
        StagingStage::Finished => false,
        _ => matches!(e, StagingEvent::Done | StagingEvent::Failed(_)),
    }
}

fn exec_roll_back(s: StagingState, err: ExtractionError) -> (r: (StagingState, StagingAction))
    ensures
        r == roll_back(s, err),
{
    let inf = s.inf_staged;
    (StagingState { stage: StagingStage::RollingBack, pending: Some(err), ..s }, StagingAction::Rollback { inf_staged: inf })
}

fn exec_finish(s: StagingState, r: Result<StagedOutcome, ExtractionError>) -> (o: (StagingState, StagingAction))
    ensures
        o == finish(s, r),
{
    (StagingState { stage: StagingStage::Finished, pending: None, ..s }, StagingAction::Finished(r))
}

/// One staging decision: the next state and what to do, from the last
/// step's outcome. A decoded size other than the declared one, and every
/// failed step, roll back (a partial catalog is removed first); the catalog
/// is created only once the INF is sealed and leased.
pub fn staging_step(s: StagingState, e: StagingEvent) -> (r: (StagingState, StagingAction))
    requires
        staging_accepts(s, e),
    ensures
        r == staging_step_spec(s, e),
{
    let mut s = s;
    match s.stage {
        StagingStage::CreatingChild => match e {
            StagingEvent::Failed(err) => exec_finish(s, Err(err)),
            _ => {
                let mut taken: Option<ExtractionError> = None;
                std::mem::swap(&mut taken, &mut s.inf_leaf_refusal);
                match taken {
                    Some(err) => exec_roll_back(s, err),
                    None => {
                        s.stage = StagingStage::CreatingInf;
                        (s, StagingAction::CreateFile { catalog: false })
                    },
                }
            },
        },
        StagingStage::CreatingInf => match e {
            StagingEvent::Failed(err) => exec_roll_back(s, err),
            _ => {
                s.stage = StagingStage::DecodingInf;
                s.inf_staged = true;
                (s, StagingAction::Decode { catalog: false })
            },
        },
        StagingStage::DecodingInf => match e {
            StagingEvent::Decoded(w) => {
                if w != s.inf_size {
                    let expected = s.inf_size;
                    exec_roll_back(s, ExtractionError::DecodedSizeMismatch { expected, written: w })
                } else {
                    s.stage = StagingStage::SealingInf;
                    s.written = w;
                    (s, StagingAction::Seal { catalog: false })
                }
            },
            StagingEvent::Failed(err) => exec_roll_back(s, err),
            _ => (s, StagingAction::CreateChild),
        },
        StagingStage::SealingInf => match e {
            StagingEvent::Failed(err) => exec_roll_back(s, err),
            _ => {
                let out = s.written;
                let mut plan = CatalogPlan::NotNamed;
                std::mem::swap(&mut plan, &mut s.catalog);
                match plan {
                    CatalogPlan::NotNamed => exec_finish(
                        s,
                        Ok(StagedOutcome { size_bytes: out, catalog: CatalogOutcome::NotNamed }),
                    ),
                    CatalogPlan::Missing => {
                        s.catalog = CatalogPlan::Missing;
                        exec_finish(
                            s,
                            Ok(StagedOutcome { size_bytes: out, catalog: CatalogOutcome::Recorded }),
                        )
                    },
                    CatalogPlan::Broken(err) => exec_roll_back(s, err),
                    CatalogPlan::Stage { size, leaf_refusal } => {
                        s.catalog = CatalogPlan::Stage { size, leaf_refusal: None };
                        match leaf_refusal {
                            Some(err) => exec_roll_back(s, err),
                            None => {
                                s.stage = StagingStage::CreatingCatalog;
                                (s, StagingAction::CreateFile { catalog: true })
                            },
                        }
                    },
                }
            },
        },
        StagingStage::CreatingCatalog => match e {
            StagingEvent::Failed(err) => exec_roll_back(s, err),
            _ => {
                s.stage = StagingStage::DecodingCatalog;
                (s, StagingAction::Decode { catalog: true })
            },
        },
        StagingStage::DecodingCatalog => match e {
            StagingEvent::Decoded(w) => {
                let expected = match &s.catalog {
                    CatalogPlan::Stage { size, .. } => *size,
                    _ => w,
                };
                if w != expected {
                    s.stage = StagingStage::RemovingCatalog;
                    s.pending = Some(ExtractionError::DecodedSizeMismatch { expected, written: w });
                    (s, StagingAction::RemoveCatalog)
                } else {
                    s.stage = StagingStage::SealingCatalog;
                    (s, StagingAction::Seal { catalog: true })
                }
            },
            StagingEvent::Failed(err) => {
                s.stage = StagingStage::RemovingCatalog;
                s.pending = Some(err);
                (s, StagingAction::RemoveCatalog)
            },
            _ => (s, StagingAction::CreateChild),
        },
        StagingStage::SealingCatalog => match e {
            StagingEvent::Failed(err) => {
                s.stage = StagingStage::RemovingCatalog;
                s.pending = Some(err);
                (s, StagingAction::RemoveCatalog)
            },
            _ => {
                let out = s.written;
                exec_finish(s, Ok(StagedOutcome { size_bytes: out, catalog: CatalogOutcome::Staged }))
            },
        },
        StagingStage::RemovingCatalog => match e {
            StagingEvent::CatalogRemoved(Err(c)) => exec_roll_back(s, c),
            _ => {
                let inf = s.inf_staged;
                s.stage = StagingStage::RollingBack;
                (s, StagingAction::Rollback { inf_staged: inf })
            },
        },
        StagingStage::RollingBack => match e {
            StagingEvent::RolledBack(Err(c)) => exec_finish(s, Err(c)),
            _ => {
                let mut taken: Option<ExtractionError> = None;
                std::mem::swap(&mut taken, &mut s.pending);
                match taken {
                    Some(err) => exec_finish(s, Err(err)),
                    None => (s, StagingAction::CreateChild),
                }
            },
        },
        StagingStage::Finished => (s, StagingAction::CreateChild),
    }
}


/// The catalog is created only once the INF is sealed and leased: the only
/// step that asks for the catalog file is the one after the INF's sealing
/// succeeded.
pub proof fn catalog_is_staged_only_after_the_inf_is_leased(s: StagingState, e: StagingEvent)
    requires
        staging_accepts(s, e),
        staging_step_spec(s, e).1 matches StagingAction::CreateFile { catalog: true },
    ensures
        s.stage == StagingStage::SealingInf,
        e is Done,
{
}

/// Every failed step after the staging folder exists rolls it back with
/// that failure pending (a catalog failure removes the partial catalog
/// first); a failure to create the folder finishes with that failure.
pub proof fn every_failure_rolls_back(s: StagingState, e: StagingEvent)
    requires
        staging_accepts(s, e),
        e is Failed,
    ensures
        s.stage == StagingStage::CreatingChild ==> staging_step_spec(s, e).1 == StagingAction::Finished(
            Err(e->Failed_0),
        ),
        s.stage != StagingStage::CreatingChild ==> {
            &&& staging_step_spec(s, e).0.pending == Some(e->Failed_0)
            &&& match s.stage {
                StagingStage::DecodingCatalog | StagingStage::SealingCatalog => staging_step_spec(
                    s,
                    e,
                ).1 is RemoveCatalog,
                _ => staging_step_spec(s, e).1 == StagingAction::Rollback { inf_staged: s.inf_staged },
            }
        },
{
}

/// A decode that wrote other than the declared size is refused: for the
/// INF the staging folder is rolled back, for the catalog the partial
/// catalog is removed first, with the size mismatch pending.
pub proof fn a_short_or_long_decode_rolls_back(s: StagingState, w: u64)
    requires
        s.stage == StagingStage::DecodingInf || (s.stage == StagingStage::DecodingCatalog
            && s.catalog is Stage),
    ensures
        s.stage == StagingStage::DecodingInf && w != s.inf_size ==> {
            &&& staging_step_spec(s, StagingEvent::Decoded(w)).1 == StagingAction::Rollback {
                inf_staged: s.inf_staged,
            }
            &&& staging_step_spec(s, StagingEvent::Decoded(w)).0.pending == Some(
                ExtractionError::DecodedSizeMismatch { expected: s.inf_size, written: w },
            )
        },
        s.stage == StagingStage::DecodingCatalog && w != s.catalog->size ==> {
            &&& staging_step_spec(s, StagingEvent::Decoded(w)).1 is RemoveCatalog
            &&& staging_step_spec(s, StagingEvent::Decoded(w)).0.pending == Some(
                ExtractionError::DecodedSizeMismatch { expected: s.catalog->size, written: w },
            )
        },
{
}

/// A rollback finishes with the failure that caused it, unless the
/// rollback itself failed, which is then reported.
pub proof fn a_rollback_reports_its_cause(s: StagingState, r: Result<(), ExtractionError>)
    requires
        s.stage == StagingStage::RollingBack,
        s.pending is Some,
    ensures
        staging_step_spec(s, StagingEvent::RolledBack(r)).1 == StagingAction::Finished(
            Err(
                match r {
                    Ok(()) => s.pending->0,
                    Err(c) => c,
                },
            ),
        ),
{
}

} // verus!
