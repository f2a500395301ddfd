//! Digest-bound package population: what goes where in one owned package
//! tree, and how the outcome is reported.
//!
//! ```text
//! slot 0      <package-root>\<verified INF leaf>
//! slot 1      <package-root>\<verified catalog leaf>      when the package has one
//! slot 2..    <package-root>\<source_path>                payloads, inventory order
//! ```
//!
//! Creating, writing and sealing the files through retained Windows object
//! handles is I/O outside the library; the plan, the expected archive members
//! and the public file list are decided here. Success means only that the
//! tree holds the verified INF/catalog and the inventoried payloads; it never
//! means that a driver is trusted or installed.
use vstd::prelude::*;
use crate::drivers::sdio::extraction::{ExtractionError};
use crate::drivers::sdio::install_plan::{VerifiedDriverPackage};
use crate::drivers::sdio::package_tree::{plan_package_with_budget, plan_spec, state_of, str_seqs, PackagePlan, PackageTreeError, PlanRefusal, PlannedFile, MAX_PACKAGE_RETAINED_PATH_BYTES};
use crate::drivers::sdio::payload_inventory::{expected_member, expected_member_spec, PayloadInventoryEntry, PayloadInventoryError};
use crate::text::{owned};

verus! {

/// The plan slot of the verified INF.
pub const INF_SLOT: usize = 0;

/// Fail-closed reasons a populated package was not produced. `index` is the
/// payload's position in the input inventory.
#[derive(Debug, PartialEq, Eq)]
pub enum PackageMaterializationError {
    PlatformUnsupported,
    /// Re-attestation of the verified package failed (the reason's text).
    Attestation(String),
    InvalidPackagePath { relative_path: String },
    PathCollision { first: String, second: String },
    TooManyFiles,
    TooManyDirectories,
    RetainedPathBudgetExceeded,
    InvalidStagingRoot(String),
    PackRootCollision,
    PackChangedSinceInventory,
    /// The archive member the payload resolves to now is not spelled the way
    /// the inventory recorded it.
    InventoryStale { index: usize },
    /// The payload's size or SHA-256 is not the inventory's.
    PayloadDrift { index: usize },
    PayloadMemberMissing { index: usize },
    PayloadMemberAmbiguous { index: usize, matches: usize },
    SourceUnavailable { leaf: String },
    /// The archive or hashing layer refused; the original reason is kept.
    Archive(ExtractionError),
    /// An I/O failure (the error's text).
    Io(String),
    PackageChanged { relative_path: String },
    CleanupFailed(String),
    /// A failure after the package root existed whose rollback left residue.
    Rollback { cause: Box<PackageMaterializationError>, residue: String },
}

/// The materialization error for a package-tree error, variant for variant
/// (a filesystem refusal becomes an archive error).
pub open spec fn tree_error(e: PackageTreeError) -> PackageMaterializationError
    decreases e,
{
    match e {
        PackageTreeError::PlatformUnsupported => PackageMaterializationError::PlatformUnsupported,
        PackageTreeError::InvalidPackagePath { relative_path } =>
            PackageMaterializationError::InvalidPackagePath { relative_path },
        PackageTreeError::PathCollision { first, second } =>
            PackageMaterializationError::PathCollision { first, second },
        PackageTreeError::TooManyFiles => PackageMaterializationError::TooManyFiles,
        PackageTreeError::TooManyDirectories => PackageMaterializationError::TooManyDirectories,
        PackageTreeError::RetainedPathBudgetExceeded =>
            PackageMaterializationError::RetainedPathBudgetExceeded,
        PackageTreeError::InvalidStagingRoot(s) => PackageMaterializationError::InvalidStagingRoot(s),
        PackageTreeError::PackRootCollision => PackageMaterializationError::PackRootCollision,
        PackageTreeError::Filesystem(x) => PackageMaterializationError::Archive(x),
        PackageTreeError::Io(s) => PackageMaterializationError::Io(s),
        PackageTreeError::PackageChanged { relative_path } =>
            PackageMaterializationError::PackageChanged { relative_path },
        PackageTreeError::CleanupFailed(s) => PackageMaterializationError::CleanupFailed(s),
        PackageTreeError::Rollback { cause, residue } => PackageMaterializationError::Rollback {
            cause: Box::new(tree_error(*cause)),
            residue,
        },
    }
}

/// A package-tree error as a materialization error.
pub fn from_package_tree_error(e: PackageTreeError) -> (r: PackageMaterializationError)
    ensures
        r == tree_error(e),
    decreases e,
{
    match e {
        PackageTreeError::PlatformUnsupported => PackageMaterializationError::PlatformUnsupported,
        PackageTreeError::InvalidPackagePath { relative_path } =>
            PackageMaterializationError::InvalidPackagePath { relative_path },
        PackageTreeError::PathCollision { first, second } =>
            PackageMaterializationError::PathCollision { first, second },
        PackageTreeError::TooManyFiles => PackageMaterializationError::TooManyFiles,
        PackageTreeError::TooManyDirectories => PackageMaterializationError::TooManyDirectories,
        PackageTreeError::RetainedPathBudgetExceeded =>
            PackageMaterializationError::RetainedPathBudgetExceeded,
        PackageTreeError::InvalidStagingRoot(s) => PackageMaterializationError::InvalidStagingRoot(s),
        PackageTreeError::PackRootCollision => PackageMaterializationError::PackRootCollision,
        PackageTreeError::Filesystem(x) => PackageMaterializationError::Archive(x),
        PackageTreeError::Io(s) => PackageMaterializationError::Io(s),
        PackageTreeError::PackageChanged { relative_path } =>
            PackageMaterializationError::PackageChanged { relative_path },
        PackageTreeError::CleanupFailed(s) => PackageMaterializationError::CleanupFailed(s),
        PackageTreeError::Rollback { cause, residue } => {
            let inner = from_package_tree_error(*cause);
            PackageMaterializationError::Rollback { cause: Box::new(inner), residue }
        },
    }
}

/// `cause`, or `cause` together with the residue a failed rollback left.
pub fn rolled_back(cause: PackageMaterializationError, residue: Option<String>) -> (r:
    PackageMaterializationError)
    ensures
        match residue {
            None => r == cause,
            Some(s) => r == PackageMaterializationError::Rollback { cause: Box::new(cause), residue: s },
        },
{
    match residue {
        None => cause,
        Some(residue) => PackageMaterializationError::Rollback { cause: Box::new(cause), residue },
    }
}

/// What a materialized file is.
#[derive(Debug, Clone, Copy, PartialEq, Eq, Structural)]
pub enum MaterializedPackageFileKind {
    Inf,
    Catalog,
    Payload,
}

/// The kind of the file in `slot` when payloads start at `first_payload`.
pub open spec fn kind_of_slot(slot: int, first_payload: int) -> MaterializedPackageFileKind {
    if slot == INF_SLOT {
        MaterializedPackageFileKind::Inf
    } else if slot < first_payload {
        MaterializedPackageFileKind::Catalog
    } else {
        MaterializedPackageFileKind::Payload
    }
}

/// Read-only metadata for one file in the tree: its package-relative path,
/// kind, exact length and the SHA-256 it is held to. Content identity only,
/// never trust.
#[derive(Debug, Clone, PartialEq, Eq)]
pub struct MaterializedPackageFile {
    relative_path: String,
    kind: MaterializedPackageFileKind,
    size_bytes: u64,
    sha256: [u8; 32],
}

impl MaterializedPackageFile {
    pub closed spec fn relative_path_spec(&self) -> Seq<char> {
        self.relative_path@
    }

    pub closed spec fn kind_spec(&self) -> MaterializedPackageFileKind {
        self.kind
    }

    pub closed spec fn size_spec(&self) -> u64 {
        self.size_bytes
    }

    pub closed spec fn sha256_spec(&self) -> [u8; 32] {
        self.sha256
    }

    pub fn relative_path(&self) -> (r: &str)
        ensures
            r@ == self.relative_path_spec(),
    {
        self.relative_path.as_str()
    }

    pub fn kind(&self) -> (r: MaterializedPackageFileKind)
        ensures
            r == self.kind_spec(),
    {
        self.kind
    }

    pub fn size_bytes(&self) -> (r: u64)
        ensures
            r == self.size_spec(),
    {
        self.size_bytes
    }

    pub fn sha256(&self) -> (r: &[u8; 32])
        ensures
            *r == self.sha256_spec(),
    {
        &self.sha256
    }
}

/// The sealed baseline of slot `i`, if the tree recorded one.
pub open spec fn baseline_at(bs: Seq<Option<(u64, [u8; 32])>>, i: int) -> Option<(u64, [u8; 32])> {
    if 0 <= i < bs.len() {
        bs[i]
    } else {
        None
    }
}

/// The public file list from the planned files and the tree's sealed
/// baselines (slot by slot). A slot without a baseline was never completely
/// populated, which is no success: the first such slot is reported changed.
pub fn public_files(
    files: &[PlannedFile],
    baselines: &[Option<(u64, [u8; 32])>],
    first_payload: usize,
) -> (r: Result<Vec<MaterializedPackageFile>, PackageMaterializationError>)
    ensures
        r is Ok <==> forall|i: int| 0 <= i < files@.len() ==> #[trigger] baseline_at(baselines@, i) is Some,
        r matches Err(e) ==> exists|i: int|
            0 <= i < files@.len() && baseline_at(baselines@, i) is None && (forall|j: int|
                0 <= j < i ==> #[trigger] baseline_at(baselines@, j) is Some) && (e matches PackageMaterializationError::PackageChanged { relative_path }
                && relative_path@ == files@[i].rel@),
        r matches Ok(v) ==> v@.len() == files@.len() && forall|i: int|
            0 <= i < v@.len() ==> {
                &&& (#[trigger] v@[i]).relative_path_spec() == files@[i].rel@
                &&& v@[i].kind_spec() == kind_of_slot(i, first_payload as int)
                &&& baseline_at(baselines@, i) == Some((v@[i].size_spec(), v@[i].sha256_spec()))
            },
{
    let mut out: Vec<MaterializedPackageFile> = Vec::new();
    let mut slot: usize = 0;
    while slot < files.len()
        invariant
            slot <= files@.len(),
            out@.len() == slot,
            forall|j: int| 0 <= j < slot ==> #[trigger] baseline_at(baselines@, j) is Some,
            forall|i: int|
                0 <= i < slot ==> {
                    &&& (#[trigger] out@[i]).relative_path_spec() == files@[i].rel@
                    &&& out@[i].kind_spec() == kind_of_slot(i, first_payload as int)
                    &&& baseline_at(baselines@, i) == Some((out@[i].size_spec(), out@[i].sha256_spec()))
                },
        decreases files.len() - slot,
    {
        let pf = &files[slot];
        let base = if slot < baselines.len() {
            baselines[slot]
        } else {
            None
        };
        let (size_bytes, sha256) = match base {
            None => {
                proof {
                    assert(baseline_at(baselines@, slot as int) is None);
                }
                return Err(
                    PackageMaterializationError::PackageChanged { relative_path: pf.rel.clone() },
                );
            },
            Some(b) => b,
        };
        proof {
            assert(baseline_at(baselines@, slot as int) == Some((size_bytes, sha256)));
        }
        let kind = if slot == INF_SLOT {
            MaterializedPackageFileKind::Inf
        } else if slot < first_payload {
            MaterializedPackageFileKind::Catalog
        } else {
            MaterializedPackageFileKind::Payload
        };
        out.push(MaterializedPackageFile { relative_path: pf.rel.clone(), kind, size_bytes, sha256 });
        slot = slot + 1;
    }
    Ok(out)
}

/// What the population of one package works from: the tree plan, the
/// expected archive member of every payload, and the first payload slot.
pub struct MaterializationPlan {
    pub plan: PackagePlan,
    pub expected: Vec<String>,
    pub first_payload: usize,
}

/// The root leaves: the INF, then the catalog when the package has one.
pub open spec fn root_leaves_of(inf_leaf: Seq<char>, verified: VerifiedDriverPackage) -> Seq<Seq<char>> {
    match verified.expected_catalog_leaf {
        Some(c) => seq![inf_leaf, c@],
        None => seq![inf_leaf],
    }
}

/// The payload source paths, in inventory order.
pub open spec fn source_paths_of(entries: Seq<PayloadInventoryEntry>) -> Seq<Seq<char>> {
    entries.map_values(|e: PayloadInventoryEntry| e.source_spec())
}

/// A plan refusal reported as a materialization error.
pub open spec fn materialization_refusal_is(e: PackageMaterializationError, r: PlanRefusal) -> bool {
    match r {
        PlanRefusal::TooManyFiles => e == PackageMaterializationError::TooManyFiles,
        PlanRefusal::InvalidPath(p) => e matches PackageMaterializationError::InvalidPackagePath {
            relative_path,
        } && relative_path@ == p,
        PlanRefusal::Collision(a, b) => e matches PackageMaterializationError::PathCollision {
            first,
            second,
        } && first@ == a && second@ == b,
        PlanRefusal::TooManyDirectories => e == PackageMaterializationError::TooManyDirectories,
        PlanRefusal::BudgetExceeded => e == PackageMaterializationError::RetainedPathBudgetExceeded,
    }
}

/// Plan the population of one package: the tree for the INF leaf, the
/// catalog leaf and the payload source paths, then the archive member every
/// payload must decode from. `inf_leaf` is the final component of the
/// verified INF's path (`None` when it has none).
#[verifier::loop_isolation(false)]
pub fn plan_materialization(
    inf_leaf: Option<&str>,
    verified: &VerifiedDriverPackage,
    entries: &[PayloadInventoryEntry],
) -> (r: Result<MaterializationPlan, PackageMaterializationError>)
    ensures
        inf_leaf is None ==> (r matches Err(PackageMaterializationError::SourceUnavailable { leaf })
            && leaf@ == "<inf>"@),
        inf_leaf matches Some(l) ==> {
            let leaves = root_leaves_of(l@, *verified);
            let paths = source_paths_of(entries@);
            match plan_spec(leaves, paths, MAX_PACKAGE_RETAINED_PATH_BYTES as nat) {
                Err(refusal) => r matches Err(x) && materialization_refusal_is(x, refusal),
                Ok(s) => {
                    &&& r matches Err(x) ==> (exists|i: int|
                        0 <= i < paths.len() && expected_member_spec(
                            i as usize,
                            verified.expected_archive_member@,
                            paths[i],
                        ) is Err && (forall|j: int|
                            0 <= j < i ==> expected_member_spec(
                                j as usize,
                                verified.expected_archive_member@,
                                #[trigger] paths[j],
                            ) is Ok) && (x matches PackageMaterializationError::InvalidPackagePath {
                            relative_path,
                        } && relative_path@ == paths[i]))
                    &&& r matches Ok(m) ==> {
                        &&& state_of(m.plan.dirs@, m.plan.files@, s.retained) == s
                        &&& m.first_payload == leaves.len()
                        &&& m.expected@.len() == paths.len()
                        &&& forall|i: int|
                            0 <= i < paths.len() ==> expected_member_spec(
                                i as usize,
                                verified.expected_archive_member@,
                                paths[i],
                            ) == Ok::<Seq<char>, PayloadInventoryError>((#[trigger] m.expected@[i])@)
                    }
                    &&& r is Ok <==> forall|i: int|
                        0 <= i < paths.len() ==> expected_member_spec(
                            i as usize,
                            verified.expected_archive_member@,
                            #[trigger] paths[i],
                        ) is Ok
                },
            }
        },
{
    let leaf = match inf_leaf {
        None => {
            return Err(PackageMaterializationError::SourceUnavailable { leaf: owned("<inf>") });
        },
        Some(l) => l,
    };
    let mut root_leaves: Vec<&str> = Vec::new();
    root_leaves.push(leaf);
    match &verified.expected_catalog_leaf {
        Some(c) => {
            root_leaves.push(c.as_str());
        },
        None => {},
    }
    proof {
        assert(str_seqs(root_leaves@) =~= root_leaves_of(leaf@, *verified));
    }
    let mut paths: Vec<&str> = Vec::new();
    let mut i: usize = 0;
    while i < entries.len()
        invariant
            i <= entries@.len(),
            str_seqs(paths@) == source_paths_of(entries@).take(i as int),
        decreases entries.len() - i,
    {
        let ghost before = paths@;
        paths.push(entries[i].source_path());
        proof {
            assert(str_seqs(paths@) =~= str_seqs(before).push(entries@[i as int].source_spec()));
            assert(source_paths_of(entries@).take(i + 1) =~= source_paths_of(entries@).take(
                i as int,
            ).push(entries@[i as int].source_spec()));
        }
        i = i + 1;
    }
    proof {
        assert(source_paths_of(entries@).take(i as int) =~= source_paths_of(entries@));
    }
    let plan = match plan_package_with_budget(
        root_leaves.as_slice(),
        paths.as_slice(),
        MAX_PACKAGE_RETAINED_PATH_BYTES,
    ) {
        Err(e) => {
            return Err(from_package_tree_error(e));
        },
        Ok(p) => p,
    };
    let ghost ps = source_paths_of(entries@);
    let mut expected: Vec<String> = Vec::new();
    let mut k: usize = 0;
    while k < entries.len()
        invariant
            k <= entries@.len(),
            ps == source_paths_of(entries@),
            expected@.len() == k,
            forall|j: int|
                0 <= j < k ==> expected_member_spec(
                    j as usize,
                    verified.expected_archive_member@,
                    ps[j],
                ) == Ok::<Seq<char>, PayloadInventoryError>((#[trigger] expected@[j])@),
        decreases entries.len() - k,
    {
        let src = entries[k].source_path();
        proof {
            assert(ps[k as int] == src@);
        }
        match expected_member(k, verified.expected_archive_member(), src) {
            Err(_) => {
                proof {
                    assert forall|j: int| 0 <= j < k implies expected_member_spec(
                        j as usize,
                        verified.expected_archive_member@,
                        #[trigger] ps[j],
                    ) is Ok by {
                        assert(expected@[j]@ == expected@[j]@);
                    }
                    assert(expected_member_spec(k, verified.expected_archive_member@, ps[k as int])
                        is Err);
                }
                return Err(
                    PackageMaterializationError::InvalidPackagePath { relative_path: owned(src) },
                );
            },
            Ok(m) => {
                expected.push(m);
            },
        }
        k = k + 1;
    }
    let first_payload = root_leaves.len();
    proof {
        let leaves = root_leaves_of(leaf@, *verified);
        assert(str_seqs(root_leaves@).len() == root_leaves@.len());
        assert(first_payload == leaves.len());
        assert(str_seqs(paths@) == ps);
        assert(expected@.len() == ps.len());
        assert forall|i: int| 0 <= i < ps.len() implies expected_member_spec(
            i as usize,
            verified.expected_archive_member@,
            #[trigger] ps[i],
        ) is Ok by {
            assert(expected@[i]@ == expected@[i]@);
        }
    }
    Ok(MaterializationPlan { plan, expected, first_payload })
}

} // verus!
