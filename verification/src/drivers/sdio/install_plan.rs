//! Read-only install plan: which assessed candidates a later privileged
//! install step would be permitted to attempt.
//!
//! A plan is a typed description, never a command, an execution or a
//! success claim. An entry is produced only for a candidate assessed
//! `HostCompatible` whose package passed the trust gate and whose pack,
//! resolved under the drivers root, is that same package. The applicability
//! evidence is kept as assessed.
use vstd::prelude::*;
use crate::text::{append_str, chars_of, concat2, dec, dec_u64, eq_ic, lemma_split_first, owned, pieces, split_char, split_vec, str_eq, str_eq_ignore_case, string_of};
use crate::drivers::sdio::applicability::{ApplicabilityReason, AssessedCatalogCandidate, AssessedDeviceMatches, CatalogOsApplicability, TargetArch, TargetOsDecoration, copy_match};
use crate::drivers::sdio::catalog::{clone_opt};
use crate::drivers::sdio::local_pack::{ChildProbe, LocalPackAvailability, LocalPackError, RootProbe, resolution_is, resolve_assessed_pack};
use crate::drivers::sdio::matching::{CatalogCandidateMatch, MatchView};

verus! {

/// Why a candidate did not produce a ready install entry. Anything here
/// means the candidate must not be installed.
#[derive(Debug, Clone, Copy, PartialEq, Eq)]
pub enum PlanBlockReason {
    /// The candidate is excluded from this host.
    HostIncompatible(&'static str),
    /// Applicability could not be proved.
    Indeterminate(&'static str),
    /// The trust gate did not verify the package.
    Unverified,
    /// The verified package is not the package the candidate resolves to.
    IdentityMismatch,
    /// The inputs do not belong together.
    InconsistentInputs,
}

impl PlanBlockReason {
    /// The human-readable description of the reason.
    pub fn message(&self) -> (r: String)
        ensures
            r@ == match *self {
                PlanBlockReason::HostIncompatible(d) => "candidate is not applicable to this host: "@
                    + d@,
                PlanBlockReason::Indeterminate(d) => "candidate applicability is indeterminate: "@
                    + d@,
                PlanBlockReason::Unverified => "Windows trust gate did not verify the package"@,
                PlanBlockReason::IdentityMismatch => "verified package identity does not match the candidate"@,
                PlanBlockReason::InconsistentInputs => "install-plan builder received inconsistent inputs"@,
            },
    {
        match self {
            PlanBlockReason::HostIncompatible(d) => concat2(
                "candidate is not applicable to this host: ",
                d,
            ),
            PlanBlockReason::Indeterminate(d) => concat2(
                "candidate applicability is indeterminate: ",
                d,
            ),
            PlanBlockReason::Unverified => owned("Windows trust gate did not verify the package"),
            PlanBlockReason::IdentityMismatch => owned(
                "verified package identity does not match the candidate",
            ),
            PlanBlockReason::InconsistentInputs => owned(
                "install-plan builder received inconsistent inputs",
            ),
        }
    }
}

/// The identity of a driver package that passed the trust gate: where its
/// pack is, which INF member was staged and verified, and what Windows
/// reported of its catalog and signer.
pub struct VerifiedDriverPackage {
    /// Canonical path of the pack the INF was staged from.
    pub pack_archive_path: String,
    pub pack_name: String,
    /// The complete archive member path of the verified INF.
    pub expected_archive_member: String,
    /// Leaf name of the catalog member staged with the INF, if any.
    pub expected_catalog_leaf: Option<String>,
    /// Where the verified INF is on disk.
    pub inf_path: String,
    /// The catalog Windows chose for the package.
    pub catalog_name: String,
    /// The signer display string, if Windows supplied one.
    pub signer: Option<String>,
}

impl VerifiedDriverPackage {
    pub fn pack_archive_path(&self) -> (r: &str)
        ensures
            r@ == self.pack_archive_path@,
    {
        self.pack_archive_path.as_str()
    }

    pub fn pack_name(&self) -> (r: &str)
        ensures
            r@ == self.pack_name@,
    {
        self.pack_name.as_str()
    }

    pub fn expected_archive_member(&self) -> (r: &str)
        ensures
            r@ == self.expected_archive_member@,
    {
        self.expected_archive_member.as_str()
    }

    pub fn inf_path(&self) -> (r: &str)
        ensures
            r@ == self.inf_path@,
    {
        self.inf_path.as_str()
    }

    pub fn catalog_name(&self) -> (r: &str)
        ensures
            r@ == self.catalog_name@,
    {
        self.catalog_name.as_str()
    }

    pub fn signer(&self) -> (r: Option<&str>)
        ensures
            match self.signer {
                Some(s) => r matches Some(x) && x@ == s@,
                None => r is None,
            },
    {
        match &self.signer {
            Some(s) => Some(s.as_str()),
            None => None,
        }
    }
}

/// The target device of a plan: its instance ID, never derived from
/// hardware IDs.
#[derive(Debug, Clone, PartialEq, Eq)]
pub struct TargetDeviceRef {
    pub instance_id: String,
}

/// The applicability evidence a plan entry carries, copied verbatim.
#[derive(Debug, Clone, PartialEq, Eq)]
pub struct CatalogApplicabilityEvidenceRef {
    pub status: CatalogOsApplicability,
    /// The reason, by its variant name.
    pub reason_code: String,
    pub models_section: Option<String>,
    /// The parsed target decoration in its debug spelling.
    pub target: Option<String>,
}

// ---------------------------------------------------------------------------
// Debug spellings of the carried evidence
// ---------------------------------------------------------------------------

pub open spec fn reason_name(r: ApplicabilityReason) -> Seq<char> {
    match r {
        ApplicabilityReason::TargetSatisfied => "TargetSatisfied"@,
        ApplicabilityReason::ArchitectureMismatch => "ArchitectureMismatch"@,
        ApplicabilityReason::OsVersionTooOld => "OsVersionTooOld"@,
        ApplicabilityReason::BuildTooOld => "BuildTooOld"@,
        ApplicabilityReason::ProductTypeUnavailable => "ProductTypeUnavailable"@,
        ApplicabilityReason::SuiteMaskUnavailable => "SuiteMaskUnavailable"@,
        ApplicabilityReason::MissingTargetMetadata => "MissingTargetMetadata"@,
        ApplicabilityReason::UnsupportedTargetSyntax => "UnsupportedTargetSyntax"@,
        ApplicabilityReason::UnknownHostArchitecture => "UnknownHostArchitecture"@,
    }
}

pub open spec fn arch_name(a: TargetArch) -> Seq<char> {
    match a {
        TargetArch::X86 => "X86"@,
        TargetArch::Ia64 => "Ia64"@,
        TargetArch::Amd64 => "Amd64"@,
        TargetArch::Arm => "Arm"@,
        TargetArch::Arm64 => "Arm64"@,
    }
}

pub open spec fn opt_u32_text(o: Option<u32>) -> Seq<char> {
    match o {
        Some(n) => "Some("@ + dec(n as nat) + ")"@,
        None => "None"@,
    }
}

pub open spec fn opt_arch_text(o: Option<TargetArch>) -> Seq<char> {
    match o {
        Some(a) => "Some("@ + arch_name(a) + ")"@,
        None => "None"@,
    }
}

/// `{:?}` of a target decoration.
pub open spec fn target_text(t: TargetOsDecoration) -> Seq<char> {
    "TargetOsDecoration { architecture: "@ + opt_arch_text(t.architecture) + ", major: "@
        + opt_u32_text(t.major) + ", minor: "@ + opt_u32_text(t.minor) + ", product_type: "@
        + opt_u32_text(t.product_type) + ", suite_mask: "@ + opt_u32_text(t.suite_mask)
        + ", build: "@ + opt_u32_text(t.build) + " }"@
}

fn reason_code_of(r: ApplicabilityReason) -> (s: String)
    ensures
        s@ == reason_name(r),
{
    match r {
        ApplicabilityReason::TargetSatisfied => owned("TargetSatisfied"),
        ApplicabilityReason::ArchitectureMismatch => owned("ArchitectureMismatch"),
        ApplicabilityReason::OsVersionTooOld => owned("OsVersionTooOld"),
        ApplicabilityReason::BuildTooOld => owned("BuildTooOld"),
        ApplicabilityReason::ProductTypeUnavailable => owned("ProductTypeUnavailable"),
        ApplicabilityReason::SuiteMaskUnavailable => owned("SuiteMaskUnavailable"),
        ApplicabilityReason::MissingTargetMetadata => owned("MissingTargetMetadata"),
        ApplicabilityReason::UnsupportedTargetSyntax => owned("UnsupportedTargetSyntax"),
        ApplicabilityReason::UnknownHostArchitecture => owned("UnknownHostArchitecture"),
    }
}

fn push_opt_u32(v: &mut Vec<char>, o: Option<u32>)
    ensures
        final(v)@ == old(v)@ + opt_u32_text(o),
{
    match o {
        Some(n) => {
            append_str(v, "Some(");
            let d = dec_u64(n as u64);
            append_str(v, d.as_str());
            append_str(v, ")");
        },
        None => {
            append_str(v, "None");
        },
    }
}

fn push_opt_arch(v: &mut Vec<char>, o: Option<TargetArch>)
    ensures
        final(v)@ == old(v)@ + opt_arch_text(o),
{
    match o {
        Some(a) => {
            append_str(v, "Some(");
            let name = match a {
                TargetArch::X86 => "X86",
                TargetArch::Ia64 => "Ia64",
                TargetArch::Amd64 => "Amd64",
                TargetArch::Arm => "Arm",
                TargetArch::Arm64 => "Arm64",
            };
            append_str(v, name);
            append_str(v, ")");
        },
        None => {
            append_str(v, "None");
        },
    }
}

fn target_text_of(t: &TargetOsDecoration) -> (s: String)
    ensures
        s@ == target_text(*t),
{
    let mut v: Vec<char> = Vec::new();
    append_str(&mut v, "TargetOsDecoration { architecture: ");
    push_opt_arch(&mut v, t.architecture);
    append_str(&mut v, ", major: ");
    push_opt_u32(&mut v, t.major);
    append_str(&mut v, ", minor: ");
    push_opt_u32(&mut v, t.minor);
    append_str(&mut v, ", product_type: ");
    push_opt_u32(&mut v, t.product_type);
    append_str(&mut v, ", suite_mask: ");
    push_opt_u32(&mut v, t.suite_mask);
    append_str(&mut v, ", build: ");
    push_opt_u32(&mut v, t.build);
    append_str(&mut v, " }");
    proof {
        assert(v@ =~= target_text(*t));
    }
    string_of(v.as_slice())
}

/// The evidence reference carried for an assessed candidate.
pub open spec fn evidence_ref_is(e: CatalogApplicabilityEvidenceRef, c: AssessedCatalogCandidate) -> bool {
    &&& e.status == c.os.status
    &&& e.reason_code@ == reason_name(c.os.reason)
    &&& e.models_section == c.os.models_section
    &&& match c.os.target {
        Some(t) => e.target matches Some(s) && s@ == target_text(t),
        None => e.target is None,
    }
}

fn evidence_ref(c: &AssessedCatalogCandidate) -> (r: CatalogApplicabilityEvidenceRef)
    ensures
        evidence_ref_is(r, *c),
{
    let target = match &c.os.target {
        Some(t) => Some(target_text_of(t)),
        None => None,
    };
    CatalogApplicabilityEvidenceRef {
        status: c.os.status,
        reason_code: reason_code_of(c.os.reason),
        models_section: clone_opt(&c.os.models_section),
        target,
    }
}

// ---------------------------------------------------------------------------
// Plan
// ---------------------------------------------------------------------------

/// One ready install entry. It borrows the verified package, so it cannot
/// outlive it.
pub struct InstallPlanEntry<'v> {
    target_device: TargetDeviceRef,
    candidate: CatalogCandidateMatch,
    applicability: CatalogApplicabilityEvidenceRef,
    verified: &'v VerifiedDriverPackage,
}

impl<'v> InstallPlanEntry<'v> {
    pub closed spec fn target_spec(&self) -> Seq<char> {
        self.target_device.instance_id@
    }

    pub closed spec fn candidate_spec(&self) -> MatchView {
        self.candidate@
    }

    pub closed spec fn applicability_spec(&self) -> CatalogApplicabilityEvidenceRef {
        self.applicability
    }

    pub closed spec fn verified_spec(&self) -> VerifiedDriverPackage {
        *self.verified
    }

    /// The target device-instance ID.
    pub fn target_device_instance_id(&self) -> (r: &str)
        ensures
            r@ == self.target_spec(),
    {
        self.target_device.instance_id.as_str()
    }

    /// The candidate's pack name.
    pub fn candidate_pack_name(&self) -> (r: &str)
        ensures
            r@ == self.candidate_spec().pack_name@,
    {
        self.candidate.pack_name.as_str()
    }

    /// The candidate's INF filename.
    pub fn candidate_inf_filename(&self) -> (r: &str)
        ensures
            r@ == self.candidate_spec().candidate.inf_filename@,
    {
        self.candidate.candidate.inf_filename.as_str()
    }

    /// Where the verified INF is on disk.
    pub fn verified_inf_path(&self) -> (r: &str)
        ensures
            r@ == self.verified_spec().inf_path@,
    {
        self.verified.inf_path()
    }

    /// The catalog Windows chose for the verified package.
    pub fn catalog_name(&self) -> (r: &str)
        ensures
            r@ == self.verified_spec().catalog_name@,
    {
        self.verified.catalog_name()
    }

    /// The signer display string, if Windows supplied one.
    pub fn signer(&self) -> (r: Option<&str>)
        ensures
            match self.verified_spec().signer {
                Some(s) => r matches Some(x) && x@ == s@,
                None => r is None,
            },
    {
        self.verified.signer()
    }

    /// The applicability status, as assessed.
    pub fn applicability_status(&self) -> (r: CatalogOsApplicability)
        ensures
            r == self.applicability_spec().status,
    {
        self.applicability.status
    }

    /// The verified package this entry borrows.
    pub fn verified_package(&self) -> (r: &'v VerifiedDriverPackage)
        ensures
            *r == self.verified_spec(),
    {
        self.verified
    }
}

/// The plan for one target device: its ready entries, in input order.
pub struct InstallPlan<'v> {
    target_device: TargetDeviceRef,
    ready: Vec<InstallPlanEntry<'v>>,
}

impl<'v> InstallPlan<'v> {
    pub closed spec fn target_spec(&self) -> Seq<char> {
        self.target_device.instance_id@
    }

    pub closed spec fn ready_spec(&self) -> Seq<InstallPlanEntry<'v>> {
        self.ready@
    }

    /// The ready entries, in input order.
    pub fn ready(&self) -> (r: &[InstallPlanEntry<'v>])
        ensures
            r@ == self.ready_spec(),
    {
        self.ready.as_slice()
    }

    /// The target device-instance ID.
    pub fn target_device_instance_id(&self) -> (r: &str)
        ensures
            r@ == self.target_spec(),
    {
        self.target_device.instance_id.as_str()
    }
}

// ---------------------------------------------------------------------------
// Builder
// ---------------------------------------------------------------------------

/// The last `/`-separated part of an archive member path.
pub open spec fn member_leaf(m: Seq<char>) -> Seq<char> {
    let parts = split_char(m, '/');
    parts.last()
}

/// Catalog provenance agrees: both absent, or both present with leaves
/// equal up to ASCII case.
pub open spec fn catalogs_agree(candidate_catalog: Option<String>, verified_leaf: Option<String>) -> bool {
    match (candidate_catalog, verified_leaf) {
        (None, None) => true,
        (Some(a), Some(b)) => eq_ic(member_leaf(a@), b@),
        _ => false,
    }
}

/// The resolved package is exactly the verified one: same canonical pack
/// path, same pack name, same complete INF member, same catalog.
pub open spec fn identity_matches(
    res: Result<LocalPackAvailability, LocalPackError>,
    c: AssessedCatalogCandidate,
    v: VerifiedDriverPackage,
) -> bool {
    &&& res matches Ok(LocalPackAvailability::Present(req))
    &&& req.pack_spec().archive_path_spec() == v.pack_archive_path@
    &&& req.pack_spec().pack_name_spec() == v.pack_name@
    &&& req.inf_spec().path_spec() == v.expected_archive_member@
    &&& catalogs_agree(c.matched.candidate.catalog_file, v.expected_catalog_leaf)
}

/// The entry built for candidate `c` of `device` with package `v`.
pub open spec fn entry_is(
    e: InstallPlanEntry,
    device: AssessedDeviceMatches,
    c: AssessedCatalogCandidate,
    v: VerifiedDriverPackage,
) -> bool {
    &&& e.target_spec() == device.instance_id@
    &&& e.candidate_spec() == c.matched@
    &&& evidence_ref_is(e.applicability_spec(), c)
    &&& e.verified_spec() == v
}

/// Whether request `q` (candidate index, verified package, pack probe)
/// builds an entry for `device`: the device is named, the index is one of
/// its candidates, the candidate is `HostCompatible` with a verified
/// package, and the pack it resolves to under `root` is that package.
pub open spec fn request_builds(
    device: AssessedDeviceMatches,
    root: RootProbe,
    host: bool,
    q: (usize, Option<&VerifiedDriverPackage>, ChildProbe),
) -> bool {
    &&& device.instance_id@.len() > 0
    &&& q.0 < device.candidates@.len()
    &&& device.candidates@[q.0 as int].os.status == CatalogOsApplicability::HostCompatible
    &&& q.1 is Some
    &&& exists|res: Result<LocalPackAvailability, LocalPackError>|
        #[trigger] resolution_is(
            res,
            root,
            device.candidates@[q.0 as int].matched.pack_name@,
            device.candidates@[q.0 as int].matched.candidate.inf_path@,
            device.candidates@[q.0 as int].matched.candidate.inf_filename@,
            q.2,
            host,
        ) && identity_matches(res, device.candidates@[q.0 as int], *q.1->0)
}

/// The positions, in order, of the requests that build an entry.
pub open spec fn ready_indices(
    device: AssessedDeviceMatches,
    root: RootProbe,
    host: bool,
    requests: Seq<(usize, Option<&VerifiedDriverPackage>, ChildProbe)>,
) -> Seq<int>
    decreases requests.len(),
{
    if requests.len() == 0 {
        Seq::empty()
    } else {
        let before = ready_indices(device, root, host, requests.drop_last());
        if request_builds(device, root, host, requests.last()) {
            before.push(requests.len() - 1)
        } else {
            before
        }
    }
}

/// Every position `ready_indices` lists is a position of `requests`, and
/// the positions ascend.
pub proof fn lemma_ready_indices_bounds(
    device: AssessedDeviceMatches,
    root: RootProbe,
    host: bool,
    requests: Seq<(usize, Option<&VerifiedDriverPackage>, ChildProbe)>,
)
    ensures
        ready_indices(device, root, host, requests).len() <= requests.len(),
        forall|k: int|
            0 <= k < ready_indices(device, root, host, requests).len() ==> 0 <= #[trigger] ready_indices(
                device,
                root,
                host,
                requests,
            )[k] < requests.len(),
        forall|k: int, l: int|
            0 <= k < l < ready_indices(device, root, host, requests).len() ==> #[trigger] ready_indices(
                device,
                root,
                host,
                requests,
            )[k] < #[trigger] ready_indices(device, root, host, requests)[l],
    decreases requests.len(),
{
    if requests.len() > 0 {
        lemma_ready_indices_bounds(device, root, host, requests.drop_last());
    }
}

/// Two resolutions of the same candidate under the same probes agree on
/// whether they reach the verified package.
proof fn lemma_identity_is_determined(
    r1: Result<LocalPackAvailability, LocalPackError>,
    r2: Result<LocalPackAvailability, LocalPackError>,
    root: RootProbe,
    c: AssessedCatalogCandidate,
    child: ChildProbe,
    host: bool,
    v: VerifiedDriverPackage,
)
    requires
        resolution_is(
            r1,
            root,
            c.matched.pack_name@,
            c.matched.candidate.inf_path@,
            c.matched.candidate.inf_filename@,
            child,
            host,
        ),
        resolution_is(
            r2,
            root,
            c.matched.pack_name@,
            c.matched.candidate.inf_path@,
            c.matched.candidate.inf_filename@,
            child,
            host,
        ),
    ensures
        identity_matches(r1, c, v) == identity_matches(r2, c, v),
{
}

/// Builds install entries for one device's assessed candidates, resolving
/// each against the probed drivers root.
pub struct InstallPlanBuilder<'a> {
    device: &'a AssessedDeviceMatches,
    root: RootProbe,
    case_insensitive_host: bool,
}

impl<'a> InstallPlanBuilder<'a> {
    pub closed spec fn device_spec(&self) -> AssessedDeviceMatches {
        *self.device
    }

    pub closed spec fn root_spec(&self) -> RootProbe {
        self.root
    }

    pub closed spec fn host_spec(&self) -> bool {
        self.case_insensitive_host
    }

    /// A builder bound to one device's assessment and to the drivers root
    /// its candidates resolve against (as probed on this host).
    pub fn new(device: &'a AssessedDeviceMatches, root: RootProbe, case_insensitive_host: bool) -> (r:
        Self)
        ensures
            r.device_spec() == *device,
            r.root_spec() == root,
            r.host_spec() == case_insensitive_host,
    {
        InstallPlanBuilder { device, root, case_insensitive_host }
    }

    /// The device-instance ID this builder is bound to.
    pub fn device_instance_id(&self) -> (r: &str)
        ensures
            r@ == self.device_spec().instance_id@,
    {
        self.device.instance_id.as_str()
    }

    /// Build the entry for the device's candidate at `index`, with the
    /// package the trust gate verified for it (if any) and the probe of its
    /// pack file. The device must be named and the index must be one of its
    /// candidates; only a `HostCompatible` candidate with a verified package
    /// can produce an entry, and only when the package it resolves to is
    /// the verified one.
    pub fn build<'v>(
        &self,
        index: usize,
        verified: Option<&'v VerifiedDriverPackage>,
        child: &ChildProbe,
    ) -> (r: Result<Option<InstallPlanEntry<'v>>, PlanBlockReason>)
        ensures
            (r matches Ok(Some(_))) == request_builds(
                self.device_spec(),
                self.root_spec(),
                self.host_spec(),
                (index, verified, *child),
            ),
            r matches Ok(Some(e)) ==> {
                &&& e.applicability_spec().status == CatalogOsApplicability::HostCompatible
                &&& e.target_spec() == self.device_spec().instance_id@
                &&& verified matches Some(v) && e.verified_spec() == *v
            },
            ({
                let d = self.device_spec();
                if d.instance_id@.len() == 0 || index >= d.candidates@.len() {
                    r == Err::<Option<InstallPlanEntry<'v>>, PlanBlockReason>(
                        PlanBlockReason::InconsistentInputs,
                    )
                } else {
                    let c = d.candidates@[index as int];
                    if c.os.status != CatalogOsApplicability::HostCompatible || verified is None {
                        r matches Ok(None)
                    } else {
                        exists|res: Result<LocalPackAvailability, LocalPackError>|
                            {
                                &&& resolution_is(
                                    res,
                                    self.root_spec(),
                                    c.matched.pack_name@,
                                    c.matched.candidate.inf_path@,
                                    c.matched.candidate.inf_filename@,
                                    *child,
                                    self.host_spec(),
                                )
                                &&& if identity_matches(res, c, *verified->0) {
                                    r matches Ok(Some(e)) && entry_is(e, d, c, *verified->0)
                                } else {
                                    r == Err::<Option<InstallPlanEntry<'v>>, PlanBlockReason>(
                                        PlanBlockReason::IdentityMismatch,
                                    )
                                }
                            }
                    }
                }
            }),
    {
        if chars_of(self.device.instance_id.as_str()).len() == 0 {
            return Err(PlanBlockReason::InconsistentInputs);
        }
        if index >= self.device.candidates.len() {
            return Err(PlanBlockReason::InconsistentInputs);
        }
        let c = &self.device.candidates[index];
        if c.os.status != CatalogOsApplicability::HostCompatible {
            return Ok(None);
        }
        let v = match verified {
            Some(v) => v,
            None => return Ok(None),
        };
        let res = resolve_assessed_pack(&self.root, c, child, self.case_insensitive_host);
        proof {
            assert(resolution_is(
                res,
                self.root_spec(),
                c.matched.pack_name@,
                c.matched.candidate.inf_path@,
                c.matched.candidate.inf_filename@,
                *child,
                self.host_spec(),
            ));
            assert forall|r2: Result<LocalPackAvailability, LocalPackError>|
                #[trigger] resolution_is(
                    r2,
                    self.root_spec(),
                    c.matched.pack_name@,
                    c.matched.candidate.inf_path@,
                    c.matched.candidate.inf_filename@,
                    *child,
                    self.host_spec(),
                ) implies identity_matches(r2, *c, *v) == identity_matches(res, *c, *v) by {
                lemma_identity_is_determined(r2, res, self.root_spec(), *c, *child, self.host_spec(), *v);
            }
        }
        let req = match &res {
            Ok(LocalPackAvailability::Present(req)) => req,
            _ => {
                proof {
                    assert(!identity_matches(res, *c, *v));
                }
                return Err(PlanBlockReason::IdentityMismatch);
            },
        };
        if !str_eq(req.pack().archive_path(), v.pack_archive_path()) {
            proof {
                assert(!identity_matches(res, *c, *v));
            }
            return Err(PlanBlockReason::IdentityMismatch);
        }
        if !str_eq(req.pack().pack_name(), v.pack_name()) {
            return Err(PlanBlockReason::IdentityMismatch);
        }
        if !str_eq(req.inf().relative_path(), v.expected_archive_member()) {
            return Err(PlanBlockReason::IdentityMismatch);
        }
        let agree = match (&c.matched.candidate.catalog_file, &v.expected_catalog_leaf) {
            (None, None) => true,
            (Some(a), Some(b)) => {
                let leaf = member_leaf_of(a.as_str());
                str_eq_ignore_case(leaf.as_str(), b.as_str())
            },
            _ => false,
        };
        if !agree {
            return Err(PlanBlockReason::IdentityMismatch);
        }
        proof {
            let ghost q = (index, verified, *child);
            assert(identity_matches(res, *c, *v));
            assert(resolution_is(
                res,
                self.root_spec(),
                self.device_spec().candidates@[q.0 as int].matched.pack_name@,
                self.device_spec().candidates@[q.0 as int].matched.candidate.inf_path@,
                self.device_spec().candidates@[q.0 as int].matched.candidate.inf_filename@,
                q.2,
                self.host_spec(),
            ));
        }
        Ok(
            Some(
                InstallPlanEntry {
                    target_device: TargetDeviceRef { instance_id: owned(self.device.instance_id.as_str()) },
                    candidate: copy_match(&c.matched),
                    applicability: evidence_ref(c),
                    verified: v,
                },
            ),
        )
    }

    /// The plan with no entries yet.
    pub fn empty_plan<'v>(&self) -> (r: InstallPlan<'v>)
        ensures
            r.target_spec() == self.device_spec().instance_id@,
            r.ready_spec().len() == 0,
    {
        InstallPlan {
            target_device: TargetDeviceRef { instance_id: owned(self.device.instance_id.as_str()) },
            ready: Vec::new(),
        }
    }

    /// The plan from `(candidate index, verified package, pack probe)`
    /// requests: the entries that build, in request order; requests that
    /// are blocked or not ready add nothing.
    pub fn build_plan<'b>(
        &self,
        requests: &[(usize, Option<&'b VerifiedDriverPackage>, ChildProbe)],
    ) -> (r: InstallPlan<'b>)
        ensures
            r.target_spec() == self.device_spec().instance_id@,
            r.ready_spec().len() == ready_indices(
                self.device_spec(),
                self.root_spec(),
                self.host_spec(),
                requests@,
            ).len(),
            forall|k: int|
                0 <= k < r.ready_spec().len() ==> {
                    let q = requests@[ready_indices(
                        self.device_spec(),
                        self.root_spec(),
                        self.host_spec(),
                        requests@,
                    )[k]];
                    entry_is(
                        #[trigger] r.ready_spec()[k],
                        self.device_spec(),
                        self.device_spec().candidates@[q.0 as int],
                        *q.1->0,
                    )
                },
    {
        let ghost d = self.device_spec();
        let ghost root = self.root_spec();
        let ghost host = self.host_spec();
        let mut ready: Vec<InstallPlanEntry<'b>> = Vec::new();
        let mut i: usize = 0;
        while i < requests.len()
            invariant
                i <= requests@.len(),
                d == self.device_spec(),
                root == self.root_spec(),
                host == self.host_spec(),
                ready@.len() == ready_indices(d, root, host, requests@.take(i as int)).len(),
                forall|k: int|
                    0 <= k < ready@.len() ==> {
                        let j = ready_indices(d, root, host, requests@.take(i as int))[k];
                        &&& 0 <= j < i
                        &&& entry_is(
                            #[trigger] ready@[k],
                            d,
                            d.candidates@[requests@[j].0 as int],
                            *requests@[j].1->0,
                        )
                    },
            decreases requests.len() - i,
        {
            let q = &requests[i];
            let ghost before = ready@;
            let ghost ri = ready_indices(d, root, host, requests@.take(i as int));
            proof {
                lemma_ready_indices_bounds(d, root, host, requests@.take(i as int));
                assert(requests@.take(i + 1).drop_last() =~= requests@.take(i as int));
                assert(requests@.take(i + 1).last() == requests@[i as int]);
                assert(requests@[i as int] == *q);
                assert((q.0, q.1, q.2) == *q);
            }
            match self.build(q.0, q.1, &q.2) {
                Ok(Some(entry)) => {
                    ready.push(entry);
                    proof {
                        assert(ready_indices(d, root, host, requests@.take(i + 1)) == ri.push(
                            i as int,
                        ));
                        assert forall|k: int| 0 <= k < ready@.len() implies {
                            let j = ready_indices(d, root, host, requests@.take(i + 1))[k];
                            &&& 0 <= j < i + 1
                            &&& entry_is(
                                #[trigger] ready@[k],
                                d,
                                d.candidates@[requests@[j].0 as int],
                                *requests@[j].1->0,
                            )
                        } by {
                            if k < ready@.len() - 1 {
                                assert(ready@[k] == before[k]);
                            }
                        }
                    }
                },
                _ => {
                    proof {
                        assert(ready_indices(d, root, host, requests@.take(i + 1)) == ri);
                    }
                },
            }
            i = i + 1;
        }
        proof {
            assert(requests@.take(requests@.len() as int) =~= requests@);
        }
        InstallPlan {
            target_device: TargetDeviceRef { instance_id: owned(self.device.instance_id.as_str()) },
            ready,
        }
    }
}

/// The last `/`-separated part of an archive member path.
pub(crate) fn member_leaf_of(m: &str) -> (r: String)
    ensures
        r@ == member_leaf(m@),
{
    let v = chars_of(m);
    let parts = split_vec(v.as_slice(), '/');
    proof {
        lemma_split_first(v@, '/');
        assert(pieces(parts@).len() == parts@.len());
    }
    let last = &parts[parts.len() - 1];
    proof {
        assert(pieces(parts@)[parts@.len() - 1] == last@);
    }
    string_of(last.as_slice())
}


// ---------------------------------------------------------------------------
// Laws
// ---------------------------------------------------------------------------

/// An entry is only ever built for the verified package itself: when
/// `build` gives an entry for candidate `index` with package `v` (as its
/// contract says), resolving that candidate's pack alone with
/// `resolve_local_pack` under the same probes gives the present pack whose
/// canonical path, pack name and complete INF member are the verified
/// package's, with the same catalog; and the entry carries exactly `v`, so
/// its INF path and catalog name are `v`'s.
pub proof fn entries_carry_the_verified_package(
    d: AssessedDeviceMatches,
    root: RootProbe,
    host: bool,
    index: usize,
    verified: Option<&VerifiedDriverPackage>,
    child: ChildProbe,
    built: Result<Option<InstallPlanEntry>, PlanBlockReason>,
    plain: Result<LocalPackAvailability, LocalPackError>,
)
    requires
        index < d.candidates@.len(),
        (built matches Ok(Some(_))) == request_builds(d, root, host, (index, verified, child)),
        built matches Ok(Some(e)) ==> verified matches Some(v) && entry_is(
            e,
            d,
            d.candidates@[index as int],
            *v,
        ),
        resolution_is(
            plain,
            root,
            d.candidates@[index as int].matched.pack_name@,
            d.candidates@[index as int].matched.candidate.inf_path@,
            d.candidates@[index as int].matched.candidate.inf_filename@,
            child,
            host,
        ),
    ensures
        built matches Ok(Some(e)) ==> verified matches Some(v) && {
            &&& plain matches Ok(LocalPackAvailability::Present(q))
            &&& q.pack_spec().archive_path_spec() == v.pack_archive_path@
            &&& q.pack_spec().pack_name_spec() == v.pack_name@
            &&& q.inf_spec().path_spec() == v.expected_archive_member@
            &&& catalogs_agree(
                d.candidates@[index as int].matched.candidate.catalog_file,
                v.expected_catalog_leaf,
            )
            &&& e.verified_spec() == *v
            &&& e.verified_spec().inf_path == v.inf_path
            &&& e.verified_spec().catalog_name == v.catalog_name
        },
{
    if let Ok(Some(e)) = built {
        let c = d.candidates@[index as int];
        let v = *verified->0;
        let res = choose|res: Result<LocalPackAvailability, LocalPackError>|
            #[trigger] resolution_is(
                res,
                root,
                c.matched.pack_name@,
                c.matched.candidate.inf_path@,
                c.matched.candidate.inf_filename@,
                child,
                host,
            ) && identity_matches(res, c, v);
        lemma_identity_is_determined(res, plain, root, c, child, host, v);
    }
}

/// The positions, in order, of the results that are entries.
pub open spec fn entry_positions(builds: Seq<Result<Option<InstallPlanEntry>, PlanBlockReason>>) -> Seq<int>
    decreases builds.len(),
{
    if builds.len() == 0 {
        Seq::empty()
    } else {
        let before = entry_positions(builds.drop_last());
        if builds.last() matches Ok(Some(_)) {
            before.push(builds.len() - 1)
        } else {
            before
        }
    }
}

/// A plan holds exactly what building each request alone gives: whatever
/// `build` returns for each request (as its contract says), the plan from
/// `build_plan` (as its contract says) has one entry per request that
/// built, in request order, each made from the same candidate and package
/// as that request's entry; requests that were blocked or not ready add
/// nothing.
pub proof fn plan_holds_each_successful_build(
    d: AssessedDeviceMatches,
    root: RootProbe,
    host: bool,
    requests: Seq<(usize, Option<&VerifiedDriverPackage>, ChildProbe)>,
    builds: Seq<Result<Option<InstallPlanEntry>, PlanBlockReason>>,
    plan: InstallPlan,
)
    requires
        builds.len() == requests.len(),
        forall|j: int|
            0 <= j < requests.len() ==> ((#[trigger] builds[j]) matches Ok(Some(_))) == request_builds(
                d,
                root,
                host,
                requests[j],
            ),
        forall|j: int|
            0 <= j < requests.len() ==> ((#[trigger] builds[j]) matches Ok(Some(e)) ==> entry_is(
                e,
                d,
                d.candidates@[requests[j].0 as int],
                *requests[j].1->0,
            )),
        plan.ready_spec().len() == ready_indices(d, root, host, requests).len(),
        forall|k: int|
            0 <= k < plan.ready_spec().len() ==> {
                let q = requests[ready_indices(d, root, host, requests)[k]];
                entry_is(#[trigger] plan.ready_spec()[k], d, d.candidates@[q.0 as int], *q.1->0)
            },
    ensures
        plan.ready_spec().len() == entry_positions(builds).len() <= requests.len(),
        forall|k: int|
            0 <= k < plan.ready_spec().len() ==> {
                let j = entry_positions(builds)[k];
                let q = requests[j];
                &&& 0 <= j < requests.len()
                &&& builds[j] matches Ok(Some(e)) && entry_is(e, d, d.candidates@[q.0 as int], *q.1->0)
                &&& entry_is(#[trigger] plan.ready_spec()[k], d, d.candidates@[q.0 as int], *q.1->0)
            },
{
    lemma_positions_agree(d, root, host, requests, builds);
    lemma_ready_indices_bounds(d, root, host, requests);
    lemma_ready_indices_build(d, root, host, requests);
    let ri = ready_indices(d, root, host, requests);
    assert forall|k: int| 0 <= k < plan.ready_spec().len() implies {
        let j = entry_positions(builds)[k];
        let q = requests[j];
        &&& 0 <= j < requests.len()
        &&& builds[j] matches Ok(Some(e)) && entry_is(e, d, d.candidates@[q.0 as int], *q.1->0)
        &&& entry_is(#[trigger] plan.ready_spec()[k], d, d.candidates@[q.0 as int], *q.1->0)
    } by {
        let j = ri[k];
        assert(request_builds(d, root, host, requests[j]));
        assert(builds[j] matches Ok(Some(_)));
    }
}

/// Every position `ready_indices` lists is a request that builds.
proof fn lemma_ready_indices_build(
    d: AssessedDeviceMatches,
    root: RootProbe,
    host: bool,
    requests: Seq<(usize, Option<&VerifiedDriverPackage>, ChildProbe)>,
)
    ensures
        forall|k: int|
            0 <= k < ready_indices(d, root, host, requests).len() ==> request_builds(
                d,
                root,
                host,
                requests[#[trigger] ready_indices(d, root, host, requests)[k]],
            ),
    decreases requests.len(),
{
    if requests.len() > 0 {
        let rq = requests.drop_last();
        lemma_ready_indices_build(d, root, host, rq);
        lemma_ready_indices_bounds(d, root, host, rq);
        let ri = ready_indices(d, root, host, requests);
        assert forall|k: int| 0 <= k < ri.len() implies request_builds(
            d,
            root,
            host,
            requests[#[trigger] ri[k]],
        ) by {
            if k < ready_indices(d, root, host, rq).len() {
                assert(ri[k] == ready_indices(d, root, host, rq)[k]);
                assert(requests[ri[k]] == rq[ri[k]]);
            }
        }
    }
}

proof fn lemma_positions_agree(
    d: AssessedDeviceMatches,
    root: RootProbe,
    host: bool,
    requests: Seq<(usize, Option<&VerifiedDriverPackage>, ChildProbe)>,
    builds: Seq<Result<Option<InstallPlanEntry>, PlanBlockReason>>,
)
    requires
        builds.len() == requests.len(),
        forall|j: int|
            0 <= j < requests.len() ==> ((#[trigger] builds[j]) matches Ok(Some(_))) == request_builds(
                d,
                root,
                host,
                requests[j],
            ),
    ensures
        entry_positions(builds) == ready_indices(d, root, host, requests),
    decreases requests.len(),
{
    if requests.len() > 0 {
        let rq = requests.drop_last();
        let bs = builds.drop_last();
        assert forall|j: int| 0 <= j < rq.len() implies ((#[trigger] bs[j]) matches Ok(Some(_)))
            == request_builds(d, root, host, rq[j]) by {
            assert(bs[j] == builds[j]);
            assert(rq[j] == requests[j]);
        }
        lemma_positions_agree(d, root, host, rq, bs);
        assert(builds.last() == builds[builds.len() - 1]);
        assert(requests.last() == requests[requests.len() - 1]);
    }
}

} // verus!
