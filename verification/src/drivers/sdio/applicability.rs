//! Catalog-level OS applicability.
//!
//! Derives catalog OS applicability only, from parsed SDIO metadata and the
//! machine context: candidates the metadata PROVES incompatible with the host
//! architecture or OS version/build are marked so, and an explicit
//! `Indeterminate` state is kept whenever the index alone cannot prove
//! applicability. Nothing is dropped, reordered or ranked.
use vstd::prelude::*;
use crate::text::{blen, byte_len_exceeds, chars_eq, chars_of, eq_ic, eq_ignore_case, lower, lower_char, parse_decimal_u32, parse_u32_radix, parse_u32_spec, pieces, slice_vec, split_char, split_vec};
use crate::drivers::identity::{MachineContext};
use crate::drivers::sdio::catalog::{clone_opt};
use crate::drivers::sdio::matching::{CatalogCandidateMatch, DeviceCatalogMatches, MatchEvidence, MatchView, copy_candidate};

verus! {

/// Maximum length of a `TargetOSVersion` decoration string that is parsed.
pub const MAX_TARGET_OS_LEN: usize = 256;
/// Maximum number of dotted components after the `NT` prefix.
pub const MAX_TARGET_COMPONENTS: usize = 6;

#[derive(Debug, Clone, Copy, PartialEq, Eq, Structural)]
pub enum TargetArch {
    X86,
    Ia64,
    Amd64,
    Arm,
    Arm64,
}

/// The host spellings Cove produces, plus `amd64`.
pub open spec fn host_arch_of(s: Seq<char>) -> Option<TargetArch> {
    if s == seq!['x', '6', '4'] || s == seq!['a', 'm', 'd', '6', '4'] {
        Some(TargetArch::Amd64)
    } else if s == seq!['x', '8', '6'] {
        Some(TargetArch::X86)
    } else if s == seq!['a', 'r', 'm', '6', '4'] {
        Some(TargetArch::Arm64)
    } else {
        None
    }
}

fn is_text(v: &[char], t: &[char]) -> (r: bool)
    ensures
        r == (v@ == t@),
{
    chars_eq(v, t)
}

/// Normalize a host architecture string; no fuzzy matching.
pub fn normalize_host_arch(arch: &str) -> (r: Option<TargetArch>)
    ensures
        r == host_arch_of(arch@),
{
    let v = chars_of(arch);
    let x64 = vec!['x', '6', '4'];
    let amd64 = vec!['a', 'm', 'd', '6', '4'];
    let x86 = vec!['x', '8', '6'];
    let arm64 = vec!['a', 'r', 'm', '6', '4'];
    proof {
        assert(x64@ =~= seq!['x', '6', '4']);
        assert(amd64@ =~= seq!['a', 'm', 'd', '6', '4']);
        assert(x86@ =~= seq!['x', '8', '6']);
        assert(arm64@ =~= seq!['a', 'r', 'm', '6', '4']);
    }
    if is_text(v.as_slice(), x64.as_slice()) || is_text(v.as_slice(), amd64.as_slice()) {
        Some(TargetArch::Amd64)
    } else if is_text(v.as_slice(), x86.as_slice()) {
        Some(TargetArch::X86)
    } else if is_text(v.as_slice(), arm64.as_slice()) {
        Some(TargetArch::Arm64)
    } else {
        None
    }
}

/// A parsed `TargetOSVersion` decoration:
/// `NT[Architecture][.[OSMajor][.[OSMinor][.[ProductType][.[SuiteMask][.[Build]]]]]]`.
#[derive(Debug, Clone, Copy, PartialEq, Eq, Structural)]
pub struct TargetOsDecoration {
    pub architecture: Option<TargetArch>,
    pub major: Option<u32>,
    pub minor: Option<u32>,
    pub product_type: Option<u32>,
    pub suite_mask: Option<u32>,
    pub build: Option<u32>,
}

#[derive(Debug, Clone, Copy, PartialEq, Eq, Structural)]
pub enum TargetParseError {
    TooLong(usize),
    NotNtDecoration,
    UnsupportedSyntax,
    TooManyComponents,
    InvalidNumber(usize),
}

/// Architecture keyword, ASCII case-insensitive.
pub open spec fn arch_of_token(t: Seq<char>) -> Option<TargetArch> {
    if eq_ic(t, seq!['x', '8', '6']) {
        Some(TargetArch::X86)
    } else if eq_ic(t, seq!['i', 'a', '6', '4']) {
        Some(TargetArch::Ia64)
    } else if eq_ic(t, seq!['a', 'm', 'd', '6', '4']) {
        Some(TargetArch::Amd64)
    } else if eq_ic(t, seq!['a', 'r', 'm']) {
        Some(TargetArch::Arm)
    } else if eq_ic(t, seq!['a', 'r', 'm', '6', '4']) {
        Some(TargetArch::Arm64)
    } else {
        None
    }
}

fn arch_from_token(tok: &[char]) -> (r: Option<TargetArch>)
    ensures
        r == arch_of_token(tok@),
{
    let x86 = vec!['x', '8', '6'];
    let ia64 = vec!['i', 'a', '6', '4'];
    let amd64 = vec!['a', 'm', 'd', '6', '4'];
    let arm = vec!['a', 'r', 'm'];
    let arm64 = vec!['a', 'r', 'm', '6', '4'];
    proof {
        assert(x86@ =~= seq!['x', '8', '6']);
        assert(ia64@ =~= seq!['i', 'a', '6', '4']);
        assert(amd64@ =~= seq!['a', 'm', 'd', '6', '4']);
        assert(arm@ =~= seq!['a', 'r', 'm']);
        assert(arm64@ =~= seq!['a', 'r', 'm', '6', '4']);
    }
    if eq_ignore_case(tok, x86.as_slice()) {
        Some(TargetArch::X86)
    } else if eq_ignore_case(tok, ia64.as_slice()) {
        Some(TargetArch::Ia64)
    } else if eq_ignore_case(tok, amd64.as_slice()) {
        Some(TargetArch::Amd64)
    } else if eq_ignore_case(tok, arm.as_slice()) {
        Some(TargetArch::Arm)
    } else if eq_ignore_case(tok, arm64.as_slice()) {
        Some(TargetArch::Arm64)
    } else {
        None
    }
}

/// ProductType / SuiteMask value: decimal, or hexadecimal after `0x`/`0X`
/// (an empty hex run is invalid).
pub open spec fn product_or_suite(c: Seq<char>) -> Option<u32> {
    if c.len() >= 2 && c[0] == '0' && (c[1] == 'x' || c[1] == 'X') {
        if c.len() == 2 {
            None
        } else {
            parse_u32_spec(c.skip(2), 16)
        }
    } else {
        parse_u32_spec(c, 10)
    }
}

fn parse_product_or_suite(c: &[char]) -> (r: Option<u32>)
    ensures
        r == product_or_suite(c@),
{
    if c.len() >= 2 && c[0] == '0' && (c[1] == 'x' || c[1] == 'X') {
        if c.len() == 2 {
            return None;
        }
        let hex = slice_vec(c, 2, c.len());
        proof {
            assert(hex@ =~= c@.skip(2));
        }
        parse_u32_radix(hex.as_slice(), 16)
    } else {
        parse_decimal_u32(c)
    }
}

/// Value of positional slot `i` (major, minor, product, suite, build).
pub open spec fn slot_value(i: int, c: Seq<char>) -> Option<u32> {
    if i == 2 || i == 3 {
        product_or_suite(c)
    } else {
        parse_u32_spec(c, 10)
    }
}

/// The slot values of `fields[..n]`, or the index of the first invalid one.
pub open spec fn slots(fields: Seq<Seq<char>>, n: int) -> Result<Seq<Option<u32>>, usize>
    decreases n,
{
    if n <= 0 {
        Ok(Seq::empty())
    } else {
        match slots(fields, n - 1) {
            Err(i) => Err(i),
            Ok(v) => if fields[n - 1].len() == 0 {
                Ok(v.push(None))
            } else {
                match slot_value(n - 1, fields[n - 1]) {
                    None => Err((n - 1) as usize),
                    Some(x) => Ok(v.push(Some(x))),
                }
            },
        }
    }
}

pub open spec fn slot_at(v: Seq<Option<u32>>, i: int) -> Option<u32> {
    if 0 <= i < v.len() {
        v[i]
    } else {
        None
    }
}

/// The decoration described by an architecture and the slot values.
pub open spec fn decoration_of(a: Option<TargetArch>, v: Seq<Option<u32>>) -> TargetOsDecoration {
    TargetOsDecoration {
        architecture: a,
        major: slot_at(v, 0),
        minor: slot_at(v, 1),
        product_type: slot_at(v, 2),
        suite_mask: slot_at(v, 3),
        build: slot_at(v, 4),
    }
}

/// What `parse_target_os_version` returns, step by step: length cap, `NT`
/// prefix, component count, architecture slot, no trailing dot, strictly
/// positional numeric slots, the Windows 10 build floor (10.0, build >=
/// 14310), and no minor without a major.
pub open spec fn target_spec(s: Seq<char>) -> Result<TargetOsDecoration, TargetParseError> {
    if blen(s) > MAX_TARGET_OS_LEN {
        Err(TargetParseError::TooLong(blen(s) as usize))
    } else if s.len() < 2 || lower(s[0]) != 'n' || lower(s[1]) != 't' {
        Err(TargetParseError::NotNtDecoration)
    } else {
        let comps = split_char(s.skip(2), '.');
        if comps.len() > MAX_TARGET_COMPONENTS {
            Err(TargetParseError::TooManyComponents)
        } else if comps.len() == 1 && comps[0].len() == 0 {
            Ok(decoration_of(None, Seq::empty()))
        } else if arch_of_token(comps[0]) is None && comps[0].len() > 0 {
            Err(TargetParseError::UnsupportedSyntax)
        } else {
            let arch = arch_of_token(comps[0]);
            let fields = comps.skip(1);
            if fields.len() > 0 && fields.last().len() == 0 {
                Err(TargetParseError::UnsupportedSyntax)
            } else if fields.len() > 5 {
                Err(TargetParseError::TooManyComponents)
            } else {
                match slots(fields, fields.len() as int) {
                    Err(i) => Err(TargetParseError::InvalidNumber(i)),
                    Ok(v) => {
                        let d = decoration_of(arch, v);
                        if d.build is Some && (d.major != Some(10u32) || d.minor != Some(0u32)
                            || d.build->0 < 14310) {
                            Err(TargetParseError::UnsupportedSyntax)
                        } else if d.minor is Some && d.major is None {
                            Err(TargetParseError::UnsupportedSyntax)
                        } else {
                            Ok(d)
                        }
                    },
                }
            }
        }
    }
}

proof fn lemma_slots_err(fields: Seq<Seq<char>>, i: int, n: int)
    requires
        0 <= i <= n,
        slots(fields, i) is Err,
    ensures
        slots(fields, n) == slots(fields, i),
    decreases n - i,
{
    if i < n {
        lemma_slots_err(fields, i, n - 1);
    }
}

proof fn lemma_slots_len(fields: Seq<Seq<char>>, n: int)
    requires
        n >= 0,
    ensures
        slots(fields, n) matches Ok(v) ==> v.len() == n,
    decreases n,
{
    if n > 0 {
        lemma_slots_len(fields, n - 1);
    }
}

/// Parse a `TargetOSVersion` decoration strictly: ASCII case-insensitive
/// keywords, integer-exact numeric slots (hex only for ProductType and
/// SuiteMask), positional empty slots preserved, no trailing dot.
#[verifier::loop_isolation(false)]
pub fn parse_target_os_version(s: &str) -> (r: Result<TargetOsDecoration, TargetParseError>)
    ensures
        r == target_spec(s@),
{
    let v = chars_of(s);
    if byte_len_exceeds(v.as_slice(), MAX_TARGET_OS_LEN) {
        return Err(TargetParseError::TooLong(s.len()));
    }
    if v.len() < 2 || lower_char(v[0]) != 'n' || lower_char(v[1]) != 't' {
        return Err(TargetParseError::NotNtDecoration);
    }
    let rest = slice_vec(v.as_slice(), 2, v.len());
    proof {
        assert(rest@ =~= s@.skip(2));
    }
    let comps = split_vec(rest.as_slice(), '.');
    let ghost cs = split_char(s@.skip(2), '.');
    assert(pieces(comps@) == cs);
    if comps.len() > MAX_TARGET_COMPONENTS {
        return Err(TargetParseError::TooManyComponents);
    }
    assert(comps@[0]@ == cs[0]);
    if comps.len() == 1 && comps[0].len() == 0 {
        let d = TargetOsDecoration {
            architecture: None,
            major: None,
            minor: None,
            product_type: None,
            suite_mask: None,
            build: None,
        };
        return Ok(d);
    }
    let arch = arch_from_token(comps[0].as_slice());
    if arch.is_none() && comps[0].len() > 0 {
        return Err(TargetParseError::UnsupportedSyntax);
    }
    let nf = comps.len() - 1;
    let ghost fields = cs.skip(1);
    if nf > 0 && comps[nf].len() == 0 {
        assert(comps@[nf as int]@ == fields.last());
        return Err(TargetParseError::UnsupportedSyntax);
    }
    if nf > 5 {
        return Err(TargetParseError::TooManyComponents);
    }
    let mut vals: Vec<Option<u32>> = Vec::new();
    let mut i: usize = 0;
    while i < nf
        invariant
            i <= nf,
            nf == fields.len(),
            fields == cs.skip(1),
            pieces(comps@) == cs,
            slots(fields, i as int) == Ok::<Seq<Option<u32>>, usize>(vals@),
        decreases nf - i,
    {
        let c = &comps[i + 1];
        assert(c@ == fields[i as int]);
        if c.len() == 0 {
            vals.push(None);
        } else {
            let x = if i == 2 || i == 3 {
                parse_product_or_suite(c.as_slice())
            } else {
                parse_decimal_u32(c.as_slice())
            };
            match x {
                None => {
                    proof {
                        lemma_slots_err(fields, i + 1, nf as int);
                    }
                    return Err(TargetParseError::InvalidNumber(i));
                },
                Some(n) => {
                    vals.push(Some(n));
                },
            }
        }
        i = i + 1;
    }
    proof {
        lemma_slots_len(fields, nf as int);
    }
    let at = |k: usize| -> (r: Option<u32>)
        ensures
            r == slot_at(vals@, k as int),
        {
            if k < vals.len() {
                vals[k]
            } else {
                None
            }
        };
    let d = TargetOsDecoration {
        architecture: arch,
        major: at(0),
        minor: at(1),
        product_type: at(2),
        suite_mask: at(3),
        build: at(4),
    };
    match d.build {
        Some(b) => {
            if d.major != Some(10u32) || d.minor != Some(0u32) || b < 14310 {
                return Err(TargetParseError::UnsupportedSyntax);
            }
        },
        None => {},
    }
    if d.minor.is_some() && d.major.is_none() {
        return Err(TargetParseError::UnsupportedSyntax);
    }
    Ok(d)
}

/// A strictly parsed machine context.
#[derive(Debug, Clone, Copy, PartialEq, Eq, Structural)]
pub struct ParsedMachineContext {
    pub arch: TargetArch,
    pub major: u32,
    pub minor: u32,
    pub build: u32,
}

#[derive(Debug, Clone, PartialEq, Eq)]
pub enum ApplicabilityError {
    InvalidMachineContext,
    UnknownHostArchitecture(String),
}

/// The machine context, parsed: a known host architecture, an OS version
/// of exactly `major.minor` (both non-empty decimal integers), and a decimal
/// build.
pub open spec fn machine_spec(m: MachineContext) -> Result<ParsedMachineContext, ()> {
    let parts = split_char(m.os_version@, '.');
    match host_arch_of(m.arch@) {
        None => Err(()),
        Some(arch) => if parts.len() != 2 || parts[0].len() == 0 || parts[1].len() == 0 {
            Err(())
        } else {
            match (parse_u32_spec(parts[0], 10), parse_u32_spec(parts[1], 10), parse_u32_spec(
                m.os_build@,
                10,
            )) {
                (Some(major), Some(minor), Some(build)) => Ok(
                    ParsedMachineContext { arch, major, minor, build },
                ),
                _ => Err(()),
            }
        },
    }
}

/// The error `parse_machine_context` answers for `m` when it refuses it.
pub open spec fn machine_error_is(e: ApplicabilityError, m: MachineContext) -> bool {
    if host_arch_of(m.arch@) is None {
        e matches ApplicabilityError::UnknownHostArchitecture(a) && a@ == m.arch@
    } else {
        e == ApplicabilityError::InvalidMachineContext
    }
}

/// Strictly parse the host machine context.
pub fn parse_machine_context(machine: &MachineContext) -> (r: Result<ParsedMachineContext, ApplicabilityError>)
    ensures
        match machine_spec(*machine) {
            Ok(p) => r == Ok::<ParsedMachineContext, ApplicabilityError>(p),
            Err(_) => r matches Err(e) && machine_error_is(e, *machine),
        },
{
    let arch = match normalize_host_arch(machine.arch.as_str()) {
        None => {
            return Err(ApplicabilityError::UnknownHostArchitecture(machine.arch.clone()));
        },
        Some(a) => a,
    };
    let ver = chars_of(machine.os_version.as_str());
    let parts = split_vec(ver.as_slice(), '.');
    let ghost ps = split_char(machine.os_version@, '.');
    assert(pieces(parts@) == ps);
    if parts.len() != 2 || parts[0].len() == 0 || parts[1].len() == 0 {
        return Err(ApplicabilityError::InvalidMachineContext);
    }
    assert(parts@[0]@ == ps[0]);
    assert(parts@[1]@ == ps[1]);
    let major = match parse_decimal_u32(parts[0].as_slice()) {
        None => {
            return Err(ApplicabilityError::InvalidMachineContext);
        },
        Some(x) => x,
    };
    let minor = match parse_decimal_u32(parts[1].as_slice()) {
        None => {
            return Err(ApplicabilityError::InvalidMachineContext);
        },
        Some(x) => x,
    };
    let b = chars_of(machine.os_build.as_str());
    let build = match parse_decimal_u32(b.as_slice()) {
        None => {
            return Err(ApplicabilityError::InvalidMachineContext);
        },
        Some(x) => x,
    };
    Ok(ParsedMachineContext { arch, major, minor, build })
}

#[derive(Debug, Clone, Copy, PartialEq, Eq, Structural)]
pub enum CatalogOsApplicability {
    /// Catalog metadata proves the Models target permits the host.
    HostCompatible,
    /// Catalog metadata proves the target excludes the host.
    HostIncompatible,
    /// The index alone cannot prove applicability.
    Indeterminate,
}

#[derive(Debug, Clone, Copy, PartialEq, Eq, Structural)]
pub enum ApplicabilityReason {
    TargetSatisfied,
    ArchitectureMismatch,
    OsVersionTooOld,
    BuildTooOld,
    ProductTypeUnavailable,
    SuiteMaskUnavailable,
    MissingTargetMetadata,
    UnsupportedTargetSyntax,
    UnknownHostArchitecture,
}

/// The OS-applicability evidence for one candidate.
#[derive(Debug, Clone, PartialEq, Eq)]
pub struct CatalogApplicabilityEvidence {
    /// The Models-section target the candidate came from, verbatim.
    pub models_section: Option<String>,
    pub target: Option<TargetOsDecoration>,
    pub status: CatalogOsApplicability,
    pub reason: ApplicabilityReason,
}

/// One matched candidate annotated with its catalog OS applicability.
#[derive(Debug, Clone, PartialEq, Eq)]
pub struct AssessedCatalogCandidate {
    pub matched: CatalogCandidateMatch,
    pub os: CatalogApplicabilityEvidence,
}

/// Per-device assessment output, order preserved.
#[derive(Debug, Clone, PartialEq, Eq)]
pub struct AssessedDeviceMatches {
    pub instance_id: String,
    pub candidates: Vec<AssessedCatalogCandidate>,
}

/// A provable version/build negative, if any: host older than the target's
/// major.minor, or same major.minor with an older build.
pub open spec fn version_negative(t: TargetOsDecoration, m: ParsedMachineContext) -> Option<
    ApplicabilityReason,
> {
    match t.major {
        None => None,
        Some(tmaj) => {
            let tmin = match t.minor {
                Some(x) => x,
                None => 0,
            };
            if m.major < tmaj || (m.major == tmaj && m.minor < tmin) {
                Some(ApplicabilityReason::OsVersionTooOld)
            } else if m.major > tmaj || m.minor > tmin {
                None
            } else if t.build is Some && m.build < t.build->0 {
                Some(ApplicabilityReason::BuildTooOld)
            } else {
                None
            }
        },
    }
}

/// Once the provable questions pass: unknown ProductType / SuiteMask keep
/// the result indeterminate; otherwise the target is satisfied.
pub open spec fn product_suite(t: TargetOsDecoration) -> (CatalogOsApplicability, ApplicabilityReason) {
    if t.product_type is Some {
        (CatalogOsApplicability::Indeterminate, ApplicabilityReason::ProductTypeUnavailable)
    } else if t.suite_mask is Some {
        (CatalogOsApplicability::Indeterminate, ApplicabilityReason::SuiteMaskUnavailable)
    } else {
        (CatalogOsApplicability::HostCompatible, ApplicabilityReason::TargetSatisfied)
    }
}

/// The verdict for a target against a parsed host: an explicit architecture
/// mismatch, then a version/build negative, are provable negatives; an
/// architecture-less target proves compatibility only on an x86 host (and
/// only with a version threshold); product type and suite mask are never
/// guessed.
pub open spec fn verdict(t: TargetOsDecoration, m: ParsedMachineContext) -> (
    CatalogOsApplicability,
    ApplicabilityReason,
) {
    let has_threshold = t.major is Some;
    match (t.architecture, version_negative(t, m)) {
        (Some(a), _) if a != m.arch => (
            CatalogOsApplicability::HostIncompatible,
            ApplicabilityReason::ArchitectureMismatch,
        ),
        (_, Some(reason)) => (CatalogOsApplicability::HostIncompatible, reason),
        (Some(_), None) => product_suite(t),
        (None, None) => if !has_threshold {
            (CatalogOsApplicability::Indeterminate, ApplicabilityReason::MissingTargetMetadata)
        } else if t.product_type is Some || t.suite_mask is Some {
            product_suite(t)
        } else if m.arch != TargetArch::X86 {
            (CatalogOsApplicability::Indeterminate, ApplicabilityReason::MissingTargetMetadata)
        } else {
            product_suite(t)
        },
    }
}

fn product_suite_verdict(t: &TargetOsDecoration) -> (r: (CatalogOsApplicability, ApplicabilityReason))
    ensures
        r == product_suite(*t),
{
    if t.product_type.is_some() {
        (CatalogOsApplicability::Indeterminate, ApplicabilityReason::ProductTypeUnavailable)
    } else if t.suite_mask.is_some() {
        (CatalogOsApplicability::Indeterminate, ApplicabilityReason::SuiteMaskUnavailable)
    } else {
        (CatalogOsApplicability::HostCompatible, ApplicabilityReason::TargetSatisfied)
    }
}

fn evaluate_parsed_target(t: &TargetOsDecoration, m: &ParsedMachineContext) -> (r:
    CatalogApplicabilityEvidence)
    ensures
        r.models_section is None,
        r.target == Some(*t),
        (r.status, r.reason) == verdict(*t, *m),
{
    let has_threshold = t.major.is_some();
    let negative: Option<ApplicabilityReason> = match t.major {
        None => None,
        Some(tmaj) => {
            let tmin = match t.minor {
                Some(x) => x,
                None => 0,
            };
            if m.major < tmaj || (m.major == tmaj && m.minor < tmin) {
                Some(ApplicabilityReason::OsVersionTooOld)
            } else if m.major > tmaj || m.minor > tmin {
                None
            } else {
                match t.build {
                    Some(b) => if m.build < b {
                        Some(ApplicabilityReason::BuildTooOld)
                    } else {
                        None
                    },
                    None => None,
                }
            }
        },
    };
    let (status, reason) = match (t.architecture, negative) {
        (Some(a), _) if a != m.arch => (
            CatalogOsApplicability::HostIncompatible,
            ApplicabilityReason::ArchitectureMismatch,
        ),
        (_, Some(reason)) => (CatalogOsApplicability::HostIncompatible, reason),
        (Some(_), None) => product_suite_verdict(t),
        (None, None) => {
            if !has_threshold {
                (CatalogOsApplicability::Indeterminate, ApplicabilityReason::MissingTargetMetadata)
            } else if t.product_type.is_some() || t.suite_mask.is_some() {
                product_suite_verdict(t)
            } else if m.arch != TargetArch::X86 {
                (CatalogOsApplicability::Indeterminate, ApplicabilityReason::MissingTargetMetadata)
            } else {
                product_suite_verdict(t)
            }
        },
    };
    CatalogApplicabilityEvidence { models_section: None, target: Some(*t), status, reason }
}

/// Evaluate a parsed target decoration against a host machine; only an
/// invalid host machine is an error.
pub fn evaluate_target(target: &TargetOsDecoration, machine: &MachineContext) -> (r: Result<
    CatalogApplicabilityEvidence,
    ApplicabilityError,
>)
    ensures
        match machine_spec(*machine) {
            Ok(p) => r matches Ok(ev) && ev.models_section is None && ev.target == Some(*target) && (
            ev.status, ev.reason) == verdict(*target, p),
            Err(_) => r matches Err(e) && machine_error_is(e, *machine),
        },
{
    let parsed = match parse_machine_context(machine) {
        Err(e) => {
            return Err(e);
        },
        Ok(p) => p,
    };
    Ok(evaluate_parsed_target(target, &parsed))
}

/// The evidence a candidate receives: a positive `sect_pos` marks a
/// decorated Models section whose text is parsed and evaluated (unparsable
/// or absent text is unsupported syntax); an undecorated base name carries
/// no OS evidence.
pub open spec fn assessed_is(a: AssessedCatalogCandidate, m: MatchView, host: ParsedMachineContext) -> bool {
    let ms = m.candidate.models_section;
    &&& a.matched@ == m
    &&& a.os.models_section == ms
    &&& if m.candidate.sect_pos > 0 && ms is Some {
        match target_spec(ms->0@) {
            Ok(t) => a.os.target == Some(t) && (a.os.status, a.os.reason) == verdict(t, host),
            Err(_) => a.os.target is None && a.os.status == CatalogOsApplicability::Indeterminate
                && a.os.reason == ApplicabilityReason::UnsupportedTargetSyntax,
        }
    } else if m.candidate.sect_pos > 0 {
        a.os.target is None && a.os.status == CatalogOsApplicability::Indeterminate
            && a.os.reason == ApplicabilityReason::UnsupportedTargetSyntax
    } else {
        a.os.target is None && a.os.status == CatalogOsApplicability::Indeterminate
            && a.os.reason == ApplicabilityReason::MissingTargetMetadata
    }
}

fn copy_evidence(e: &MatchEvidence) -> (r: MatchEvidence)
    ensures
        r == *e,
{
    MatchEvidence {
        kind: e.kind,
        device_id: e.device_id.clone(),
        ordinal: e.ordinal,
        inf_pos: e.inf_pos,
    }
}

pub(crate) fn copy_match(m: &CatalogCandidateMatch) -> (r: CatalogCandidateMatch)
    ensures
        r@ == m@,
{
    let mut evidence: Vec<MatchEvidence> = Vec::new();
    let mut i: usize = 0;
    while i < m.evidence.len()
        invariant
            i <= m.evidence@.len(),
            evidence@ == m.evidence@.take(i as int),
        decreases m.evidence.len() - i,
    {
        evidence.push(copy_evidence(&m.evidence[i]));
        proof {
            assert(evidence@ =~= m.evidence@.take(i + 1));
        }
        i = i + 1;
    }
    proof {
        assert(m.evidence@.take(i as int) =~= m.evidence@);
    }
    CatalogCandidateMatch {
        pack_name: m.pack_name.clone(),
        candidate: copy_candidate(&m.candidate),
        evidence,
    }
}

fn assess_one(matched: &CatalogCandidateMatch, machine: &ParsedMachineContext) -> (r:
    AssessedCatalogCandidate)
    ensures
        assessed_is(r, matched@, *machine),
{
    let models_section = clone_opt(&matched.candidate.models_section);
    let (target, status, reason) = if matched.candidate.sect_pos > 0 {
        match &matched.candidate.models_section {
            Some(s) => match parse_target_os_version(s.as_str()) {
                Ok(t) => {
                    let ev = evaluate_parsed_target(&t, machine);
                    (Some(t), ev.status, ev.reason)
                },
                Err(_) => (
                    None,
                    CatalogOsApplicability::Indeterminate,
                    ApplicabilityReason::UnsupportedTargetSyntax,
                ),
            },
            None => (
                None,
                CatalogOsApplicability::Indeterminate,
                ApplicabilityReason::UnsupportedTargetSyntax,
            ),
        }
    } else {
        (None, CatalogOsApplicability::Indeterminate, ApplicabilityReason::MissingTargetMetadata)
    };
    AssessedCatalogCandidate {
        matched: copy_match(matched),
        os: CatalogApplicabilityEvidence { models_section, target, status, reason },
    }
}

/// Every candidate of one device, assessed, order preserved.
pub open spec fn device_assessed(a: AssessedDeviceMatches, m: DeviceCatalogMatches, host: ParsedMachineContext) -> bool {
    &&& a.instance_id == m.instance_id
    &&& a.candidates@.len() == m.candidates@.len()
    &&& forall|i: int|
        0 <= i < a.candidates@.len() ==> assessed_is(
            #[trigger] a.candidates@[i],
            m.candidates@[i]@,
            host,
        )
}

fn assess_with(matches: &DeviceCatalogMatches, parsed: &ParsedMachineContext) -> (r:
    AssessedDeviceMatches)
    ensures
        device_assessed(r, *matches, *parsed),
{
    let mut out: Vec<AssessedCatalogCandidate> = Vec::new();
    let mut i: usize = 0;
    while i < matches.candidates.len()
        invariant
            i <= matches.candidates@.len(),
            out@.len() == i,
            forall|j: int|
                0 <= j < i ==> assessed_is(#[trigger] out@[j], matches.candidates@[j]@, *parsed),
        decreases matches.candidates.len() - i,
    {
        out.push(assess_one(&matches.candidates[i], parsed));
        i = i + 1;
    }
    AssessedDeviceMatches { instance_id: matches.instance_id.clone(), candidates: out }
}

/// Assess every candidate of one device against the host machine.
pub fn assess_device_matches(matches: &DeviceCatalogMatches, machine: &MachineContext) -> (r: Result<
    AssessedDeviceMatches,
    ApplicabilityError,
>)
    ensures
        match machine_spec(*machine) {
            Ok(p) => r matches Ok(a) && device_assessed(a, *matches, p),
            Err(_) => r matches Err(e) && machine_error_is(e, *machine),
        },
{
    let parsed = match parse_machine_context(machine) {
        Err(e) => {
            return Err(e);
        },
        Ok(p) => p,
    };
    Ok(assess_with(matches, &parsed))
}

/// Assess every device in a batch: one result per input device, in order.
pub fn assess_matches(matches: &[DeviceCatalogMatches], machine: &MachineContext) -> (r: Result<
    Vec<AssessedDeviceMatches>,
    ApplicabilityError,
>)
    ensures
        match machine_spec(*machine) {
            Ok(p) => r matches Ok(v) && v@.len() == matches@.len() && forall|i: int|
                0 <= i < v@.len() ==> device_assessed(#[trigger] v@[i], matches@[i], p),
            Err(_) => r matches Err(e) && machine_error_is(e, *machine),
        },
{
    let parsed = match parse_machine_context(machine) {
        Err(e) => {
            return Err(e);
        },
        Ok(p) => p,
    };
    let mut out: Vec<AssessedDeviceMatches> = Vec::new();
    let mut i: usize = 0;
    while i < matches.len()
        invariant
            i <= matches@.len(),
            out@.len() == i,
            machine_spec(*machine) == Ok::<ParsedMachineContext, ()>(parsed),
            forall|j: int| 0 <= j < i ==> device_assessed(#[trigger] out@[j], matches@[j], parsed),
        decreases matches.len() - i,
    {
        out.push(assess_with(&matches[i], &parsed));
        i = i + 1;
    }
    Ok(out)
}

// ---------------------------------------------------------------------------
// Laws
// ---------------------------------------------------------------------------

/// `HostCompatible` is only ever proven, never guessed: it comes with
/// `TargetSatisfied`, no product type or suite mask to check, no
/// architecture other than the host's (an architecture-less target only on
/// an x86 host, and only with a version threshold), and no version or build
/// the host is below.
pub proof fn host_compatible_is_proven(t: TargetOsDecoration, m: ParsedMachineContext)
    ensures
        verdict(t, m).0 == CatalogOsApplicability::HostCompatible ==> {
            &&& verdict(t, m).1 == ApplicabilityReason::TargetSatisfied
            &&& t.product_type is None && t.suite_mask is None
            &&& version_negative(t, m) is None
            &&& match t.architecture {
                Some(a) => a == m.arch,
                None => t.major is Some && m.arch == TargetArch::X86,
            }
        },
{
}

/// A host whose architecture differs from an explicit target architecture,
/// or whose version is below the target's threshold, is never compatible.
pub proof fn provable_negatives_exclude_the_host(t: TargetOsDecoration, m: ParsedMachineContext)
    ensures
        (t.architecture matches Some(a) && a != m.arch) ==> verdict(t, m)
            == (CatalogOsApplicability::HostIncompatible, ApplicabilityReason::ArchitectureMismatch),
        (t.major matches Some(tmaj) && m.major < tmaj) ==> verdict(t, m).0
            == CatalogOsApplicability::HostIncompatible,
{
}


/// A device's assessment is determined by the device and the host: any two
/// assessments of the same matches against the same parsed host agree on
/// every candidate, in order. So `assess_matches` gives each device exactly
/// what `assess_device_matches` gives it alone, and both fail exactly when
/// the machine context does not parse.
pub proof fn assessment_is_determined(
    a1: AssessedDeviceMatches,
    a2: AssessedDeviceMatches,
    m: DeviceCatalogMatches,
    host: ParsedMachineContext,
)
    requires
        device_assessed(a1, m, host),
        device_assessed(a2, m, host),
    ensures
        a1.instance_id == a2.instance_id,
        a1.candidates@.len() == a2.candidates@.len(),
        forall|i: int|
            0 <= i < a1.candidates@.len() ==> (#[trigger] a1.candidates@[i]).matched@
                == a2.candidates@[i].matched@ && a1.candidates@[i].os == a2.candidates@[i].os,
{
    assert forall|i: int| 0 <= i < a1.candidates@.len() implies (#[trigger] a1.candidates@[i]).matched@
        == a2.candidates@[i].matched@ && a1.candidates@[i].os == a2.candidates@[i].os by {
        assert(assessed_is(a1.candidates@[i], m.candidates@[i]@, host));
        assert(assessed_is(a2.candidates@[i], m.candidates@[i]@, host));
    }
}


/// Whatever `assess_matches` and `assess_device_matches` return for the same
/// machine context (each as its contract says), they agree: both fail, with
/// the same error, exactly when the context does not parse (however many
/// devices there are); otherwise the batch has one assessment per device, in
/// input order, and the one at position `i` is the assessment of device `i`
/// alone.
pub proof fn batch_and_single_assessments_agree(
    matches: Seq<DeviceCatalogMatches>,
    machine: MachineContext,
    batch: Result<Vec<AssessedDeviceMatches>, ApplicabilityError>,
    i: int,
    single: Result<AssessedDeviceMatches, ApplicabilityError>,
)
    requires
        0 <= i < matches.len(),
        match machine_spec(machine) {
            Ok(p) => batch matches Ok(v) && v@.len() == matches.len() && forall|j: int|
                0 <= j < v@.len() ==> device_assessed(#[trigger] v@[j], matches[j], p),
            Err(_) => batch matches Err(e) && machine_error_is(e, machine),
        },
        match machine_spec(machine) {
            Ok(p) => single matches Ok(a) && device_assessed(a, matches[i], p),
            Err(_) => single matches Err(e) && machine_error_is(e, machine),
        },
    ensures
        batch is Err <==> machine_spec(machine) is Err,
        single is Err <==> machine_spec(machine) is Err,
        batch matches Err(e1) ==> (single matches Err(e2) && machine_error_is(e1, machine)
            && machine_error_is(e2, machine)),
        batch matches Ok(v) ==> v@.len() == matches.len() && (single matches Ok(a) && {
            let b = v@[i];
            &&& b.instance_id == a.instance_id
            &&& b.candidates@.len() == a.candidates@.len()
            &&& forall|k: int|
                0 <= k < b.candidates@.len() ==> (#[trigger] b.candidates@[k]).matched@
                    == a.candidates@[k].matched@ && b.candidates@[k].os == a.candidates@[k].os
        }),
{
    if let Ok(p) = machine_spec(machine) {
        let v = batch->Ok_0;
        assessment_is_determined(v@[i], single->Ok_0, matches[i], p);
    }
}


/// The OS version and build of a target are floors: on the target's own
/// major.minor, a host build below the target's build is a provable
/// negative (`BuildTooOld`) unless the architecture already rules the host
/// out; a host below the target's major.minor is `OsVersionTooOld`; and a
/// host found compatible is never below the target's version, nor below its
/// build on the same major.minor. A host on a newer major version passes the
/// version check whatever the build.
pub proof fn target_version_and_build_are_floors(t: TargetOsDecoration, m: ParsedMachineContext)
    ensures
        (t.major == Some(m.major) && t.minor == Some(m.minor) && t.build is Some && m.build
            < t.build->0 && (t.architecture is None || t.architecture == Some(m.arch))) ==> verdict(
            t,
            m,
        ) == (CatalogOsApplicability::HostIncompatible, ApplicabilityReason::BuildTooOld),
        (t.major is Some && (m.major < t.major->0 || (m.major == t.major->0 && t.minor is Some
            && m.minor < t.minor->0)) && (t.architecture is None || t.architecture == Some(m.arch)))
            ==> verdict(t, m) == (
            CatalogOsApplicability::HostIncompatible,
            ApplicabilityReason::OsVersionTooOld,
        ),
        (verdict(t, m).0 == CatalogOsApplicability::HostCompatible && t.major == Some(m.major)
            && t.minor == Some(m.minor) && t.build is Some) ==> m.build >= t.build->0,
        (verdict(t, m).0 == CatalogOsApplicability::HostCompatible && t.major is Some) ==> (m.major
            > t.major->0 || (m.major == t.major->0 && (t.minor is Some ==> m.minor >= t.minor->0))),
        (t.architecture == Some(m.arch) && t.major is Some && m.major > t.major->0
            && t.product_type is None && t.suite_mask is None) ==> verdict(t, m) == (
            CatalogOsApplicability::HostCompatible,
            ApplicabilityReason::TargetSatisfied,
        ),
{
}

} // verus!
