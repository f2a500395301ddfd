//! Candidate discovery: an exact join between ordered device identities and
//! already-parsed SDIO catalogs.
//!
//! Discovery only: nothing here ranks a candidate, and a catalog `inf_pos`
//! is SDIO metadata preserved verbatim, never a Windows rank. Hardware IDs are
//! queried first (in source order), then compatible IDs; each ID against
//! every catalog in order; each catalog's hits in record order. Candidates
//! deduplicate per device per pack by their model identity while keeping all
//! ordered evidence. Every bound fails closed.
use vstd::prelude::*;
use crate::text::{blen, owned, str_eq};
use crate::drivers::identity::{DeviceIdentity};
use crate::drivers::sdio::catalog::{Candidate, MAX_PACK_FILENAME_LEN, PayloadView, Refusal, SdioCatalog, clone_opt, container_refusal, decompress_spec, opt_view, payload_spec, same_error, unicode_upper};
use crate::drivers::sdio::error::{SdioError};

verus! {

/// Maximum number of input devices in one batch.
pub const MAX_DEVICES_PER_MATCH: usize = 4_096;
/// Maximum number of input catalogs in one match.
pub const MAX_CATALOGS_PER_MATCH: usize = 256;
/// Maximum device IDs (hardware + compatible) considered per device.
pub const MAX_IDS_PER_DEVICE: usize = 320;
/// Maximum unique candidates surfaced for one device instance.
pub const MAX_CANDIDATES_PER_DEVICE: usize = 512;
/// Maximum candidate rows across a whole batch.
pub const MAX_TOTAL_CANDIDATES: usize = 65_536;
/// Maximum evidence records retained for one candidate.
pub const MAX_EVIDENCE_PER_CANDIDATE: usize = 64;

/// Which device-ID list surfaced an evidence record.
#[derive(Debug, Clone, Copy, PartialEq, Eq, Structural)]
pub enum DeviceIdKind {
    Hardware,
    Compatible,
}

/// One ordered path explaining why a candidate was discovered: the ID (in
/// the device's own casing), its position in its list, and the SDIO
/// `inf_pos` of the matched record.
#[derive(Debug, Clone, PartialEq, Eq)]
pub struct MatchEvidence {
    pub kind: DeviceIdKind,
    pub device_id: String,
    pub ordinal: usize,
    pub inf_pos: i32,
}

/// One logical candidate surfaced from one pack, with its ordered evidence.
#[derive(Debug, Clone, PartialEq, Eq)]
pub struct CatalogCandidateMatch {
    pub pack_name: String,
    /// The first discovery of this candidate.
    pub candidate: Candidate,
    pub evidence: Vec<MatchEvidence>,
}

/// The matching result for one device instance.
#[derive(Debug, Clone, PartialEq, Eq)]
pub struct DeviceCatalogMatches {
    pub instance_id: String,
    pub candidates: Vec<CatalogCandidateMatch>,
}

/// Fail-closed reasons the matcher refuses to produce output.
#[derive(Debug, Clone, PartialEq, Eq)]
pub enum MatchError {
    TooManyDevices(usize),
    TooManyCatalogs(usize),
    TooManyDeviceIds(usize),
    TooManyCandidates,
    TooManyTotalCandidates,
    TooMuchEvidence,
    Catalog(SdioError),
}

/// A candidate match as a value: its evidence as a sequence.
pub struct MatchView {
    pub pack_name: String,
    pub candidate: Candidate,
    pub evidence: Seq<MatchEvidence>,
}

impl View for CatalogCandidateMatch {
    type V = MatchView;

    open spec fn view(&self) -> MatchView {
        MatchView { pack_name: self.pack_name, candidate: self.candidate, evidence: self.evidence@ }
    }
}

pub open spec fn match_views(v: Seq<CatalogCandidateMatch>) -> Seq<MatchView> {
    v.map_values(|m: CatalogCandidateMatch| m@)
}

/// The model identity of a candidate within a pack (`inf_pos` excluded: it
/// is per-ID evidence, not identity).
pub open spec fn same_key(m: MatchView, pack: String, c: Candidate) -> bool {
    &&& m.pack_name@ == pack@
    &&& m.candidate.inf_path@ == c.inf_path@
    &&& m.candidate.inf_filename@ == c.inf_filename@
    &&& m.candidate.install_section@ == c.install_section@
    &&& m.candidate.picked_section@ == c.picked_section@
    &&& m.candidate.sect_pos == c.sect_pos
    &&& opt_view(m.candidate.models_section) == opt_view(c.models_section)
}

/// Index of the first candidate among `cs[..n]` with the same identity.
pub open spec fn key_index(cs: Seq<MatchView>, pack: String, c: Candidate, n: int) -> Option<int>
    decreases n,
{
    if n <= 0 {
        None
    } else if key_index(cs, pack, c, n - 1) is Some {
        key_index(cs, pack, c, n - 1)
    } else if same_key(cs[n - 1], pack, c) {
        Some(n - 1)
    } else {
        None
    }
}

/// Matching state: the device's candidates so far and the batch total.
pub type MatchState = (Seq<MatchView>, nat);

/// Record one discovered candidate with its evidence: merge into an
/// existing candidate of the same identity (evidence bound), or append a new
/// one (per-device and batch bounds).
pub open spec fn add_candidate(st: MatchState, pack: String, c: Candidate, ev: MatchEvidence) -> Result<
    MatchState,
    MatchError,
> {
    match key_index(st.0, pack, c, st.0.len() as int) {
        Some(k) => if st.0[k].evidence.len() >= MAX_EVIDENCE_PER_CANDIDATE {
            Err(MatchError::TooMuchEvidence)
        } else {
            Ok(
                (
                    st.0.update(
                        k,
                        MatchView {
                            pack_name: st.0[k].pack_name,
                            candidate: st.0[k].candidate,
                            evidence: st.0[k].evidence.push(ev),
                        },
                    ),
                    st.1,
                ),
            )
        },
        None => if st.0.len() >= MAX_CANDIDATES_PER_DEVICE {
            Err(MatchError::TooManyCandidates)
        } else if st.1 >= MAX_TOTAL_CANDIDATES {
            Err(MatchError::TooManyTotalCandidates)
        } else {
            Ok((st.0.push(MatchView { pack_name: pack, candidate: c, evidence: seq![ev] }), st.1 + 1))
        },
    }
}

pub open spec fn evidence_for(kind: DeviceIdKind, id: String, ordinal: usize, c: Candidate) -> MatchEvidence {
    MatchEvidence { kind, device_id: id, ordinal, inf_pos: c.inf_pos }
}

/// Record the first `n` candidates of `cs`, in order.
pub open spec fn add_all(
    st: MatchState,
    pack: String,
    cs: Seq<Candidate>,
    n: int,
    kind: DeviceIdKind,
    id: String,
    ordinal: usize,
) -> Result<MatchState, MatchError>
    decreases n,
{
    if n <= 0 {
        Ok(st)
    } else {
        match add_all(st, pack, cs, n - 1, kind, id, ordinal) {
            Err(e) => Err(e),
            Ok(s2) => add_candidate(s2, pack, cs[n - 1], evidence_for(kind, id, ordinal, cs[n - 1])),
        }
    }
}

/// Look one ID up in one catalog: a bucket larger than the remaining
/// per-device budget is refused before anything is built.
pub open spec fn lookup(st: MatchState, cat: SdioCatalog, kind: DeviceIdKind, id: String, ordinal: usize) -> Result<
    MatchState,
    MatchError,
> {
    let key = unicode_upper(id@);
    let n = cat.hwid_records@.len() as int;
    let remaining = if st.0.len() >= MAX_CANDIDATES_PER_DEVICE {
        0
    } else {
        MAX_CANDIDATES_PER_DEVICE - st.0.len()
    };
    if cat.bucket_size(key, n) > remaining {
        Err(MatchError::TooManyCandidates)
    } else {
        let found = cat.found(key, n);
        add_all(st, cat.pack_name, found, found.len() as int, kind, id, ordinal)
    }
}

/// Look one ID up in the first `k` catalogs, in order.
pub open spec fn over_catalogs(
    st: MatchState,
    cats: Seq<SdioCatalog>,
    k: int,
    kind: DeviceIdKind,
    id: String,
    ordinal: usize,
) -> Result<MatchState, MatchError>
    decreases k,
{
    if k <= 0 {
        Ok(st)
    } else {
        match over_catalogs(st, cats, k - 1, kind, id, ordinal) {
            Err(e) => Err(e),
            Ok(s2) => lookup(s2, cats[k - 1], kind, id, ordinal),
        }
    }
}

/// The device's IDs in query order: hardware IDs, then compatible IDs, each
/// with its kind and its position in its own list.
pub open spec fn query_ids(d: DeviceIdentity) -> Seq<(DeviceIdKind, String, usize)> {
    Seq::new(d.hardware_ids@.len(), |i: int| (DeviceIdKind::Hardware, d.hardware_ids@[i], i as usize))
        + Seq::new(
        d.compatible_ids@.len(),
        |i: int| (DeviceIdKind::Compatible, d.compatible_ids@[i], i as usize),
    )
}

/// Query the first `n` IDs against every catalog.
pub open spec fn over_ids(
    st: MatchState,
    ids: Seq<(DeviceIdKind, String, usize)>,
    n: int,
    cats: Seq<SdioCatalog>,
) -> Result<MatchState, MatchError>
    decreases n,
{
    if n <= 0 {
        Ok(st)
    } else {
        match over_ids(st, ids, n - 1, cats) {
            Err(e) => Err(e),
            Ok(s2) => over_catalogs(
                s2,
                cats,
                cats.len() as int,
                ids[n - 1].0,
                ids[n - 1].1,
                ids[n - 1].2,
            ),
        }
    }
}

/// One device matched from batch total `total`: the device's candidates and
/// the new total, or the refusal.
pub open spec fn device_result(d: DeviceIdentity, cats: Seq<SdioCatalog>, total: nat) -> Result<
    MatchState,
    MatchError,
> {
    let n = d.hardware_ids@.len() + d.compatible_ids@.len();
    if n > MAX_IDS_PER_DEVICE {
        Err(MatchError::TooManyDeviceIds(if n > usize::MAX {
            usize::MAX
        } else {
            n as usize
        }))
    } else {
        over_ids((Seq::empty(), total), query_ids(d), query_ids(d).len() as int, cats)
    }
}

pub open spec fn all_wf(cats: Seq<SdioCatalog>) -> bool {
    forall|k: int| 0 <= k < cats.len() ==> (#[trigger] cats[k]).wf()
}

proof fn lemma_add_all_err(
    st: MatchState,
    pack: String,
    cs: Seq<Candidate>,
    i: int,
    n: int,
    kind: DeviceIdKind,
    id: String,
    ordinal: usize,
)
    requires
        0 <= i <= n,
        add_all(st, pack, cs, i, kind, id, ordinal) is Err,
    ensures
        add_all(st, pack, cs, n, kind, id, ordinal) == add_all(st, pack, cs, i, kind, id, ordinal),
    decreases n - i,
{
    if i < n {
        lemma_add_all_err(st, pack, cs, i, n - 1, kind, id, ordinal);
    }
}

proof fn lemma_over_catalogs_err(
    st: MatchState,
    cats: Seq<SdioCatalog>,
    i: int,
    n: int,
    kind: DeviceIdKind,
    id: String,
    ordinal: usize,
)
    requires
        0 <= i <= n,
        over_catalogs(st, cats, i, kind, id, ordinal) is Err,
    ensures
        over_catalogs(st, cats, n, kind, id, ordinal) == over_catalogs(st, cats, i, kind, id, ordinal),
    decreases n - i,
{
    if i < n {
        lemma_over_catalogs_err(st, cats, i, n - 1, kind, id, ordinal);
    }
}

proof fn lemma_over_ids_err(
    st: MatchState,
    ids: Seq<(DeviceIdKind, String, usize)>,
    i: int,
    n: int,
    cats: Seq<SdioCatalog>,
)
    requires
        0 <= i <= n,
        over_ids(st, ids, i, cats) is Err,
    ensures
        over_ids(st, ids, n, cats) == over_ids(st, ids, i, cats),
    decreases n - i,
{
    if i < n {
        lemma_over_ids_err(st, ids, i, n - 1, cats);
    }
}

fn same_key_exec(m: &CatalogCandidateMatch, pack: &String, c: &Candidate) -> (r: bool)
    ensures
        r == same_key(m@, *pack, *c),
{
    let ms = match (&m.candidate.models_section, &c.models_section) {
        (Some(a), Some(b)) => str_eq(a.as_str(), b.as_str()),
        (None, None) => true,
        _ => false,
    };
    str_eq(m.pack_name.as_str(), pack.as_str()) && str_eq(
        m.candidate.inf_path.as_str(),
        c.inf_path.as_str(),
    ) && str_eq(m.candidate.inf_filename.as_str(), c.inf_filename.as_str()) && str_eq(
        m.candidate.install_section.as_str(),
        c.install_section.as_str(),
    ) && str_eq(m.candidate.picked_section.as_str(), c.picked_section.as_str())
        && m.candidate.sect_pos == c.sect_pos && ms
}

fn find_key(cands: &Vec<CatalogCandidateMatch>, pack: &String, c: &Candidate) -> (r: Option<usize>)
    ensures
        r is None <==> key_index(match_views(cands@), *pack, *c, cands@.len() as int) is None,
        r matches Some(k) ==> key_index(match_views(cands@), *pack, *c, cands@.len() as int) == Some(
            k as int,
        ) && k < cands@.len(),
{
    let mut i: usize = 0;
    while i < cands.len()
        invariant
            i <= cands@.len(),
            key_index(match_views(cands@), *pack, *c, i as int) is None,
        decreases cands.len() - i,
    {
        if same_key_exec(&cands[i], pack, c) {
            proof {
                lemma_key_index_stable(match_views(cands@), *pack, *c, i + 1, cands@.len() as int);
            }
            return Some(i);
        }
        i = i + 1;
    }
    None
}

proof fn lemma_key_index_stable(cs: Seq<MatchView>, pack: String, c: Candidate, i: int, n: int)
    requires
        0 <= i <= n,
        key_index(cs, pack, c, i) is Some,
    ensures
        key_index(cs, pack, c, n) == key_index(cs, pack, c, i),
    decreases n - i,
{
    if i < n {
        lemma_key_index_stable(cs, pack, c, i, n - 1);
    }
}

proof fn lemma_key_index_range(cs: Seq<MatchView>, pack: String, c: Candidate, n: int)
    ensures
        key_index(cs, pack, c, n) matches Some(k) ==> 0 <= k < n,
    decreases n,
{
    if n > 0 {
        lemma_key_index_range(cs, pack, c, n - 1);
    }
}

pub fn copy_candidate(c: &Candidate) -> (r: Candidate)
    ensures
        r == *c,
{
    Candidate {
        inf_path: c.inf_path.clone(),
        inf_filename: c.inf_filename.clone(),
        provider: clone_opt(&c.provider),
        class: clone_opt(&c.class),
        class_guid: clone_opt(&c.class_guid),
        catalog_file: clone_opt(&c.catalog_file),
        version: c.version,
        date: c.date,
        install_section: c.install_section.clone(),
        picked_section: c.picked_section.clone(),
        sect_pos: c.sect_pos,
        models_section: clone_opt(&c.models_section),
        inf_pos: c.inf_pos,
    }
}

/// One step: record candidate `c` of pack `pack` with evidence `ev`.
fn add_candidate_exec(
    cands: &mut Vec<CatalogCandidateMatch>,
    total: &mut usize,
    pack: &String,
    c: Candidate,
    ev: MatchEvidence,
) -> (r: Result<(), MatchError>)
    requires
        *old(total) <= MAX_TOTAL_CANDIDATES,
    ensures
        match add_candidate((match_views(old(cands)@), *old(total) as nat), *pack, c, ev) {
            Err(e) => r == Err::<(), MatchError>(e),
            Ok(st) => r is Ok && match_views(final(cands)@) == st.0 && *final(total) as nat == st.1,
        },
        *final(total) <= MAX_TOTAL_CANDIDATES,
{
    proof {
        lemma_key_index_range(match_views(cands@), *pack, c, cands@.len() as int);
    }
    match find_key(cands, pack, &c) {
        Some(k) => {
            assert(match_views(cands@)[k as int] == cands@[k as int]@);
            assert(key_index(match_views(cands@), *pack, c, cands@.len() as int) == Some(k as int));
            if cands[k].evidence.len() >= MAX_EVIDENCE_PER_CANDIDATE {
                assert(match_views(cands@)[k as int].evidence.len() >= 64);
                return Err(MatchError::TooMuchEvidence);
            }
            let ghost before = match_views(cands@);
            cands[k].evidence.push(ev);
            proof {
                assert(match_views(cands@) =~= before.update(
                    k as int,
                    MatchView {
                        pack_name: before[k as int].pack_name,
                        candidate: before[k as int].candidate,
                        evidence: before[k as int].evidence.push(ev),
                    },
                ));
            }
            Ok(())
        },
        None => {
            if cands.len() >= MAX_CANDIDATES_PER_DEVICE {
                return Err(MatchError::TooManyCandidates);
            }
            if *total >= MAX_TOTAL_CANDIDATES {
                return Err(MatchError::TooManyTotalCandidates);
            }
            let ghost before = match_views(cands@);
            let ghost evs = seq![ev];
            let mut evidence: Vec<MatchEvidence> = Vec::new();
            evidence.push(ev);
            proof {
                assert(evidence@ =~= evs);
            }
            cands.push(CatalogCandidateMatch { pack_name: pack.clone(), candidate: c, evidence });
            proof {
                assert(match_views(cands@) =~= before.push(
                    MatchView { pack_name: *pack, candidate: c, evidence: evs },
                ));
            }
            *total = *total + 1;
            Ok(())
        },
    }
}

/// Look one ID up in one catalog and record what it finds.
#[verifier::loop_isolation(false)]
fn lookup_exec(
    cands: &mut Vec<CatalogCandidateMatch>,
    total: &mut usize,
    cat: &SdioCatalog,
    kind: DeviceIdKind,
    id: &String,
    ordinal: usize,
) -> (r: Result<(), MatchError>)
    requires
        cat.wf(),
        *old(total) <= MAX_TOTAL_CANDIDATES,
    ensures
        match lookup((match_views(old(cands)@), *old(total) as nat), *cat, kind, *id, ordinal) {
            Err(e) => r == Err::<(), MatchError>(e),
            Ok(st) => r is Ok && match_views(final(cands)@) == st.0 && *final(total) as nat == st.1,
        },
        *final(total) <= MAX_TOTAL_CANDIDATES,
{
    let remaining = if cands.len() >= MAX_CANDIDATES_PER_DEVICE {
        0
    } else {
        MAX_CANDIDATES_PER_DEVICE - cands.len()
    };
    let found = match cat.find_by_hwid_bounded(id.as_str(), remaining) {
        Ok(f) => f,
        Err(SdioError::LookupBucketTooLarge { .. }) => {
            return Err(MatchError::TooManyCandidates);
        },
        Err(e) => {
            return Err(MatchError::Catalog(e));
        },
    };
    let ghost st0 = (match_views(cands@), *total as nat);
    let mut i: usize = 0;
    while i < found.len()
        invariant
            i <= found@.len(),
            *total <= MAX_TOTAL_CANDIDATES,
            add_all(st0, cat.pack_name, found@, i as int, kind, *id, ordinal) == Ok::<
                MatchState,
                MatchError,
            >((match_views(cands@), *total as nat)),
        decreases found.len() - i,
    {
        let c = copy_candidate(&found[i]);
        let ev = MatchEvidence { kind, device_id: id.clone(), ordinal, inf_pos: c.inf_pos };
        match add_candidate_exec(cands, total, &cat.pack_name, c, ev) {
            Err(e) => {
                proof {
                    lemma_add_all_err(
                        st0,
                        cat.pack_name,
                        found@,
                        i + 1,
                        found@.len() as int,
                        kind,
                        *id,
                        ordinal,
                    );
                }
                return Err(e);
            },
            Ok(()) => {},
        }
        i = i + 1;
    }
    Ok(())
}

/// Match one device's ordered IDs against the catalogs, advancing the
/// batch-wide candidate total.
#[verifier::loop_isolation(false)]
fn match_one(total: &mut usize, device: &DeviceIdentity, catalogs: &[SdioCatalog]) -> (r: Result<
    DeviceCatalogMatches,
    MatchError,
>)
    requires
        all_wf(catalogs@),
        *old(total) <= MAX_TOTAL_CANDIDATES,
    ensures
        match device_result(*device, catalogs@, *old(total) as nat) {
            Err(e) => r == Err::<DeviceCatalogMatches, MatchError>(e),
            Ok(st) => r matches Ok(m) && m.instance_id == device.instance_id && match_views(
                m.candidates@,
            ) == st.0 && *final(total) as nat == st.1,
        },
        *final(total) <= MAX_TOTAL_CANDIDATES,
{
    let nh = device.hardware_ids.len();
    let nc = device.compatible_ids.len();
    let id_count = if nh > usize::MAX - nc {
        usize::MAX
    } else {
        nh + nc
    };
    if id_count > MAX_IDS_PER_DEVICE {
        return Err(MatchError::TooManyDeviceIds(id_count));
    }
    let ghost ids = query_ids(*device);
    let ghost st0: MatchState = (Seq::empty(), *total as nat);
    let mut cands: Vec<CatalogCandidateMatch> = Vec::new();
    proof {
        assert(match_views(cands@) =~= Seq::<MatchView>::empty());
    }
    let mut q: usize = 0;
    while q < nh + nc
        invariant
            q <= nh + nc,
            nh == device.hardware_ids@.len(),
            nc == device.compatible_ids@.len(),
            ids == query_ids(*device),
            ids.len() == nh + nc,
            nh + nc <= MAX_IDS_PER_DEVICE,
            all_wf(catalogs@),
            *total <= MAX_TOTAL_CANDIDATES,
            over_ids(st0, ids, q as int, catalogs@) == Ok::<MatchState, MatchError>(
                (match_views(cands@), *total as nat),
            ),
        decreases nh + nc - q,
    {
        let (kind, id, ordinal) = if q < nh {
            (DeviceIdKind::Hardware, &device.hardware_ids[q], q)
        } else {
            (DeviceIdKind::Compatible, &device.compatible_ids[q - nh], q - nh)
        };
        assert(ids[q as int] == (kind, *id, ordinal));
        let ghost st1 = (match_views(cands@), *total as nat);
        let mut k: usize = 0;
        while k < catalogs.len()
            invariant
                k <= catalogs@.len(),
                all_wf(catalogs@),
                *total <= MAX_TOTAL_CANDIDATES,
                over_catalogs(st1, catalogs@, k as int, kind, *id, ordinal) == Ok::<
                    MatchState,
                    MatchError,
                >((match_views(cands@), *total as nat)),
            decreases catalogs.len() - k,
        {
            assert(catalogs@[k as int].wf());
            match lookup_exec(&mut cands, total, &catalogs[k], kind, id, ordinal) {
                Err(e) => {
                    proof {
                        lemma_over_catalogs_err(
                            st1,
                            catalogs@,
                            k + 1,
                            catalogs@.len() as int,
                            kind,
                            *id,
                            ordinal,
                        );
                        assert(over_ids(st0, ids, q + 1, catalogs@) == over_catalogs(
                            st1,
                            catalogs@,
                            catalogs@.len() as int,
                            kind,
                            *id,
                            ordinal,
                        ));
                        lemma_over_ids_err(st0, ids, q + 1, ids.len() as int, catalogs@);
                    }
                    return Err(e);
                },
                Ok(()) => {},
            }
            k = k + 1;
        }
        proof {
            assert(over_ids(st0, ids, q + 1, catalogs@) == over_catalogs(
                st1,
                catalogs@,
                catalogs@.len() as int,
                kind,
                *id,
                ordinal,
            ));
        }
        q = q + 1;
    }
    Ok(DeviceCatalogMatches { instance_id: device.instance_id.clone(), candidates: cands })
}

/// Match one device against the catalogs (catalog-count bound first).
pub fn match_device_to_catalogs(device: &DeviceIdentity, catalogs: &[SdioCatalog]) -> (r: Result<
    DeviceCatalogMatches,
    MatchError,
>)
    requires
        all_wf(catalogs@),
    ensures
        catalogs@.len() > MAX_CATALOGS_PER_MATCH ==> r == Err::<DeviceCatalogMatches, MatchError>(
            MatchError::TooManyCatalogs(catalogs@.len() as usize),
        ),
        catalogs@.len() <= MAX_CATALOGS_PER_MATCH ==> match device_result(*device, catalogs@, 0) {
            Err(e) => r == Err::<DeviceCatalogMatches, MatchError>(e),
            Ok(st) => r matches Ok(m) && m.instance_id == device.instance_id && match_views(
                m.candidates@,
            ) == st.0,
        },
{
    if catalogs.len() > MAX_CATALOGS_PER_MATCH {
        return Err(MatchError::TooManyCatalogs(catalogs.len()));
    }
    let mut total: usize = 0;
    match_one(&mut total, device, catalogs)
}

/// Results of devices `0..n` sharing one batch total, or the first refusal.
pub open spec fn batch_result(devices: Seq<DeviceIdentity>, cats: Seq<SdioCatalog>, n: int) -> Result<
    (Seq<Seq<MatchView>>, nat),
    MatchError,
>
    decreases n,
{
    if n <= 0 {
        Ok((Seq::empty(), 0))
    } else {
        match batch_result(devices, cats, n - 1) {
            Err(e) => Err(e),
            Ok((done, total)) => match device_result(devices[n - 1], cats, total) {
                Err(e) => Err(e),
                Ok(st) => Ok((done.push(st.0), st.1)),
            },
        }
    }
}

proof fn lemma_batch_err(devices: Seq<DeviceIdentity>, cats: Seq<SdioCatalog>, i: int, n: int)
    requires
        0 <= i <= n,
        batch_result(devices, cats, i) is Err,
    ensures
        batch_result(devices, cats, n) == batch_result(devices, cats, i),
    decreases n - i,
{
    if i < n {
        lemma_batch_err(devices, cats, i, n - 1);
    }
}

/// Match many devices: one result per input device, in input order, with one
/// batch-wide candidate budget.
#[verifier::loop_isolation(false)]
pub fn match_devices_to_catalogs(devices: &[DeviceIdentity], catalogs: &[SdioCatalog]) -> (r: Result<
    Vec<DeviceCatalogMatches>,
    MatchError,
>)
    requires
        all_wf(catalogs@),
    ensures
        devices@.len() > MAX_DEVICES_PER_MATCH ==> r == Err::<Vec<DeviceCatalogMatches>, MatchError>(
            MatchError::TooManyDevices(devices@.len() as usize),
        ),
        devices@.len() <= MAX_DEVICES_PER_MATCH && catalogs@.len() > MAX_CATALOGS_PER_MATCH ==> r
            == Err::<Vec<DeviceCatalogMatches>, MatchError>(
            MatchError::TooManyCatalogs(catalogs@.len() as usize),
        ),
        devices@.len() <= MAX_DEVICES_PER_MATCH && catalogs@.len() <= MAX_CATALOGS_PER_MATCH
            ==> match batch_result(devices@, catalogs@, devices@.len() as int) {
            Err(e) => r == Err::<Vec<DeviceCatalogMatches>, MatchError>(e),
            Ok((all, _)) => r matches Ok(v) && v@.len() == devices@.len() && forall|i: int|
                0 <= i < v@.len() ==> (#[trigger] v@[i]).instance_id == devices@[i].instance_id
                    && match_views(v@[i].candidates@) == all[i],
        },
        r matches Ok(v) ==> {
            &&& forall|i: int|
                0 <= i < v@.len() ==> device_result(devices@[i], catalogs@, 0) == Ok::<
                    MatchState,
                    MatchError,
                >(
                    (
                        match_views((#[trigger] v@[i]).candidates@),
                        match_views(v@[i].candidates@).len(),
                    ),
                )
            &&& total_candidates(Seq::new(v@.len(), |i: int| match_views(v@[i].candidates@)))
                <= MAX_TOTAL_CANDIDATES
        },
{
    if devices.len() > MAX_DEVICES_PER_MATCH {
        return Err(MatchError::TooManyDevices(devices.len()));
    }
    if catalogs.len() > MAX_CATALOGS_PER_MATCH {
        return Err(MatchError::TooManyCatalogs(catalogs.len()));
    }
    let mut out: Vec<DeviceCatalogMatches> = Vec::new();
    let mut total: usize = 0;
    let mut i: usize = 0;
    while i < devices.len()
        invariant
            i <= devices@.len(),
            all_wf(catalogs@),
            total <= MAX_TOTAL_CANDIDATES,
            batch_result(devices@, catalogs@, i as int) matches Ok((all, t)) && t == total as nat
                && all.len() == i && out@.len() == i && forall|j: int|
                0 <= j < i ==> (#[trigger] out@[j]).instance_id == devices@[j].instance_id
                    && match_views(out@[j].candidates@) == all[j],
        decreases devices.len() - i,
    {
        match match_one(&mut total, &devices[i], catalogs) {
            Err(e) => {
                proof {
                    lemma_batch_err(devices@, catalogs@, i + 1, devices@.len() as int);
                }
                return Err(e);
            },
            Ok(m) => {
                out.push(m);
            },
        }
        i = i + 1;
    }
    proof {
        batch_matches_each_device_alone(devices@, catalogs@, devices@.len() as int);
        let all = batch_result(devices@, catalogs@, devices@.len() as int)->Ok_0.0;
        assert(all =~= Seq::new(out@.len(), |i: int| match_views(out@[i].candidates@)));
    }
    Ok(out)
}

// ---------------------------------------------------------------------------
// Laws
// ---------------------------------------------------------------------------

/// A device's candidates: no two with the same identity, each with between
/// one and the bounded number of evidence records, within the per-device
/// bound.
pub open spec fn candidates_ok(cs: Seq<MatchView>) -> bool {
    &&& cs.len() <= MAX_CANDIDATES_PER_DEVICE
    &&& forall|i: int|
        0 <= i < cs.len() ==> 1 <= (#[trigger] cs[i]).evidence.len() <= MAX_EVIDENCE_PER_CANDIDATE
    &&& forall|i: int, j: int|
        0 <= i < j < cs.len() ==> !same_key(#[trigger] cs[j], cs[i].pack_name, #[trigger] cs[i].candidate)
}

proof fn lemma_key_index_none(cs: Seq<MatchView>, pack: String, c: Candidate, n: int)
    requires
        0 <= n <= cs.len(),
        key_index(cs, pack, c, n) is None,
    ensures
        forall|i: int| 0 <= i < n ==> !same_key(#[trigger] cs[i], pack, c),
    decreases n,
{
    if n > 0 {
        lemma_key_index_none(cs, pack, c, n - 1);
    }
}

proof fn lemma_key_index_some(cs: Seq<MatchView>, pack: String, c: Candidate, n: int)
    requires
        0 <= n <= cs.len(),
    ensures
        key_index(cs, pack, c, n) matches Some(k) ==> 0 <= k < n && same_key(cs[k], pack, c),
    decreases n,
{
    if n > 0 {
        lemma_key_index_some(cs, pack, c, n - 1);
    }
}

proof fn lemma_add_candidate_ok(st: MatchState, pack: String, c: Candidate, ev: MatchEvidence)
    requires
        candidates_ok(st.0),
    ensures
        add_candidate(st, pack, c, ev) matches Ok(s2) ==> candidates_ok(s2.0) && s2.1 >= st.1,
{
    lemma_key_index_some(st.0, pack, c, st.0.len() as int);
    match key_index(st.0, pack, c, st.0.len() as int) {
        Some(k) => {
            if let Ok(s2) = add_candidate(st, pack, c, ev) {
                assert forall|i: int, j: int| 0 <= i < j < s2.0.len() implies !same_key(
                    #[trigger] s2.0[j],
                    s2.0[i].pack_name,
                    #[trigger] s2.0[i].candidate,
                ) by {
                    assert(s2.0[j].pack_name == st.0[j].pack_name);
                    assert(s2.0[j].candidate == st.0[j].candidate);
                    assert(s2.0[i].pack_name == st.0[i].pack_name);
                    assert(s2.0[i].candidate == st.0[i].candidate);
                    assert(!same_key(st.0[j], st.0[i].pack_name, st.0[i].candidate));
                }
                assert forall|i: int| 0 <= i < s2.0.len() implies 1 <= (
                #[trigger] s2.0[i]).evidence.len() <= MAX_EVIDENCE_PER_CANDIDATE by {
                    if i != k {
                        assert(s2.0[i] == st.0[i]);
                    }
                }
            }
        },
        None => {
            lemma_key_index_none(st.0, pack, c, st.0.len() as int);
            if let Ok(s2) = add_candidate(st, pack, c, ev) {
                let m = MatchView { pack_name: pack, candidate: c, evidence: seq![ev] };
                assert(s2.0 == st.0.push(m));
                assert forall|i: int, j: int| 0 <= i < j < s2.0.len() implies !same_key(
                    #[trigger] s2.0[j],
                    s2.0[i].pack_name,
                    #[trigger] s2.0[i].candidate,
                ) by {
                    if j == s2.0.len() - 1 {
                        assert(s2.0[i] == st.0[i]);
                        assert(!same_key(st.0[i], pack, c));
                    } else {
                        assert(s2.0[i] == st.0[i]);
                        assert(s2.0[j] == st.0[j]);
                    }
                }
                assert forall|i: int| 0 <= i < s2.0.len() implies 1 <= (
                #[trigger] s2.0[i]).evidence.len() <= MAX_EVIDENCE_PER_CANDIDATE by {
                    if i < st.0.len() {
                        assert(s2.0[i] == st.0[i]);
                    }
                }
            }
        },
    }
}

proof fn lemma_add_all_ok(
    st: MatchState,
    pack: String,
    cs: Seq<Candidate>,
    n: int,
    kind: DeviceIdKind,
    id: String,
    ordinal: usize,
)
    requires
        candidates_ok(st.0),
    ensures
        add_all(st, pack, cs, n, kind, id, ordinal) matches Ok(s2) ==> candidates_ok(s2.0),
    decreases n,
{
    if n > 0 {
        lemma_add_all_ok(st, pack, cs, n - 1, kind, id, ordinal);
        if let Ok(s1) = add_all(st, pack, cs, n - 1, kind, id, ordinal) {
            lemma_add_candidate_ok(s1, pack, cs[n - 1], evidence_for(kind, id, ordinal, cs[n - 1]));
        }
    }
}

proof fn lemma_over_catalogs_ok(
    st: MatchState,
    cats: Seq<SdioCatalog>,
    k: int,
    kind: DeviceIdKind,
    id: String,
    ordinal: usize,
)
    requires
        candidates_ok(st.0),
    ensures
        over_catalogs(st, cats, k, kind, id, ordinal) matches Ok(s2) ==> candidates_ok(s2.0),
    decreases k,
{
    if k > 0 {
        lemma_over_catalogs_ok(st, cats, k - 1, kind, id, ordinal);
        if let Ok(s1) = over_catalogs(st, cats, k - 1, kind, id, ordinal) {
            let cat = cats[k - 1];
            let found = cat.found(unicode_upper(id@), cat.hwid_records@.len() as int);
            lemma_add_all_ok(s1, cat.pack_name, found, found.len() as int, kind, id, ordinal);
        }
    }
}

proof fn lemma_over_ids_ok(
    st: MatchState,
    ids: Seq<(DeviceIdKind, String, usize)>,
    n: int,
    cats: Seq<SdioCatalog>,
)
    requires
        candidates_ok(st.0),
    ensures
        over_ids(st, ids, n, cats) matches Ok(s2) ==> candidates_ok(s2.0),
    decreases n,
{
    if n > 0 {
        lemma_over_ids_ok(st, ids, n - 1, cats);
        if let Ok(s1) = over_ids(st, ids, n - 1, cats) {
            lemma_over_catalogs_ok(s1, cats, cats.len() as int, ids[n - 1].0, ids[n - 1].1, ids[n - 1].2);
        }
    }
}

/// Whatever catalogs a device is matched against, its candidates are
/// deduplicated by identity: each identity appears once, with between one
/// and the bounded number of evidence records, and the device never holds
/// more than the per-device bound.
pub proof fn device_candidates_are_unique(d: DeviceIdentity, cats: Seq<SdioCatalog>, total: nat)
    ensures
        device_result(d, cats, total) matches Ok(st) ==> candidates_ok(st.0),
{
    let ids = query_ids(d);
    lemma_over_ids_ok((Seq::empty(), total), ids, ids.len() as int, cats);
}


// ---------------------------------------------------------------------------
// The batch total only bounds
// ---------------------------------------------------------------------------

/// A matching step that succeeds from total `t` grows the total by exactly
/// the candidates it appends, keeps it within the batch bound when it
/// started there, and succeeds the same way from any smaller total.
pub open spec fn shifts(st: MatchState, out: Result<MatchState, MatchError>, t0: nat, out0: Result<
    MatchState,
    MatchError,
>) -> bool {
    out matches Ok(s2) ==> {
        &&& s2.0.len() >= st.0.len()
        &&& s2.1 == st.1 + (s2.0.len() - st.0.len())
        &&& st.1 <= MAX_TOTAL_CANDIDATES ==> s2.1 <= MAX_TOTAL_CANDIDATES
        &&& t0 <= st.1 ==> out0 == Ok::<MatchState, MatchError>(
            (s2.0, (t0 + (s2.0.len() - st.0.len())) as nat),
        )
    }
}

proof fn lemma_add_all_shift(
    st: MatchState,
    t0: nat,
    pack: String,
    cs: Seq<Candidate>,
    n: int,
    kind: DeviceIdKind,
    id: String,
    ordinal: usize,
)
    ensures
        shifts(
            st,
            add_all(st, pack, cs, n, kind, id, ordinal),
            t0,
            add_all((st.0, t0), pack, cs, n, kind, id, ordinal),
        ),
    decreases n,
{
    if n > 0 {
        lemma_add_all_shift(st, t0, pack, cs, n - 1, kind, id, ordinal);
        if let Ok(s1) = add_all(st, pack, cs, n - 1, kind, id, ordinal) {
            let ev = evidence_for(kind, id, ordinal, cs[n - 1]);
            let s1b: MatchState = (s1.0, (t0 + (s1.0.len() - st.0.len())) as nat);
            lemma_add_candidate_shift(s1, t0 + (s1.0.len() - st.0.len()), pack, cs[n - 1], ev);
            if let Ok(s2) = add_candidate(s1, pack, cs[n - 1], ev) {
                if t0 <= st.1 {
                    assert(add_all((st.0, t0), pack, cs, n - 1, kind, id, ordinal) == Ok::<
                        MatchState,
                        MatchError,
                    >(s1b));
                }
            }
        }
    }
}

proof fn lemma_add_candidate_shift(st: MatchState, t0: int, pack: String, c: Candidate, ev: MatchEvidence)
    requires
        t0 >= 0,
    ensures
        shifts(st, add_candidate(st, pack, c, ev), t0 as nat, add_candidate((st.0, t0 as nat), pack, c, ev)),
{
    lemma_key_index_range(st.0, pack, c, st.0.len() as int);
}

proof fn lemma_over_catalogs_shift(
    st: MatchState,
    t0: nat,
    cats: Seq<SdioCatalog>,
    k: int,
    kind: DeviceIdKind,
    id: String,
    ordinal: usize,
)
    ensures
        shifts(
            st,
            over_catalogs(st, cats, k, kind, id, ordinal),
            t0,
            over_catalogs((st.0, t0), cats, k, kind, id, ordinal),
        ),
    decreases k,
{
    if k > 0 {
        lemma_over_catalogs_shift(st, t0, cats, k - 1, kind, id, ordinal);
        if let Ok(s1) = over_catalogs(st, cats, k - 1, kind, id, ordinal) {
            let cat = cats[k - 1];
            let key = unicode_upper(id@);
            let found = cat.found(key, cat.hwid_records@.len() as int);
            lemma_add_all_shift(s1, (t0 + (s1.0.len() - st.0.len())) as nat, cat.pack_name, found,
                found.len() as int, kind, id, ordinal);
        }
    }
}

proof fn lemma_over_ids_shift(
    st: MatchState,
    t0: nat,
    ids: Seq<(DeviceIdKind, String, usize)>,
    n: int,
    cats: Seq<SdioCatalog>,
)
    ensures
        shifts(st, over_ids(st, ids, n, cats), t0, over_ids((st.0, t0), ids, n, cats)),
    decreases n,
{
    if n > 0 {
        lemma_over_ids_shift(st, t0, ids, n - 1, cats);
        if let Ok(s1) = over_ids(st, ids, n - 1, cats) {
            lemma_over_catalogs_shift(s1, (t0 + (s1.0.len() - st.0.len())) as nat, cats,
                cats.len() as int, ids[n - 1].0, ids[n - 1].1, ids[n - 1].2);
        }
    }
}

/// The number of candidates over all devices of a batch.
pub open spec fn total_candidates(all: Seq<Seq<MatchView>>) -> nat
    decreases all.len(),
{
    if all.len() == 0 {
        0
    } else {
        total_candidates(all.drop_last()) + all.last().len()
    }
}

/// A batch that matches gives each device exactly the candidates it gets
/// when matched alone, in input order, and its total is the number of
/// candidates over all devices, within the batch bound.
pub proof fn batch_matches_each_device_alone(devices: Seq<DeviceIdentity>, cats: Seq<SdioCatalog>, n: int)
    requires
        0 <= n <= devices.len(),
        batch_result(devices, cats, n) is Ok,
    ensures
        batch_result(devices, cats, n) matches Ok((all, total)) && {
            &&& all.len() == n
            &&& total == total_candidates(all)
            &&& total <= MAX_TOTAL_CANDIDATES
            &&& forall|i: int|
                0 <= i < n ==> device_result(devices[i], cats, 0) == Ok::<MatchState, MatchError>(
                    (#[trigger] all[i], all[i].len()),
                )
        },
    decreases n,
{
    if n > 0 {
        batch_matches_each_device_alone(devices, cats, n - 1);
        let (done, total) = batch_result(devices, cats, n - 1)->Ok_0;
        let d = devices[n - 1];
        let ids = query_ids(d);
        lemma_over_ids_shift((Seq::empty(), total), 0, ids, ids.len() as int, cats);
        let (all, t2) = batch_result(devices, cats, n)->Ok_0;
        assert(all.drop_last() =~= done);
        assert forall|i: int| 0 <= i < n implies device_result(devices[i], cats, 0) == Ok::<
            MatchState,
            MatchError,
        >((#[trigger] all[i], all[i].len())) by {
            if i < n - 1 {
                assert(all[i] == done[i]);
            }
        }
    }
}


// ---------------------------------------------------------------------------
// Matching against index files
// ---------------------------------------------------------------------------

/// What parsing index file `data` of pack `name` gives: the decoded records,
/// or the refusal (`SdioCatalog::parse_bytes` answers exactly this).
#[verifier::opaque]
pub open spec fn index_parse(data: Seq<u8>, name: Seq<char>) -> Result<PayloadView, Refusal> {
    if blen(name) > MAX_PACK_FILENAME_LEN {
        Err(Refusal::Error(SdioError::StringTooLong(0, MAX_PACK_FILENAME_LEN)))
    } else {
        match container_refusal(data) {
            Some(e) => Err(Refusal::Error(e)),
            None => match decompress_spec(data.skip(8)) {
                Err(e) => Err(e),
                Ok(payload) => match payload_spec(payload) {
                    Err(e) => Err(Refusal::Error(e)),
                    Ok(v) => Ok(v),
                },
            },
        }
    }
}

/// The matches of a batch of devices against parsed catalogs, as
/// `match_devices_to_catalogs` answers: the device and catalog limits, then
/// each device's candidates in order, or the first refusal.
pub open spec fn batch_outcome(devices: Seq<DeviceIdentity>, cats: Seq<SdioCatalog>) -> Result<
    Seq<Seq<MatchView>>,
    MatchError,
> {
    if devices.len() > MAX_DEVICES_PER_MATCH {
        Err(MatchError::TooManyDevices(devices.len() as usize))
    } else if cats.len() > MAX_CATALOGS_PER_MATCH {
        Err(MatchError::TooManyCatalogs(cats.len() as usize))
    } else {
        match batch_result(devices, cats, devices.len() as int) {
            Err(e) => Err(e),
            Ok((all, _)) => Ok(all),
        }
    }
}

/// Why matching devices against index files gave no result.
#[derive(Debug, Clone, PartialEq, Eq)]
pub enum IndexMatchError {
    /// Index file `index` (in input order) was refused.
    Index { index: usize, error: SdioError },
    /// The matching itself was refused.
    Match(MatchError),
}

/// `SdioCatalog::parse_bytes` on one index file, as `index_parse` says.
#[verifier::rlimit(50)]
fn parse_index(data: &[u8], name: &str) -> (r: Result<SdioCatalog, SdioError>)
    ensures
        match index_parse(data@, name@) {
            Ok(v) => r matches Ok(c) && c.holds(name@, v),
            Err(e) => r matches Err(x) && same_error(x, e),
        },
{
    proof {
        reveal(index_parse);
    }
    SdioCatalog::parse_bytes(data, owned(name))
}

/// Match devices against SDIO index files given as bytes with their pack
/// names: every index is parsed, in order, and the first refused one ends
/// the run; the parsed catalogs are then matched as
/// `match_devices_to_catalogs` does.
pub fn match_devices_to_indexes(indexes: &[(Vec<u8>, String)], devices: &[DeviceIdentity]) -> (r: Result<
    Vec<DeviceCatalogMatches>,
    IndexMatchError,
>)
    ensures
        r matches Err(IndexMatchError::Index { index, error }) ==> {
            &&& index < indexes@.len()
            &&& forall|j: int| 0 <= j < index ==> index_parse(indexes@[j].0@, indexes@[j].1@) is Ok
            &&& index_parse(indexes@[index as int].0@, indexes@[index as int].1@) matches Err(e)
                && same_error(error, e)
        },
        (exists|i: int| 0 <= i < indexes@.len() && index_parse(indexes@[i].0@, indexes@[i].1@) is Err)
            ==> r matches Err(IndexMatchError::Index { .. }),
        (forall|i: int| 0 <= i < indexes@.len() ==> index_parse(indexes@[i].0@, indexes@[i].1@) is Ok)
            ==> exists|cats: Seq<SdioCatalog>|
            #![trigger batch_outcome(devices@, cats)]
            {
                &&& cats.len() == indexes@.len()
                &&& forall|i: int|
                    0 <= i < indexes@.len() ==> (#[trigger] cats[i]).holds(
                        indexes@[i].1@,
                        index_parse(indexes@[i].0@, indexes@[i].1@)->Ok_0,
                    )
                &&& match batch_outcome(devices@, cats) {
                    Err(e) => r matches Err(IndexMatchError::Match(x)) && x == e,
                    Ok(all) => r matches Ok(v) && v@.len() == devices@.len() && forall|i: int|
                        0 <= i < v@.len() ==> (#[trigger] v@[i]).instance_id == devices@[i].instance_id
                            && match_views(v@[i].candidates@) == all[i],
                }
            },
{
    let mut cats: Vec<SdioCatalog> = Vec::new();
    let mut i: usize = 0;
    while i < indexes.len()
        invariant
            i <= indexes@.len(),
            cats@.len() == i,
            forall|j: int| 0 <= j < i ==> (#[trigger] index_parse(indexes@[j].0@, indexes@[j].1@)) is Ok,
            forall|j: int|
                0 <= j < i ==> (#[trigger] cats@[j]).holds(
                    indexes@[j].1@,
                    index_parse(indexes@[j].0@, indexes@[j].1@)->Ok_0,
                ),
        decreases indexes.len() - i,
    {
        let (data, name) = &indexes[i];
        proof {
            assert(data@ == indexes@[i as int].0@);
            assert(name@ == indexes@[i as int].1@);
        }
        match parse_index(data.as_slice(), name.as_str()) {
            Err(e) => {
                proof {
                    assert(index_parse(indexes@[i as int].0@, indexes@[i as int].1@) is Err);
                }
                return Err(IndexMatchError::Index { index: i, error: e });
            },
            Ok(c) => {
                let ghost before = cats@;
                cats.push(c);
                proof {
                    assert forall|j: int| 0 <= j < i + 1 implies (#[trigger] cats@[j]).holds(
                        indexes@[j].1@,
                        index_parse(indexes@[j].0@, indexes@[j].1@)->Ok_0,
                    ) by {
                        if j < i {
                            assert(cats@[j] == before[j]);
                        }
                    }
                }
            },
        }
        i = i + 1;
    }
    proof {
        assert forall|k: int| 0 <= k < cats@.len() implies (#[trigger] cats@[k]).wf() by {
            assert(cats@[k].holds(indexes@[k].1@, index_parse(indexes@[k].0@, indexes@[k].1@)->Ok_0));
        }
    }
    let r = match match_devices_to_catalogs(devices, cats.as_slice()) {
        Err(e) => Err(IndexMatchError::Match(e)),
        Ok(v) => Ok(v),
    };
    proof {
        let cs = cats@;
        assert(batch_outcome(devices@, cs) == batch_outcome(devices@, cats@));
    }
    r
}

} // verus!
