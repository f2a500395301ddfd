//! Payload inventory: the archive members a verified INF's source
//! references name, and the content fingerprints recorded for them.
//!
//! Every source path is revalidated and composed against the verified INF
//! member's directory before anything is read; the inventory is all or
//! nothing, and it borrows the verified package so it cannot outlive it.
//! Reading and hashing the pack is I/O and happens outside the library; its
//! outcome is handed to the functions here.
use vstd::prelude::*;
use crate::text::{append_str, before_first, before_first_vec, blen, byte_len_exceeds, char_width_of, chars_of, eq_ic, has_char, is_ascii, is_ascii_char, is_ascii_seq, is_ascii_whitespace, is_ascii_ws, lemma_blen_push, owned, pieces, slice_vec, split_char, split_vec, str_eq_ignore_case, string_of};
use crate::drivers::sdio::extraction::{ExtractionError, accumulate_payload_bytes, accumulate_payload_decode_bytes, charge_runtime_payload_bytes, payload_size_within_cap};
use crate::drivers::sdio::install_plan::{VerifiedDriverPackage};
use crate::drivers::sdio::local_pack::{MAX_ARCHIVE_COMPONENT_LEN, MAX_ARCHIVE_MEMBER_COMPONENTS, MAX_ARCHIVE_MEMBER_LEN, control_char, forbidden_char, has_forbidden_or_control, is_reserved_stem, reserved_names, stem_is_reserved};

verus! {

/// Most payloads one inventory may describe.
pub const MAX_PAYLOAD_FILES: usize = 1024;
/// Largest single payload, by declared and decoded length.
pub const MAX_PAYLOAD_FILE_BYTES: u64 = 536_870_912;
/// Largest aggregate of the requested payloads themselves.
pub const MAX_PAYLOAD_TOTAL_BYTES: u64 = 4_294_967_296;
/// Largest aggregate decode cost, solid prerequisites included.
pub const MAX_PAYLOAD_TOTAL_DECODE_BYTES: u64 = 8_589_934_592;
/// Largest total of the path text an inventory retains.
pub const MAX_PAYLOAD_RETAINED_PATH_BYTES: usize = 8_388_608;

/// Why no payload inventory was produced. `index` is the position of the
/// failing source reference.
#[derive(Debug, Clone, PartialEq, Eq)]
pub enum PayloadInventoryError {
    /// Re-attesting the verified package failed (the failure's text).
    Attestation(String),
    PackChangedSinceVerification,
    UnsafeSourcePath { index: usize },
    NoSourceReferences,
    TooManyPayloads,
    ExpectedMemberTooLong,
    RetainedPathBudgetExceeded,
    DuplicateExpectedMember,
    PayloadMemberMissing { index: usize },
    PayloadMemberAmbiguous { index: usize, matches: usize },
    PayloadNotRegularFile { index: usize },
    PayloadTooLarge { index: usize },
    PayloadTotalBytesExceeded,
    PayloadDecodeBudgetExceeded,
    Archive(ExtractionError),
}

/// The archive layer's payload refusals keep their meaning; every other
/// archive error stays an archive error.
pub open spec fn from_extraction_spec(e: ExtractionError) -> PayloadInventoryError {
    match e {
        ExtractionError::PayloadMemberMissing { index } => PayloadInventoryError::PayloadMemberMissing {
            index,
        },
        ExtractionError::PayloadMemberAmbiguous { index, matches } => PayloadInventoryError::PayloadMemberAmbiguous { index, matches },
        ExtractionError::PayloadNotRegularFile { index } => PayloadInventoryError::PayloadNotRegularFile { index },
        ExtractionError::PayloadTooLarge { index } => PayloadInventoryError::PayloadTooLarge { index },
        ExtractionError::PayloadTotalBytesExceeded => PayloadInventoryError::PayloadTotalBytesExceeded,
        ExtractionError::PayloadDecodeBudgetExceeded => PayloadInventoryError::PayloadDecodeBudgetExceeded,
        other => PayloadInventoryError::Archive(other),
    }
}

impl PayloadInventoryError {
    /// The inventory error for an archive-layer error.
    pub fn from_extraction(e: ExtractionError) -> (r: PayloadInventoryError)
        ensures
            r == from_extraction_spec(e),
    {
        match e {
            ExtractionError::PayloadMemberMissing { index } => PayloadInventoryError::PayloadMemberMissing {
                index,
            },
            ExtractionError::PayloadMemberAmbiguous { index, matches } => PayloadInventoryError::PayloadMemberAmbiguous { index, matches },
            ExtractionError::PayloadNotRegularFile { index } => PayloadInventoryError::PayloadNotRegularFile { index },
            ExtractionError::PayloadTooLarge { index } => PayloadInventoryError::PayloadTooLarge {
                index,
            },
            ExtractionError::PayloadTotalBytesExceeded => PayloadInventoryError::PayloadTotalBytesExceeded,
            ExtractionError::PayloadDecodeBudgetExceeded => PayloadInventoryError::PayloadDecodeBudgetExceeded,
            other => PayloadInventoryError::Archive(other),
        }
    }
}

fn lift<T>(r: Result<T, ExtractionError>) -> (o: Result<T, PayloadInventoryError>)
    ensures
        match r {
            Ok(v) => o == Ok::<T, PayloadInventoryError>(v),
            Err(e) => o == Err::<T, PayloadInventoryError>(from_extraction_spec(e)),
        },
{
    match r {
        Ok(v) => Ok(v),
        Err(e) => Err(PayloadInventoryError::from_extraction(e)),
    }
}

// ---------------------------------------------------------------------------
// Domain
// ---------------------------------------------------------------------------

/// One payload's content identity: decoded length and SHA-256 of the bytes
/// decoded now. Not a signature, not authenticity.
#[derive(Debug, Clone, PartialEq, Eq)]
pub struct PayloadFingerprint {
    size_bytes: u64,
    sha256: [u8; 32],
}

impl PayloadFingerprint {
    pub closed spec fn size_spec(&self) -> u64 {
        self.size_bytes
    }

    pub closed spec fn digest_spec(&self) -> Seq<u8> {
        self.sha256@
    }

    /// The fingerprint of `size_bytes` decoded bytes hashing to `sha256`.
    pub fn new(size_bytes: u64, sha256: [u8; 32]) -> (r: Self)
        ensures
            r.size_spec() == size_bytes,
            r.digest_spec() == sha256@,
    {
        PayloadFingerprint { size_bytes, sha256 }
    }

    /// Exact number of bytes decoded for this payload.
    pub fn size_bytes(&self) -> (r: u64)
        ensures
            r == self.size_spec(),
    {
        self.size_bytes
    }

    /// SHA-256 over the decoded bytes.
    pub fn sha256(&self) -> (r: &[u8; 32])
        ensures
            r@ == self.digest_spec(),
    {
        &self.sha256
    }
}

/// One inventory row: the INF's source path, the archive's own spelling of
/// the member it resolved to, and that member's fingerprint.
#[derive(Debug, Clone, PartialEq, Eq)]
pub struct PayloadInventoryEntry {
    source_path: String,
    actual_archive_member: String,
    fingerprint: PayloadFingerprint,
}

impl PayloadInventoryEntry {
    pub closed spec fn source_spec(&self) -> Seq<char> {
        self.source_path@
    }

    pub closed spec fn actual_spec(&self) -> Seq<char> {
        self.actual_archive_member@
    }

    pub closed spec fn fingerprint_spec(&self) -> PayloadFingerprint {
        self.fingerprint
    }

    /// The source path, relative to the INF's directory.
    pub fn source_path(&self) -> (r: &str)
        ensures
            r@ == self.source_spec(),
    {
        self.source_path.as_str()
    }

    /// The archive's own spelling of the member this resolved to.
    pub fn actual_archive_member(&self) -> (r: &str)
        ensures
            r@ == self.actual_spec(),
    {
        self.actual_archive_member.as_str()
    }

    pub fn fingerprint(&self) -> (r: &PayloadFingerprint)
        ensures
            *r == self.fingerprint_spec(),
    {
        &self.fingerprint
    }
}

/// One member fingerprinted by the archive layer.
pub struct MemberFingerprint {
    pub actual_member: String,
    pub size_bytes: u64,
    pub sha256: [u8; 32],
}

/// Every requested payload's fingerprint, in source order, bound to the
/// verified package it was read for.
pub struct ResolvedPayloadInventory<'v> {
    verified: &'v VerifiedDriverPackage,
    entries: Vec<PayloadInventoryEntry>,
    declared_decode_bytes: u64,
    decode_bytes: u64,
}

impl<'v> ResolvedPayloadInventory<'v> {
    pub closed spec fn verified_spec(&self) -> VerifiedDriverPackage {
        *self.verified
    }

    pub closed spec fn entries_spec(&self) -> Seq<PayloadInventoryEntry> {
        self.entries@
    }

    pub closed spec fn declared_spec(&self) -> u64 {
        self.declared_decode_bytes
    }

    pub closed spec fn decoded_spec(&self) -> u64 {
        self.decode_bytes
    }

    pub fn entries(&self) -> (r: &[PayloadInventoryEntry])
        ensures
            r@ == self.entries_spec(),
    {
        self.entries.as_slice()
    }

    /// The verified package this inventory is bound to.
    pub fn verified_package(&self) -> (r: &'v VerifiedDriverPackage)
        ensures
            *r == self.verified_spec(),
    {
        self.verified
    }

    /// Bytes actually decoded, solid prerequisites included.
    pub fn decode_bytes(&self) -> (r: u64)
        ensures
            r == self.decoded_spec(),
    {
        self.decode_bytes
    }

    /// The declared decode cost checked before any decoding.
    pub fn declared_decode_bytes(&self) -> (r: u64)
        ensures
            r == self.declared_spec(),
    {
        self.declared_decode_bytes
    }
}

// ---------------------------------------------------------------------------
// Source paths and expected members
// ---------------------------------------------------------------------------

/// A component of a payload source path that may be read: not empty, at
/// most the component bound, not `.`/`..`, not ending in `.` or ASCII
/// whitespace, no forbidden or control character, no reserved device stem.
pub open spec fn payload_component_ok(c: Seq<char>) -> bool {
    &&& 0 < c.len() <= MAX_ARCHIVE_COMPONENT_LEN
    &&& c != seq!['.'] && c != seq!['.', '.']
    &&& c.last() != '.' && !is_ascii_ws(c.last())
    &&& !(exists|i: int| 0 <= i < c.len() && forbidden_char(#[trigger] c[i]))
    &&& !(exists|i: int| 0 <= i < c.len() && control_char(#[trigger] c[i]))
    &&& !is_reserved_stem(before_first(c, '.'), reserved_names().take(22))
}

/// A source path that may be composed into an archive member: non-empty,
/// ASCII, within the member bound, no NUL, `:` or `\`, no leading or
/// trailing `/`, at most the component bound of `/`-separated components,
/// each acceptable.
pub open spec fn source_path_ok(p: Seq<char>) -> bool {
    &&& p.len() > 0
    &&& is_ascii_seq(p)
    &&& p.len() <= MAX_ARCHIVE_MEMBER_LEN
    &&& !p.contains('\0') && !p.contains(':') && !p.contains('\\')
    &&& p[0] != '/' && p.last() != '/'
    &&& split_char(p, '/').len() <= MAX_ARCHIVE_MEMBER_COMPONENTS
    &&& forall|k: int|
        0 <= k < split_char(p, '/').len() ==> payload_component_ok(#[trigger] split_char(p, '/')[k])
}

/// Index of the last `c` in `s`, or -1.
pub open spec fn last_index(s: Seq<char>, c: char) -> int
    decreases s.len(),
{
    if s.len() == 0 {
        -1
    } else if s.last() == c {
        s.len() - 1
    } else {
        last_index(s.drop_last(), c)
    }
}

/// The directory part of a member path, with its trailing `/`; empty for a
/// bare leaf.
pub open spec fn dir_prefix(s: Seq<char>) -> Seq<char> {
    s.take(last_index(s, '/') + 1)
}

/// The expected archive member for source path `src` of an INF at member
/// `inf`: the INF's directory plus the source path.
pub open spec fn expected_member_spec(index: usize, inf: Seq<char>, src: Seq<char>) -> Result<
    Seq<char>,
    PayloadInventoryError,
> {
    if !source_path_ok(src) {
        Err(PayloadInventoryError::UnsafeSourcePath { index })
    } else if blen(dir_prefix(inf) + src) > MAX_ARCHIVE_MEMBER_LEN {
        Err(PayloadInventoryError::ExpectedMemberTooLong)
    } else {
        Ok(dir_prefix(inf) + src)
    }
}

fn component_ok(c: &[char]) -> (r: bool)
    ensures
        r == payload_component_ok(c@),
{
    if c.len() == 0 || c.len() > MAX_ARCHIVE_COMPONENT_LEN {
        return false;
    }
    if (c.len() == 1 && c[0] == '.') || (c.len() == 2 && c[0] == '.' && c[1] == '.') {
        proof {
            if c.len() == 1 {
                assert(c@ =~= seq!['.']);
            } else {
                assert(c@ =~= seq!['.', '.']);
            }
        }
        return false;
    }
    proof {
        if c@ == seq!['.'] {
            assert(c@.len() == 1 && c@[0] == '.');
        }
        if c@ == seq!['.', '.'] {
            assert(c@.len() == 2 && c@[0] == '.' && c@[1] == '.');
        }
    }
    let last = c[c.len() - 1];
    if last == '.' || is_ascii_whitespace(last) {
        return false;
    }
    let (forb, ctrl) = has_forbidden_or_control(c);
    if forb || ctrl {
        return false;
    }
    let stem = before_first_vec(c, '.');
    !stem_is_reserved(stem.as_slice(), 22)
}

/// Revalidate a source path at the archive boundary; hostile input is
/// refused, never normalized.
#[verifier::loop_isolation(false)]
pub fn validate_source_path(index: usize, path: &str) -> (r: Result<(), PayloadInventoryError>)
    ensures
        source_path_ok(path@) ==> r is Ok,
        !source_path_ok(path@) ==> r == Err::<(), PayloadInventoryError>(
            PayloadInventoryError::UnsafeSourcePath { index },
        ),
{
    let bad = PayloadInventoryError::UnsafeSourcePath { index };
    let v = chars_of(path);
    if v.len() == 0 || !is_ascii(v.as_slice()) || v.len() > MAX_ARCHIVE_MEMBER_LEN {
        return Err(bad);
    }
    if has_char(v.as_slice(), '\0') || has_char(v.as_slice(), ':') || has_char(v.as_slice(), '\\') {
        return Err(bad);
    }
    if v[0] == '/' || v[v.len() - 1] == '/' {
        return Err(bad);
    }
    let comps = split_vec(v.as_slice(), '/');
    proof {
        assert(pieces(comps@).len() == comps@.len());
    }
    if comps.len() > MAX_ARCHIVE_MEMBER_COMPONENTS {
        return Err(bad);
    }
    let mut k: usize = 0;
    while k < comps.len()
        invariant
            k <= comps@.len(),
            pieces(comps@) == split_char(v@, '/'),
            forall|j: int| 0 <= j < k ==> payload_component_ok(#[trigger] split_char(v@, '/')[j]),
        decreases comps.len() - k,
    {
        proof {
            assert(pieces(comps@)[k as int] == comps@[k as int]@);
        }
        if !component_ok(comps[k].as_slice()) {
            return Err(bad);
        }
        k = k + 1;
    }
    Ok(())
}

fn dir_prefix_of(v: &[char]) -> (r: Vec<char>)
    ensures
        r@ == dir_prefix(v@),
{
    let mut i: usize = v.len();
    proof {
        assert(v@.take(v@.len() as int) =~= v@);
    }
    while i > 0 && v[i - 1] != '/'
        invariant
            i <= v@.len(),
            last_index(v@, '/') == last_index(v@.take(i as int), '/'),
        decreases i,
    {
        proof {
            assert(v@.take(i as int).drop_last() =~= v@.take(i - 1));
        }
        i = i - 1;
    }
    proof {
        if i > 0 {
            assert(v@.take(i as int).last() == '/');
        }
    }
    slice_vec(v, 0, i)
}

/// Compose the expected archive member for one source path: the verified
/// INF member's directory plus the source path, applied once.
pub fn expected_member(index: usize, inf_member: &str, source_path: &str) -> (r: Result<
    String,
    PayloadInventoryError,
>)
    ensures
        match expected_member_spec(index, inf_member@, source_path@) {
            Ok(m) => r matches Ok(s) && s@ == m,
            Err(e) => r == Err::<String, PayloadInventoryError>(e),
        },
{
    match validate_source_path(index, source_path) {
        Err(e) => {
            return Err(e);
        },
        Ok(()) => {},
    }
    let inf = chars_of(inf_member);
    let mut m = dir_prefix_of(inf.as_slice());
    append_str(&mut m, source_path);
    if byte_len_exceeds(m.as_slice(), MAX_ARCHIVE_MEMBER_LEN) {
        return Err(PayloadInventoryError::ExpectedMemberTooLong);
    }
    Ok(string_of(m.as_slice()))
}

pub open spec fn str_views(v: Seq<String>) -> Seq<Seq<char>> {
    v.map_values(|s: String| s@)
}

/// The expected members of the first `srcs.len()` source paths with the
/// path bytes retained so far, or the first refusal: an unsafe or overlong
/// member, the retained-path budget exceeded, or a member equal (up to
/// ASCII case) to an earlier one.
pub open spec fn members_fold(inf: Seq<char>, srcs: Seq<Seq<char>>) -> Result<
    (Seq<Seq<char>>, nat),
    PayloadInventoryError,
>
    decreases srcs.len(),
{
    if srcs.len() == 0 {
        Ok((Seq::empty(), 0))
    } else {
        match members_fold(inf, srcs.drop_last()) {
            Err(e) => Err(e),
            Ok(acc) => match expected_member_spec((srcs.len() - 1) as usize, inf, srcs.last()) {
                Err(e) => Err(e),
                Ok(m) => {
                    let retained = acc.1 + blen(m) + blen(srcs.last());
                    if retained > MAX_PAYLOAD_RETAINED_PATH_BYTES {
                        Err(PayloadInventoryError::RetainedPathBudgetExceeded)
                    } else if exists|k: int| 0 <= k < acc.0.len() && eq_ic(#[trigger] acc.0[k], m) {
                        Err(PayloadInventoryError::DuplicateExpectedMember)
                    } else {
                        Ok((acc.0.push(m), retained))
                    }
                },
            },
        }
    }
}

/// The expected members for the source paths, or why none may be read:
/// no source path, too many, or the first refusal of `members_fold`.
pub open spec fn plan_members_spec(inf: Seq<char>, srcs: Seq<Seq<char>>) -> Result<
    Seq<Seq<char>>,
    PayloadInventoryError,
> {
    if srcs.len() == 0 {
        Err(PayloadInventoryError::NoSourceReferences)
    } else if srcs.len() > MAX_PAYLOAD_FILES {
        Err(PayloadInventoryError::TooManyPayloads)
    } else {
        match members_fold(inf, srcs) {
            Ok(acc) => Ok(acc.0),
            Err(e) => Err(e),
        }
    }
}

fn byte_len(v: &[char]) -> (n: usize)
    requires
        blen(v@) <= MAX_ARCHIVE_MEMBER_LEN,
    ensures
        n == blen(v@),
{
    let mut total: usize = 0;
    let mut i: usize = 0;
    proof {
        assert(v@.take(0) =~= Seq::<char>::empty());
        assert(vstd::utf8::encode_utf8(Seq::<char>::empty()) =~= Seq::<u8>::empty());
    }
    while i < v.len()
        invariant
            i <= v@.len(),
            blen(v@) <= MAX_ARCHIVE_MEMBER_LEN,
            total == blen(v@.take(i as int)),
            total <= blen(v@),
        decreases v.len() - i,
    {
        proof {
            assert(v@.take(i as int).push(v@[i as int]) =~= v@.take(i + 1));
            lemma_blen_push(v@.take(i as int), v@[i as int]);
            lemma_blen_take(v@, i + 1);
        }
        total = total + char_width_of(v[i]);
        i = i + 1;
    }
    proof {
        assert(v@.take(i as int) =~= v@);
    }
    total
}

/// Byte length of a prefix never exceeds that of the whole.
proof fn lemma_blen_take(s: Seq<char>, k: int)
    requires
        0 <= k <= s.len(),
    ensures
        blen(s.take(k)) <= blen(s),
    decreases s.len() - k,
{
    if k < s.len() {
        let t = s.drop_last();
        assert(s.take(k) =~= t.take(k));
        lemma_blen_take(t, k);
        assert(t.push(s.last()) =~= s);
        lemma_blen_push(t, s.last());
    } else {
        assert(s.take(k) =~= s);
    }
}

/// The archive members to fingerprint for `sources`, composed and checked
/// before any attestation or I/O, in source order.
#[verifier::loop_isolation(false)]
pub fn plan_expected_members(inf_member: &str, sources: &[String]) -> (r: Result<
    Vec<String>,
    PayloadInventoryError,
>)
    ensures
        match plan_members_spec(inf_member@, str_views(sources@)) {
            Ok(ms) => r matches Ok(v) && str_views(v@) == ms,
            Err(e) => r == Err::<Vec<String>, PayloadInventoryError>(e),
        },
{
    let ghost srcs = str_views(sources@);
    if sources.len() == 0 {
        return Err(PayloadInventoryError::NoSourceReferences);
    }
    if sources.len() > MAX_PAYLOAD_FILES {
        return Err(PayloadInventoryError::TooManyPayloads);
    }
    let mut expected: Vec<String> = Vec::new();
    let mut retained: usize = 0;
    let mut i: usize = 0;
    proof {
        assert(srcs.take(0) =~= Seq::<Seq<char>>::empty());
        assert(str_views(expected@) =~= Seq::<Seq<char>>::empty());
    }
    while i < sources.len()
        invariant
            i <= sources@.len() <= MAX_PAYLOAD_FILES,
            srcs == str_views(sources@),
            members_fold(inf_member@, srcs.take(i as int)) == Ok::<
                (Seq<Seq<char>>, nat),
                PayloadInventoryError,
            >((str_views(expected@), retained as nat)),
            retained <= MAX_PAYLOAD_RETAINED_PATH_BYTES,
        decreases sources.len() - i,
    {
        let ghost pre = srcs.take(i as int);
        proof {
            assert(srcs.take(i + 1).drop_last() =~= pre);
            assert(srcs.take(i + 1).last() == sources@[i as int]@);
        }
        let member = match expected_member(i, inf_member, sources[i].as_str()) {
            Err(e) => {
                proof {
                    lemma_fold_err_sticks(inf_member@, srcs, i + 1);
                }
                return Err(e);
            },
            Ok(m) => m,
        };
        let mv = chars_of(member.as_str());
        let sv = chars_of(sources[i].as_str());
        proof {
            lemma_blen_ascii(sv@);
        }
        let mlen = byte_len(mv.as_slice());
        let slen = byte_len(sv.as_slice());
        if mlen > MAX_PAYLOAD_RETAINED_PATH_BYTES - retained || slen > MAX_PAYLOAD_RETAINED_PATH_BYTES
            - retained - mlen {
            proof {
                lemma_fold_err_sticks(inf_member@, srcs, i + 1);
            }
            return Err(PayloadInventoryError::RetainedPathBudgetExceeded);
        }
        retained = retained + mlen + slen;
        let mut k: usize = 0;
        while k < expected.len()
            invariant
                k <= expected@.len(),
                forall|j: int| 0 <= j < k ==> !eq_ic(#[trigger] str_views(expected@)[j], member@),
            decreases expected.len() - k,
        {
            if str_eq_ignore_case(expected[k].as_str(), member.as_str()) {
                proof {
                    assert(str_views(expected@)[k as int] == expected@[k as int]@);
                    lemma_fold_err_sticks(inf_member@, srcs, i + 1);
                }
                return Err(PayloadInventoryError::DuplicateExpectedMember);
            }
            proof {
                assert(str_views(expected@)[k as int] == expected@[k as int]@);
            }
            k = k + 1;
        }
        let ghost before = str_views(expected@);
        expected.push(member);
        proof {
            assert(str_views(expected@) =~= before.push(mv@));
        }
        i = i + 1;
    }
    proof {
        assert(srcs.take(i as int) =~= srcs);
    }
    Ok(expected)
}

/// An ASCII text has one byte per character.
proof fn lemma_blen_ascii(s: Seq<char>)
    requires
        is_ascii_seq(s),
    ensures
        blen(s) == s.len(),
    decreases s.len(),
{
    if s.len() > 0 {
        let t = s.drop_last();
        assert forall|i: int| 0 <= i < t.len() implies is_ascii_char(#[trigger] t[i]) by {
            assert(t[i] == s[i]);
        }
        lemma_blen_ascii(t);
        assert(t.push(s.last()) =~= s);
        lemma_blen_push(t, s.last());
        assert(is_ascii_char(s[s.len() - 1]));
    } else {
        assert(vstd::utf8::encode_utf8(s) =~= Seq::<u8>::empty());
    }
}

/// Once the fold has refused a prefix, it refuses every longer one the
/// same way.
proof fn lemma_fold_err_sticks(inf: Seq<char>, srcs: Seq<Seq<char>>, n: int)
    requires
        0 <= n <= srcs.len(),
        members_fold(inf, srcs.take(n)) is Err,
    ensures
        members_fold(inf, srcs) == members_fold(inf, srcs.take(n)),
    decreases srcs.len() - n,
{
    if n < srcs.len() {
        assert(srcs.take(n + 1).drop_last() =~= srcs.take(n));
        lemma_fold_err_sticks(inf, srcs, n + 1);
    } else {
        assert(srcs.take(n) =~= srcs);
    }
}

// ---------------------------------------------------------------------------
// Assembling the inventory
// ---------------------------------------------------------------------------

/// The inventory for the verified package `verified` and its `sources`:
/// the members are planned first (a refusal there comes before anything
/// else); then the attestation before reading, the fingerprinting of the
/// planned members (which must fit the plan), and the attestation after
/// reading, each failing the whole inventory; then one entry per source
/// path, in order, with the fingerprint of its member.
pub open spec fn inventory_spec(
    r: Result<ResolvedPayloadInventory, PayloadInventoryError>,
    verified: VerifiedDriverPackage,
    sources: Seq<String>,
    pre: Result<(), String>,
    fingerprints: Result<(Seq<MemberFingerprint>, u64, u64), ExtractionError>,
    post: Result<(), String>,
) -> bool {
    match plan_members_spec(verified.expected_archive_member@, str_views(sources)) {
        Err(e) => r == Err::<ResolvedPayloadInventory, PayloadInventoryError>(e),
        Ok(ms) => match pre {
            Err(a) => r matches Err(PayloadInventoryError::Attestation(x)) && x@ == a@,
            Ok(()) => match fingerprints {
                Err(e) => r == Err::<ResolvedPayloadInventory, PayloadInventoryError>(
                    from_extraction_spec(e),
                ),
                Ok(f) => if f.0.len() != sources.len() {
                    r == Err::<ResolvedPayloadInventory, PayloadInventoryError>(
                        PayloadInventoryError::PayloadMemberMissing { index: 0 },
                    )
                } else if fingerprints_fit(ms, f.0, f.1, f.2) is Err {
                    r == Err::<ResolvedPayloadInventory, PayloadInventoryError>(
                        fingerprints_fit(ms, f.0, f.1, f.2)->Err_0,
                    )
                } else {
                    match post {
                        Err(a) => r matches Err(PayloadInventoryError::Attestation(x)) && x@ == a@,
                        Ok(()) => r matches Ok(inv) && {
                            &&& inv.verified_spec() == verified
                            &&& inv.declared_spec() == f.1
                            &&& inv.decoded_spec() == f.2
                            &&& inv.entries_spec().len() == sources.len()
                            &&& forall|i: int|
                                0 <= i < sources.len() ==> {
                                    let e = #[trigger] inv.entries_spec()[i];
                                    &&& e.source_spec() == sources[i]@
                                    &&& e.actual_spec() == f.0[i].actual_member@
                                    &&& e.fingerprint_spec().size_spec() == f.0[i].size_bytes
                                    &&& e.fingerprint_spec().digest_spec() == f.0[i].sha256@
                                }
                        },
                    }
                },
            },
        },
    }
}

/// The payload inventory of `sources` for the verified package, from the
/// outcomes of the steps that read the pack: the attestation before
/// reading (`pre`), the fingerprinting of the planned members in plan
/// order, and the attestation after reading (`post`). All or nothing.
pub fn inspect_payload_inventory<'v>(
    verified: &'v VerifiedDriverPackage,
    sources: &[String],
    pre: Result<(), String>,
    fingerprints: Result<(Vec<MemberFingerprint>, u64, u64), ExtractionError>,
    post: Result<(), String>,
) -> (r: Result<ResolvedPayloadInventory<'v>, PayloadInventoryError>)
    ensures
        inventory_spec(
            r,
            *verified,
            sources@,
            pre,
            match fingerprints {
                Ok(f) => Ok((f.0@, f.1, f.2)),
                Err(e) => Err(e),
            },
            post,
        ),
{
    let members = match plan_expected_members(verified.expected_archive_member.as_str(), sources) {
        Err(e) => {
            return Err(e);
        },
        Ok(ms) => ms,
    };
    match pre {
        Err(a) => {
            return Err(PayloadInventoryError::Attestation(a));
        },
        Ok(()) => {},
    }
    let (fps, declared, decoded) = match lift(fingerprints) {
        Err(e) => {
            return Err(e);
        },
        Ok(f) => f,
    };
    if fps.len() != sources.len() {
        return Err(PayloadInventoryError::PayloadMemberMissing { index: 0 });
    }
    proof {
        planned_members_are_distinct(verified.expected_archive_member@, str_views(sources@));
        assert(str_views(members@).len() == members@.len());
    }
    match check_fingerprints(members.as_slice(), fps.as_slice(), declared, decoded) {
        Err(y) => {
            return Err(y);
        },
        Ok(()) => {},
    }
    match post {
        Err(a) => {
            return Err(PayloadInventoryError::Attestation(a));
        },
        Ok(()) => {},
    }
    let mut entries: Vec<PayloadInventoryEntry> = Vec::new();
    let mut i: usize = 0;
    while i < fps.len()
        invariant
            i <= fps@.len(),
            fps@.len() == sources@.len(),
            entries@.len() == i,
            forall|k: int|
                0 <= k < i ==> {
                    let e = #[trigger] entries@[k];
                    &&& e.source_spec() == sources@[k]@
                    &&& e.actual_spec() == fps@[k].actual_member@
                    &&& e.fingerprint_spec().size_spec() == fps@[k].size_bytes
                    &&& e.fingerprint_spec().digest_spec() == fps@[k].sha256@
                },
        decreases fps.len() - i,
    {
        let f = &fps[i];
        entries.push(
            PayloadInventoryEntry {
                source_path: owned(sources[i].as_str()),
                actual_archive_member: owned(f.actual_member.as_str()),
                fingerprint: PayloadFingerprint::new(f.size_bytes, f.sha256),
            },
        );
        i = i + 1;
    }
    Ok(
        ResolvedPayloadInventory {
            verified,
            entries,
            declared_decode_bytes: declared,
            decode_bytes: decoded,
        },
    )
}

// ---------------------------------------------------------------------------
// Fingerprints against the plan
// ---------------------------------------------------------------------------

/// The first `n` fingerprints against the planned members: the running
/// total of their sizes, or the first refusal: a fingerprint of another
/// member than the one planned at its place, a payload over the single-file
/// cap, or a total over the aggregate cap.
pub open spec fn fingerprints_upto(members: Seq<Seq<char>>, fps: Seq<MemberFingerprint>, n: int) -> Result<
    nat,
    PayloadInventoryError,
>
    decreases n,
{
    if n <= 0 {
        Ok(0)
    } else {
        match fingerprints_upto(members, fps, n - 1) {
            Err(e) => Err(e),
            Ok(t) => {
                let f = fps[n - 1];
                if !eq_ic(f.actual_member@, members[n - 1]) {
                    Err(PayloadInventoryError::PayloadMemberMissing { index: (n - 1) as usize })
                } else if f.size_bytes > MAX_PAYLOAD_FILE_BYTES {
                    Err(PayloadInventoryError::PayloadTooLarge { index: (n - 1) as usize })
                } else if t + f.size_bytes > MAX_PAYLOAD_TOTAL_BYTES {
                    Err(PayloadInventoryError::PayloadTotalBytesExceeded)
                } else {
                    Ok((t + f.size_bytes) as nat)
                }
            },
        }
    }
}

/// Whether fingerprints read for the planned members fit them: each names
/// its planned member (up to ASCII case) within the payload caps, and the
/// declared and actual decode costs are within the decode budget.
pub open spec fn fingerprints_fit(
    members: Seq<Seq<char>>,
    fps: Seq<MemberFingerprint>,
    declared: u64,
    decoded: u64,
) -> Result<(), PayloadInventoryError> {
    match fingerprints_upto(members, fps, fps.len() as int) {
        Err(e) => Err(e),
        Ok(_) => if declared > MAX_PAYLOAD_TOTAL_DECODE_BYTES || decoded > MAX_PAYLOAD_TOTAL_DECODE_BYTES {
            Err(PayloadInventoryError::PayloadDecodeBudgetExceeded)
        } else {
            Ok(())
        },
    }
}

proof fn lemma_fingerprints_err_sticks(members: Seq<Seq<char>>, fps: Seq<MemberFingerprint>, i: int, n: int)
    requires
        0 <= i <= n,
        fingerprints_upto(members, fps, i) is Err,
    ensures
        fingerprints_upto(members, fps, n) == fingerprints_upto(members, fps, i),
    decreases n - i,
{
    if i < n {
        lemma_fingerprints_err_sticks(members, fps, i, n - 1);
    }
}

/// Fingerprints that fit the plan name their planned members, each within
/// the single-file cap, with a total within the aggregate cap.
proof fn lemma_fingerprints_fit_each(members: Seq<Seq<char>>, fps: Seq<MemberFingerprint>, n: int)
    requires
        0 <= n <= fps.len(),
        fingerprints_upto(members, fps, n) is Ok,
    ensures
        fingerprints_upto(members, fps, n)->Ok_0 <= MAX_PAYLOAD_TOTAL_BYTES,
        forall|i: int|
            0 <= i < n ==> eq_ic((#[trigger] fps[i]).actual_member@, members[i]) && fps[i].size_bytes
                <= MAX_PAYLOAD_FILE_BYTES,
    decreases n,
{
    if n > 0 {
        lemma_fingerprints_fit_each(members, fps, n - 1);
    }
}

/// Every planned member is what `expected_member` composes for its source
/// path alone.
proof fn lemma_planned_members_compose_alone(inf: Seq<char>, srcs: Seq<Seq<char>>)
    ensures
        members_fold(inf, srcs) matches Ok(acc) ==> acc.0.len() == srcs.len() && forall|i: int|
            0 <= i < srcs.len() ==> expected_member_spec(0, inf, #[trigger] srcs[i]) == Ok::<
                Seq<char>,
                PayloadInventoryError,
            >(acc.0[i]),
    decreases srcs.len(),
{
    if srcs.len() > 0 {
        let init = srcs.drop_last();
        lemma_planned_members_compose_alone(inf, init);
        if let Ok(acc) = members_fold(inf, srcs) {
            let prev = members_fold(inf, init)->Ok_0;
            assert forall|i: int| 0 <= i < srcs.len() implies expected_member_spec(
                0,
                inf,
                #[trigger] srcs[i],
            ) == Ok::<Seq<char>, PayloadInventoryError>(acc.0[i]) by {
                if i < srcs.len() - 1 {
                    assert(srcs[i] == init[i]);
                    assert(acc.0[i] == prev.0[i]);
                }
            }
        }
    }
}

/// What an inventory holds: whatever `inspect_payload_inventory` returns
/// (as its contract says), an inventory comes only from a re-attestation
/// that succeeded before reading and one that succeeded after, and lists,
/// for each source path in order, a member equal (up to ASCII case) to the
/// one `expected_member` composes for that path alone, each payload within
/// the single-file cap, a total of the payload sizes within the aggregate
/// cap, and a declared and actual decode cost within the decode budget.
pub proof fn inventory_entries_fit_the_plan(
    r: Result<ResolvedPayloadInventory, PayloadInventoryError>,
    v: VerifiedDriverPackage,
    sources: Seq<String>,
    pre: Result<(), String>,
    fingerprints: Result<(Seq<MemberFingerprint>, u64, u64), ExtractionError>,
    post: Result<(), String>,
)
    requires
        inventory_spec(r, v, sources, pre, fingerprints, post),
        r is Ok,
    ensures
        pre is Ok,
        post is Ok,
        fingerprints matches Ok(f) && r matches Ok(inv) && {
            &&& inv.entries_spec().len() == sources.len()
            &&& fingerprints_upto(
                plan_members_spec(v.expected_archive_member@, str_views(sources))->Ok_0,
                f.0,
                f.0.len() as int,
            ) matches Ok(total) && total <= MAX_PAYLOAD_TOTAL_BYTES
            &&& inv.declared_spec() <= MAX_PAYLOAD_TOTAL_DECODE_BYTES
            &&& inv.decoded_spec() <= MAX_PAYLOAD_TOTAL_DECODE_BYTES
            &&& forall|i: int|
                0 <= i < sources.len() ==> {
                    let e = #[trigger] inv.entries_spec()[i];
                    &&& e.source_spec() == sources[i]@
                    &&& expected_member_spec(0, v.expected_archive_member@, sources[i]@) matches Ok(
                        m,
                    ) && eq_ic(e.actual_spec(), m)
                    &&& e.fingerprint_spec().size_spec() <= MAX_PAYLOAD_FILE_BYTES
                }
        },
{
    let inf = v.expected_archive_member@;
    let srcs = str_views(sources);
    let ms = plan_members_spec(inf, srcs)->Ok_0;
    let f = fingerprints->Ok_0;
    lemma_fingerprints_fit_each(ms, f.0, f.0.len() as int);
    lemma_planned_members_compose_alone(inf, srcs);
    let inv = r->Ok_0;
    assert forall|i: int| 0 <= i < sources.len() implies {
        let e = #[trigger] inv.entries_spec()[i];
        &&& e.source_spec() == sources[i]@
        &&& expected_member_spec(0, inf, sources[i]@) matches Ok(m) && eq_ic(e.actual_spec(), m)
        &&& e.fingerprint_spec().size_spec() <= MAX_PAYLOAD_FILE_BYTES
    } by {
        assert(srcs[i] == sources[i]@);
        assert(eq_ic(f.0[i].actual_member@, ms[i]));
    }
}

/// Check fingerprints read for the planned `members` (one each, in order)
/// against them.
pub fn check_fingerprints(members: &[String], fps: &[MemberFingerprint], declared: u64, decoded: u64) -> (r:
    Result<(), PayloadInventoryError>)
    requires
        members@.len() == fps@.len(),
    ensures
        r == fingerprints_fit(str_views(members@), fps@, declared, decoded),
{
    let ghost ms = str_views(members@);
    let mut total: u64 = 0;
    let mut i: usize = 0;
    while i < fps.len()
        invariant
            i <= fps@.len() == members@.len(),
            ms == str_views(members@),
            fingerprints_upto(ms, fps@, i as int) == Ok::<nat, PayloadInventoryError>(total as nat),
            total <= MAX_PAYLOAD_TOTAL_BYTES,
        decreases fps.len() - i,
    {
        let f = &fps[i];
        if !str_eq_ignore_case(f.actual_member.as_str(), members[i].as_str()) {
            proof {
                lemma_fingerprints_err_sticks(ms, fps@, i + 1, fps@.len() as int);
            }
            return Err(PayloadInventoryError::PayloadMemberMissing { index: i });
        }
        if f.size_bytes > MAX_PAYLOAD_FILE_BYTES {
            proof {
                lemma_fingerprints_err_sticks(ms, fps@, i + 1, fps@.len() as int);
            }
            return Err(PayloadInventoryError::PayloadTooLarge { index: i });
        }
        if total + f.size_bytes > MAX_PAYLOAD_TOTAL_BYTES {
            proof {
                lemma_fingerprints_err_sticks(ms, fps@, i + 1, fps@.len() as int);
            }
            return Err(PayloadInventoryError::PayloadTotalBytesExceeded);
        }
        total = total + f.size_bytes;
        i = i + 1;
    }
    if declared > MAX_PAYLOAD_TOTAL_DECODE_BYTES || decoded > MAX_PAYLOAD_TOTAL_DECODE_BYTES {
        return Err(PayloadInventoryError::PayloadDecodeBudgetExceeded);
    }
    Ok(())
}

// ---------------------------------------------------------------------------
// The inventory as a run of steps
// ---------------------------------------------------------------------------

/// What the caller is to do next while an inventory is taken.
pub enum InventoryAction<'v> {
    /// Re-attest the verified package against its pack (before reading the
    /// pack, and again after).
    Reattest,
    /// Read the pack and fingerprint these archive members, in this order.
    Fingerprint(Vec<String>),
    /// The inventory, or why there is none.
    Finished(Result<ResolvedPayloadInventory<'v>, PayloadInventoryError>),
}

/// What the last step came to.
pub enum InventoryEvent {
    /// The re-attestation succeeded, or failed with this text.
    Attested(Result<(), String>),
    /// The fingerprints of the requested members in order, with the
    /// declared and the actual decode bytes; or the archive layer's refusal.
    Fingerprinted(Result<(Vec<MemberFingerprint>, u64, u64), ExtractionError>),
}

/// Where a run stands.
#[derive(Clone, Copy, PartialEq, Eq, Structural)]
pub enum InventoryStage {
    /// Waiting for the re-attestation before the pack is read.
    BeforeReading,
    /// Waiting for the fingerprints.
    Reading,
    /// Waiting for the re-attestation after the pack was read.
    AfterReading,
    /// Finished.
    Over,
}

/// Taking the payload inventory of `sources` for a verified package: the
/// members are planned first, and only a plan that stands leads to any
/// attestation or reading.
pub struct PayloadInventoryRun<'v> {
    verified: &'v VerifiedDriverPackage,
    sources: Vec<String>,
    members: Vec<String>,
    stage: InventoryStage,
    fingerprints: Option<(Vec<MemberFingerprint>, u64, u64)>,
}

impl<'v> PayloadInventoryRun<'v> {
    pub closed spec fn verified_spec(&self) -> VerifiedDriverPackage {
        *self.verified
    }

    pub closed spec fn sources_spec(&self) -> Seq<String> {
        self.sources@
    }

    pub closed spec fn stage_spec(&self) -> InventoryStage {
        self.stage
    }

    /// The fingerprints received, once the pack has been read.
    pub closed spec fn fingerprints_spec(&self) -> Option<(Seq<MemberFingerprint>, u64, u64)> {
        match self.fingerprints {
            Some(f) => Some((f.0@, f.1, f.2)),
            None => None,
        }
    }

    /// The planned members are kept while the run goes on, and the
    /// fingerprints, one per source, once they have come.
    pub closed spec fn wf(&self) -> bool {
        &&& self.stage != InventoryStage::Over ==> plan_members_spec(
            self.verified.expected_archive_member@,
            str_views(self.sources@),
        ) == Ok::<Seq<Seq<char>>, PayloadInventoryError>(str_views(self.members@))
        &&& self.stage == InventoryStage::AfterReading ==> (self.fingerprints matches Some(f)
            && f.0@.len() == self.sources@.len() && fingerprints_fit(
            str_views(self.members@),
            f.0@,
            f.1,
            f.2,
        ) is Ok)
    }

    /// Whether `e` is what the run waits for.
    pub open spec fn accepts_spec(&self, e: InventoryEvent) -> bool {
        match self.stage_spec() {
            InventoryStage::BeforeReading | InventoryStage::AfterReading => e is Attested,
            InventoryStage::Reading => e is Fingerprinted,
            InventoryStage::Over => false,
        }
    }

    /// Whether `e` is what the run waits for.
    pub fn accepts(&self, e: &InventoryEvent) -> (r: bool)
        ensures
            r == self.accepts_spec(*e),
    {
        match self.stage {
            InventoryStage::BeforeReading | InventoryStage::AfterReading => matches!(e, InventoryEvent::Attested(_)),
            InventoryStage::Reading => matches!(e, InventoryEvent::Fingerprinted(_)),
            InventoryStage::Over => false,
        }
    }

    /// Start taking the inventory: the members of `sources` are planned
    /// against the verified INF member, and a refused plan finishes the run
    /// at once, before any attestation or reading.
    pub fn start(verified: &'v VerifiedDriverPackage, sources: Vec<String>) -> (r: (Self, InventoryAction<'v>))
        ensures
            r.0.wf(),
            r.0.verified_spec() == *verified,
            r.0.sources_spec() == sources@,
            match plan_members_spec(verified.expected_archive_member@, str_views(sources@)) {
                Err(e) => r.0.stage_spec() == InventoryStage::Over && (r.1 matches InventoryAction::Finished(
                    Err(x),
                ) && x == e),
                Ok(_) => r.0.stage_spec() == InventoryStage::BeforeReading && r.1 is Reattest,
            },
    {
        match plan_expected_members(verified.expected_archive_member.as_str(), sources.as_slice()) {
            Err(e) => (
                PayloadInventoryRun {
                    verified,
                    sources,
                    members: Vec::new(),
                    stage: InventoryStage::Over,
                    fingerprints: None,
                },
                InventoryAction::Finished(Err(e)),
            ),
            Ok(members) => (
                PayloadInventoryRun {
                    verified,
                    sources,
                    members,
                    stage: InventoryStage::BeforeReading,
                    fingerprints: None,
                },
                InventoryAction::Reattest,
            ),
        }
    }

    /// The next step from what the last one came to: a failed attestation
    /// or reading finishes the run with its refusal, and so do fingerprints
    /// that do not fit the planned members; otherwise the run reads the
    /// planned members, re-attests, and finishes with the inventory that
    /// `inspect_payload_inventory` gives for these outcomes.
    pub fn step(&mut self, e: InventoryEvent) -> (a: InventoryAction<'v>)
        requires
            old(self).wf(),
            old(self).accepts_spec(e),
        ensures
            final(self).wf(),
            final(self).verified_spec() == old(self).verified_spec(),
            final(self).sources_spec() == old(self).sources_spec(),
            ({
                let v = old(self).verified_spec();
                let srcs = old(self).sources_spec();
                match e {
                    InventoryEvent::Attested(Err(m)) => final(self).stage_spec() == InventoryStage::Over
                        && (a matches InventoryAction::Finished(Err(PayloadInventoryError::Attestation(x)))
                        && x@ == m@),
                    InventoryEvent::Attested(Ok(())) => if old(self).stage_spec()
                        == InventoryStage::BeforeReading {
                        &&& final(self).stage_spec() == InventoryStage::Reading
                        &&& a matches InventoryAction::Fingerprint(ms) && plan_members_spec(
                            v.expected_archive_member@,
                            str_views(srcs),
                        ) == Ok::<Seq<Seq<char>>, PayloadInventoryError>(str_views(ms@))
                    } else {
                        &&& final(self).stage_spec() == InventoryStage::Over
                        &&& a matches InventoryAction::Finished(r) && old(self).fingerprints_spec() matches Some(
                            f,
                        ) && inventory_spec(r, v, srcs, Ok(()), Ok(f), Ok(())) && fingerprints_fit(
                            plan_members_spec(v.expected_archive_member@, str_views(srcs))->Ok_0,
                            f.0,
                            f.1,
                            f.2,
                        ) is Ok
                    },
                    InventoryEvent::Fingerprinted(Err(x)) => final(self).stage_spec() == InventoryStage::Over
                        && (a matches InventoryAction::Finished(Err(y)) && y == from_extraction_spec(x)),
                    InventoryEvent::Fingerprinted(Ok(f)) => if f.0@.len() != srcs.len() {
                        &&& final(self).stage_spec() == InventoryStage::Over
                        &&& a matches InventoryAction::Finished(Err(y))
                        &&& y == PayloadInventoryError::PayloadMemberMissing { index: 0 }
                    } else {
                        match fingerprints_fit(
                            plan_members_spec(v.expected_archive_member@, str_views(srcs))->Ok_0,
                            f.0@,
                            f.1,
                            f.2,
                        ) {
                            Err(y) => final(self).stage_spec() == InventoryStage::Over && (
                            a matches InventoryAction::Finished(Err(z)) && z == y),
                            Ok(()) => {
                                &&& final(self).stage_spec() == InventoryStage::AfterReading
                                &&& final(self).fingerprints_spec() == Some((f.0@, f.1, f.2))
                                &&& a is Reattest
                            },
                        }
                    },
                }
            }),
    {
        match e {
            InventoryEvent::Attested(Err(m)) => {
                self.stage = InventoryStage::Over;
                InventoryAction::Finished(Err(PayloadInventoryError::Attestation(m)))
            },
            InventoryEvent::Attested(Ok(())) => {
                if self.stage == InventoryStage::BeforeReading {
                    self.stage = InventoryStage::Reading;
                    let mut ms: Vec<String> = Vec::new();
                    let mut i: usize = 0;
                    while i < self.members.len()
                        invariant
                            i <= self.members@.len(),
                            ms@.len() == i,
                            forall|k: int| 0 <= k < i ==> (#[trigger] ms@[k])@ == self.members@[k]@,
                        decreases self.members.len() - i,
                    {
                        ms.push(owned(self.members[i].as_str()));
                        i = i + 1;
                    }
                    proof {
                        assert(str_views(ms@) =~= str_views(self.members@));
                    }
                    InventoryAction::Fingerprint(ms)
                } else {
                    let mut taken: Option<(Vec<MemberFingerprint>, u64, u64)> = None;
                    std::mem::swap(&mut taken, &mut self.fingerprints);
                    self.stage = InventoryStage::Over;
                    match taken {
                        Some(f) => {
                            let r = inspect_payload_inventory(
                                self.verified,
                                self.sources.as_slice(),
                                Ok(()),
                                Ok(f),
                                Ok(()),
                            );
                            InventoryAction::Finished(r)
                        },
                        None => InventoryAction::Finished(
                            Err(PayloadInventoryError::PayloadMemberMissing { index: 0 }),
                        ),
                    }
                }
            },
            InventoryEvent::Fingerprinted(Err(x)) => {
                self.stage = InventoryStage::Over;
                InventoryAction::Finished(Err(PayloadInventoryError::from_extraction(x)))
            },
            InventoryEvent::Fingerprinted(Ok(f)) => {
                if f.0.len() != self.sources.len() {
                    self.stage = InventoryStage::Over;
                    InventoryAction::Finished(
                        Err(PayloadInventoryError::PayloadMemberMissing { index: 0 }),
                    )
                } else {
                    proof {
                        planned_members_are_distinct(
                            self.verified.expected_archive_member@,
                            str_views(self.sources@),
                        );
                        assert(str_views(self.members@).len() == self.members@.len());
                    }
                    match check_fingerprints(self.members.as_slice(), f.0.as_slice(), f.1, f.2) {
                        Err(y) => {
                            self.stage = InventoryStage::Over;
                            InventoryAction::Finished(Err(y))
                        },
                        Ok(()) => {
                            self.fingerprints = Some(f);
                            self.stage = InventoryStage::AfterReading;
                            InventoryAction::Reattest
                        },
                    }
                }
            },
        }
    }
}

// ---------------------------------------------------------------------------
// The bound helpers at this module's caps
// ---------------------------------------------------------------------------

/// `expected_member` for the first source reference.
pub fn test_expected_archive_member(inf_member: &str, source_path: &str) -> (r: Result<
    String,
    PayloadInventoryError,
>)
    ensures
        match expected_member_spec(0, inf_member@, source_path@) {
            Ok(m) => r matches Ok(s) && s@ == m,
            Err(e) => r == Err::<String, PayloadInventoryError>(e),
        },
{
    expected_member(0, inf_member, source_path)
}

/// `validate_source_path` for the first source reference.
pub fn test_validate_source_path(path: &str) -> (r: Result<(), PayloadInventoryError>)
    ensures
        source_path_ok(path@) ==> r is Ok,
        !source_path_ok(path@) ==> r == Err::<(), PayloadInventoryError>(
            PayloadInventoryError::UnsafeSourcePath { index: 0 },
        ),
{
    validate_source_path(0, path)
}

/// The per-payload cap check at this module's cap.
pub fn test_payload_size_within_cap(size: u64) -> (r: Result<(), PayloadInventoryError>)
    ensures
        size > MAX_PAYLOAD_FILE_BYTES ==> r == Err::<(), PayloadInventoryError>(
            PayloadInventoryError::PayloadTooLarge { index: 0 },
        ),
        size <= MAX_PAYLOAD_FILE_BYTES ==> r is Ok,
{
    lift(payload_size_within_cap(0, size, MAX_PAYLOAD_FILE_BYTES))
}

/// The payload-total accumulator at this module's cap.
pub fn test_accumulate_total_bytes(running: u64, add: u64) -> (r: Result<u64, PayloadInventoryError>)
    ensures
        running + add <= MAX_PAYLOAD_TOTAL_BYTES ==> r == Ok::<u64, PayloadInventoryError>(
            (running + add) as u64,
        ),
        running + add > MAX_PAYLOAD_TOTAL_BYTES ==> r == Err::<u64, PayloadInventoryError>(
            PayloadInventoryError::PayloadTotalBytesExceeded,
        ),
{
    lift(accumulate_payload_bytes(running, add, MAX_PAYLOAD_TOTAL_BYTES))
}

/// The declared decode-cost accumulator at this module's cap.
pub fn test_accumulate_decode_bytes(running: u64, add: u64) -> (r: Result<u64, PayloadInventoryError>)
    ensures
        running + add <= MAX_PAYLOAD_TOTAL_DECODE_BYTES ==> r == Ok::<u64, PayloadInventoryError>(
            (running + add) as u64,
        ),
        running + add > MAX_PAYLOAD_TOTAL_DECODE_BYTES ==> r == Err::<u64, PayloadInventoryError>(
            PayloadInventoryError::PayloadDecodeBudgetExceeded,
        ),
{
    lift(accumulate_payload_decode_bytes(running, add, MAX_PAYLOAD_TOTAL_DECODE_BYTES))
}

/// The runtime decode counter with cap `cap`.
pub fn test_charge_runtime_bytes(running: u64, add: u64, cap: u64) -> (r: Result<
    u64,
    PayloadInventoryError,
>)
    ensures
        running + add <= cap ==> r == Ok::<u64, PayloadInventoryError>((running + add) as u64),
        running + add > cap ==> r == Err::<u64, PayloadInventoryError>(
            PayloadInventoryError::PayloadDecodeBudgetExceeded,
        ),
{
    lift(charge_runtime_payload_bytes(running, add, cap))
}

// ---------------------------------------------------------------------------
// Laws
// ---------------------------------------------------------------------------

/// A plan of expected members has one member per source path, in order,
/// each the INF's directory plus that source path applied once, and no two
/// members equal up to ASCII case: distinct references are never coalesced.
pub proof fn planned_members_are_distinct(inf: Seq<char>, srcs: Seq<Seq<char>>)
    ensures
        members_fold(inf, srcs) matches Ok(acc) ==> {
            &&& acc.0.len() == srcs.len()
            &&& forall|i: int| 0 <= i < srcs.len() ==> #[trigger] acc.0[i] == dir_prefix(inf) + srcs[i]
            &&& forall|i: int, j: int|
                0 <= i < j < srcs.len() ==> !eq_ic(#[trigger] acc.0[i], #[trigger] acc.0[j])
        },
    decreases srcs.len(),
{
    if srcs.len() > 0 {
        let init = srcs.drop_last();
        planned_members_are_distinct(inf, init);
        if let Ok(acc) = members_fold(inf, srcs) {
            let prev = members_fold(inf, init)->Ok_0;
            let m = acc.0.last();
            assert(acc.0 == prev.0.push(m));
            assert forall|i: int| 0 <= i < srcs.len() implies #[trigger] acc.0[i] == dir_prefix(inf)
                + srcs[i] by {
                if i < srcs.len() - 1 {
                    assert(acc.0[i] == prev.0[i]);
                    assert(init[i] == srcs[i]);
                }
            }
            assert forall|i: int, j: int| 0 <= i < j < srcs.len() implies !eq_ic(
                #[trigger] acc.0[i],
                #[trigger] acc.0[j],
            ) by {
                assert(acc.0[i] == prev.0[i]);
                if j < srcs.len() - 1 {
                    assert(acc.0[j] == prev.0[j]);
                } else {
                    assert(!eq_ic(prev.0[i], m));
                }
            }
        }
    }
}

} // verus!
