//! Local SDIO driver-pack resolution and the materialization-request boundary.
//!
//! An SDIO index entry is untrusted metadata: it names a pack stem, an INF
//! directory and an INF leaf, and none of them may ever choose an arbitrary
//! filesystem path. Every name is validated fail-closed before any join;
//! hostile input is rejected, never normalized into safety.
//!
//! The filesystem facts the resolver decides on (root metadata, the expected
//! pack's metadata, canonical paths) are gathered by the caller and handed in
//! as a [`RootProbe`] and a [`ChildProbe`]; the decision itself is pure.
use vstd::prelude::*;
use crate::text::{chars_eq, before_first, before_first_vec, blen, byte_len_exceeds, chars_of, concat2, contains_seq, ends_with, eq_ic, eq_ignore_case, has_char, is_ascii, is_ascii_seq, is_ascii_whitespace, is_ascii_ws, lemma_blen_push, lower, lower_char, lower_seq, owned, pieces, slice_vec, split_char, split_vec, str_eq, str_eq_ignore_case, string_of};
use crate::drivers::sdio::catalog::{MAX_PACK_FILENAME_LEN, Refusal};
use crate::drivers::sdio::matching::{CatalogCandidateMatch, MAX_TOTAL_CANDIDATES};
use crate::drivers::sdio::applicability::{AssessedCatalogCandidate};

verus! {

// ---------------------------------------------------------------------------
// Named bounds
// ---------------------------------------------------------------------------

/// Maximum accepted local driver-pack size: 16 GiB.
pub const MAX_LOCAL_PACK_BYTES: u64 = 17_179_869_184;
/// Maximum total length (bytes) of a normalized archive member path.
pub const MAX_ARCHIVE_MEMBER_LEN: usize = 8192;
/// Maximum number of path components in an archive member.
pub const MAX_ARCHIVE_MEMBER_COMPONENTS: usize = 64;
/// Maximum length (bytes) of one archive member path component.
pub const MAX_ARCHIVE_COMPONENT_LEN: usize = 255;
/// Maximum number of packs resolved in one batch.
pub const MAX_PACKS_PER_BATCH: usize = MAX_TOTAL_CANDIDATES;

// ---------------------------------------------------------------------------
// Domain types
// ---------------------------------------------------------------------------

/// A validated, filesystem-resolved reference to one local `.7z` driver pack.
/// A resolution snapshot, not a permanent trust token.
#[derive(Debug, Clone, PartialEq, Eq)]
pub struct LocalPackRef {
    pub(crate) pack_name: String,
    /// Canonical path of `<root>/<pack_name>.7z`.
    pub(crate) archive_path: String,
    /// Non-zero size in bytes, from filesystem metadata.
    pub(crate) size_bytes: u64,
}

impl LocalPackRef {
    pub closed spec fn pack_name_spec(&self) -> Seq<char> {
        self.pack_name@
    }

    pub closed spec fn archive_path_spec(&self) -> Seq<char> {
        self.archive_path@
    }

    pub closed spec fn size_spec(&self) -> u64 {
        self.size_bytes
    }

    pub fn pack_name(&self) -> (r: &str)
        ensures
            r@ == self.pack_name_spec(),
    {
        self.pack_name.as_str()
    }

    pub fn archive_path(&self) -> (r: &str)
        ensures
            r@ == self.archive_path_spec(),
    {
        self.archive_path.as_str()
    }

    pub fn size_bytes(&self) -> (r: u64)
        ensures
            r == self.size_spec(),
    {
        self.size_bytes
    }
}

/// One validated expected INF archive member (not yet proven to exist).
#[derive(Debug, Clone, PartialEq, Eq)]
pub struct ExpectedArchiveMember {
    /// Normalized relative member path using `/`, source casing preserved.
    pub(crate) relative_path: String,
}

impl ExpectedArchiveMember {
    pub closed spec fn path_spec(&self) -> Seq<char> {
        self.relative_path@
    }

    pub fn relative_path(&self) -> (r: &str)
        ensures
            r@ == self.path_spec(),
    {
        self.relative_path.as_str()
    }
}

/// The exact local pack plus the expected INF member inside it.
#[derive(Debug, Clone, PartialEq, Eq)]
pub struct PackageMaterializationRequest {
    pub(crate) pack: LocalPackRef,
    pub(crate) inf: ExpectedArchiveMember,
}

impl PackageMaterializationRequest {
    pub closed spec fn pack_spec(&self) -> LocalPackRef {
        self.pack
    }

    pub closed spec fn inf_spec(&self) -> ExpectedArchiveMember {
        self.inf
    }

    pub fn pack(&self) -> (r: &LocalPackRef)
        ensures
            *r == self.pack_spec(),
    {
        &self.pack
    }

    pub fn inf(&self) -> (r: &ExpectedArchiveMember)
        ensures
            *r == self.inf_spec(),
    {
        &self.inf
    }
}

/// Result of resolving one candidate's pack under an explicit drivers root.
#[derive(Debug, Clone, PartialEq, Eq)]
pub enum LocalPackAvailability {
    Present(PackageMaterializationRequest),
    Missing { pack_name: String, expected_filename: String },
}

/// Explicit rejection reasons for local-pack resolution.
#[derive(Debug, Clone, PartialEq, Eq)]
pub enum LocalPackError {
    InvalidDriversRoot(String),
    InvalidPackName(String),
    PackNameTooLong,
    InvalidInfPath(String),
    InvalidInfFilename(String),
    PackNotRegularFile(String),
    PackSymlinkRejected(String),
    PackEscapesRoot(String),
    PackEmpty(String),
    PackTooLarge(u64),
    ArchiveMemberTooLong,
    TooManyArchiveComponents,
    ArchiveComponentTooLong,
    TooManyPacks,
    Io(String),
}

// ---------------------------------------------------------------------------
// Windows-invalid components
// ---------------------------------------------------------------------------

pub open spec fn forbidden_char(c: char) -> bool {
    c == '<' || c == '>' || c == '"' || c == '|' || c == '?' || c == '*'
}

pub open spec fn control_char(c: char) -> bool {
    1 <= (c as u32) && (c as u32) <= 0x1F
}

/// Windows-reserved DOS device names (with the legacy superscript spellings).
pub open spec fn reserved_names() -> Seq<Seq<char>> {
    seq![
        seq!['C', 'O', 'N'],
        seq!['P', 'R', 'N'],
        seq!['A', 'U', 'X'],
        seq!['N', 'U', 'L'],
        seq!['C', 'O', 'M', '1'],
        seq!['C', 'O', 'M', '2'],
        seq!['C', 'O', 'M', '3'],
        seq!['C', 'O', 'M', '4'],
        seq!['C', 'O', 'M', '5'],
        seq!['C', 'O', 'M', '6'],
        seq!['C', 'O', 'M', '7'],
        seq!['C', 'O', 'M', '8'],
        seq!['C', 'O', 'M', '9'],
        seq!['L', 'P', 'T', '1'],
        seq!['L', 'P', 'T', '2'],
        seq!['L', 'P', 'T', '3'],
        seq!['L', 'P', 'T', '4'],
        seq!['L', 'P', 'T', '5'],
        seq!['L', 'P', 'T', '6'],
        seq!['L', 'P', 'T', '7'],
        seq!['L', 'P', 'T', '8'],
        seq!['L', 'P', 'T', '9'],
        seq!['C', 'O', 'M', '¹'],
        seq!['C', 'O', 'M', '²'],
        seq!['C', 'O', 'M', '³'],
        seq!['L', 'P', 'T', '¹'],
        seq!['L', 'P', 'T', '²'],
        seq!['L', 'P', 'T', '³'],
    ]
}

pub open spec fn is_reserved_stem(stem: Seq<char>, names: Seq<Seq<char>>) -> bool {
    exists|k: int| 0 <= k < names.len() && eq_ic(stem, #[trigger] names[k])
}

/// A component Windows cannot hold: a forbidden character, an ASCII control
/// character, or a reserved device name as its stem (text before the first `.`).
pub open spec fn win_invalid(s: Seq<char>) -> bool {
    (exists|i: int| 0 <= i < s.len() && forbidden_char(#[trigger] s[i])) || (exists|i: int|
        0 <= i < s.len() && control_char(#[trigger] s[i])) || is_reserved_stem(
        before_first(s, '.'),
        reserved_names(),
    )
}

fn reserved_name(k: usize) -> (r: Vec<char>)
    requires
        k < 28,
    ensures
        r@ == reserved_names()[k as int],
{
    match k {
        0 => vec!['C', 'O', 'N'],
        1 => vec!['P', 'R', 'N'],
        2 => vec!['A', 'U', 'X'],
        3 => vec!['N', 'U', 'L'],
        4 => vec!['C', 'O', 'M', '1'],
        5 => vec!['C', 'O', 'M', '2'],
        6 => vec!['C', 'O', 'M', '3'],
        7 => vec!['C', 'O', 'M', '4'],
        8 => vec!['C', 'O', 'M', '5'],
        9 => vec!['C', 'O', 'M', '6'],
        10 => vec!['C', 'O', 'M', '7'],
        11 => vec!['C', 'O', 'M', '8'],
        12 => vec!['C', 'O', 'M', '9'],
        13 => vec!['L', 'P', 'T', '1'],
        14 => vec!['L', 'P', 'T', '2'],
        15 => vec!['L', 'P', 'T', '3'],
        16 => vec!['L', 'P', 'T', '4'],
        17 => vec!['L', 'P', 'T', '5'],
        18 => vec!['L', 'P', 'T', '6'],
        19 => vec!['L', 'P', 'T', '7'],
        20 => vec!['L', 'P', 'T', '8'],
        21 => vec!['L', 'P', 'T', '9'],
        22 => vec!['C', 'O', 'M', '¹'],
        23 => vec!['C', 'O', 'M', '²'],
        24 => vec!['C', 'O', 'M', '³'],
        25 => vec!['L', 'P', 'T', '¹'],
        26 => vec!['L', 'P', 'T', '²'],
        _ => vec!['L', 'P', 'T', '³'],
    }
}

/// Whether `stem` equals one of the first `count` reserved names
/// (ASCII case-insensitive).
pub fn stem_is_reserved(stem: &[char], count: usize) -> (r: bool)
    requires
        count <= 28,
    ensures
        r == is_reserved_stem(stem@, reserved_names().take(count as int)),
{
    let ghost names = reserved_names().take(count as int);
    let mut k: usize = 0;
    while k < count
        invariant
            k <= count <= 28,
            names == reserved_names().take(count as int),
            forall|j: int| 0 <= j < k ==> !eq_ic(stem@, #[trigger] names[j]),
        decreases count - k,
    {
        let name = reserved_name(k);
        if eq_ignore_case(stem, name.as_slice()) {
            proof {
                assert(names[k as int] == reserved_names()[k as int]);
            }
            return true;
        }
        k = k + 1;
    }
    false
}

pub fn has_forbidden_or_control(v: &[char]) -> (r: (bool, bool))
    ensures
        r.0 == (exists|i: int| 0 <= i < v@.len() && forbidden_char(#[trigger] v@[i])),
        r.1 == (exists|i: int| 0 <= i < v@.len() && control_char(#[trigger] v@[i])),
{
    let mut forb = false;
    let mut ctrl = false;
    let mut i: usize = 0;
    while i < v.len()
        invariant
            i <= v@.len(),
            forb == (exists|j: int| 0 <= j < i && forbidden_char(#[trigger] v@[j])),
            ctrl == (exists|j: int| 0 <= j < i && control_char(#[trigger] v@[j])),
        decreases v.len() - i,
    {
        let c = v[i];
        if c == '<' || c == '>' || c == '"' || c == '|' || c == '?' || c == '*' {
            forb = true;
        }
        let u = c as u32;
        if 1 <= u && u <= 0x1F {
            ctrl = true;
        }
        i = i + 1;
    }
    (forb, ctrl)
}

/// Reject Windows-invalid path components: forbidden characters `<>"|?*`,
/// ASCII control characters and reserved DOS device names.
pub fn is_windows_invalid_component(comp: &[char]) -> (r: bool)
    ensures
        r == win_invalid(comp@),
{
    let (forb, ctrl) = has_forbidden_or_control(comp);
    if forb || ctrl {
        return true;
    }
    let stem = before_first_vec(comp, '.');
    proof {
        assert(reserved_names().take(28) =~= reserved_names());
    }
    stem_is_reserved(stem.as_slice(), 28)
}

// ---------------------------------------------------------------------------
// Pack stem
// ---------------------------------------------------------------------------

pub open spec fn has_path_char(s: Seq<char>) -> bool {
    s.contains('/') || s.contains('\\') || s.contains(':') || s.contains('\0')
}

/// Why a pack stem is refused, in the order the checks apply.
pub open spec fn pack_stem_refusal(s: Seq<char>) -> Option<bool> {
    // Some(true): too long; Some(false): invalid name; None: accepted.
    if s.len() == 0 {
        Some(false)
    } else if blen(s) > 252 {
        Some(true)
    } else if s == seq!['.'] || s == seq!['.', '.'] || !is_ascii_seq(s) || win_invalid(s)
        || is_ascii_ws(s[0]) || is_ascii_ws(s.last()) || s.last() == '.' || has_path_char(s) {
        Some(false)
    } else {
        None
    }
}

pub fn has_any_path_char(v: &[char]) -> (r: bool)
    ensures
        r == has_path_char(v@),
{
    has_char(v, '/') || has_char(v, '\\') || has_char(v, ':') || has_char(v, '\0')
}

fn is_dot_or_dotdot(v: &[char]) -> (r: bool)
    ensures
        r == (v@ == seq!['.'] || v@ == seq!['.', '.']),
{
    if v.len() == 1 {
        let r = v[0] == '.';
        proof {
            if r {
                assert(v@ =~= seq!['.']);
            }
        }
        r
    } else if v.len() == 2 {
        let r = v[0] == '.' && v[1] == '.';
        proof {
            if r {
                assert(v@ =~= seq!['.', '.']);
            }
        }
        r
    } else {
        false
    }
}

/// Pure pack-stem validator.
fn validate_pack_stem(pack_name: &str) -> (r: Result<(), LocalPackError>)
    ensures
        match pack_stem_refusal(pack_name@) {
            None => r is Ok,
            Some(true) => r == Err::<(), LocalPackError>(LocalPackError::PackNameTooLong),
            Some(false) => r matches Err(LocalPackError::InvalidPackName(s)) && s@ == pack_name@,
        },
{
    let v = chars_of(pack_name);
    if v.len() == 0 {
        return Err(LocalPackError::InvalidPackName(owned(pack_name)));
    }
    if byte_len_exceeds(v.as_slice(), MAX_PACK_FILENAME_LEN - 4) {
        return Err(LocalPackError::PackNameTooLong);
    }
    if is_dot_or_dotdot(v.as_slice()) || !is_ascii(v.as_slice())
        || is_windows_invalid_component(v.as_slice()) || is_ascii_whitespace(v[0])
        || is_ascii_whitespace(v[v.len() - 1]) || v[v.len() - 1] == '.' || has_any_path_char(
        v.as_slice(),
    ) {
        return Err(LocalPackError::InvalidPackName(owned(pack_name)));
    }
    Ok(())
}

/// `<pack_name>.7z` after validating the stem.
pub fn expected_pack_filename(pack_name: &str) -> (r: Result<String, LocalPackError>)
    ensures
        match pack_stem_refusal(pack_name@) {
            None => r matches Ok(s) && s@ == pack_name@ + seq!['.', '7', 'z'],
            Some(true) => r == Err::<String, LocalPackError>(LocalPackError::PackNameTooLong),
            Some(false) => r matches Err(LocalPackError::InvalidPackName(s)) && s@ == pack_name@,
        },
{
    match validate_pack_stem(pack_name) {
        Err(e) => Err(e),
        Ok(()) => {
            let mut v = chars_of(pack_name);
            v.push('.');
            v.push('7');
            v.push('z');
            proof {
                assert(v@ =~= pack_name@ + seq!['.', '7', 'z']);
            }
            Ok(string_of(v.as_slice()))
        },
    }
}

/// Pure size-bound validator: zero is empty, above the cap is too large.
pub fn validate_pack_size(size_bytes: u64) -> (r: Result<(), LocalPackError>)
    ensures
        size_bytes == 0 ==> (r matches Err(LocalPackError::PackEmpty(p)) && p@.len() == 0),
        size_bytes > MAX_LOCAL_PACK_BYTES ==> r == Err::<(), LocalPackError>(
            LocalPackError::PackTooLarge(size_bytes),
        ),
        0 < size_bytes <= MAX_LOCAL_PACK_BYTES ==> r is Ok,
{
    if size_bytes == 0 {
        return Err(LocalPackError::PackEmpty(String::new()));
    }
    if size_bytes > MAX_LOCAL_PACK_BYTES {
        return Err(LocalPackError::PackTooLarge(size_bytes));
    }
    Ok(())
}

// ---------------------------------------------------------------------------
// Expected INF member
// ---------------------------------------------------------------------------

/// The kind of a member-composition refusal (the payload, where there is
/// one, is the offending input verbatim).
#[derive(PartialEq, Eq)]
pub enum MemberRefusal {
    MemberTooLong,
    ComponentTooLong,
    TooManyComponents,
    BadPath,
    BadFile,
}

pub open spec fn refusal_is(
    e: LocalPackError,
    k: MemberRefusal,
    path: Seq<char>,
    file: Seq<char>,
) -> bool {
    match k {
        MemberRefusal::MemberTooLong => e == LocalPackError::ArchiveMemberTooLong,
        MemberRefusal::ComponentTooLong => e == LocalPackError::ArchiveComponentTooLong,
        MemberRefusal::TooManyComponents => e == LocalPackError::TooManyArchiveComponents,
        MemberRefusal::BadPath => e matches LocalPackError::InvalidInfPath(s) && s@ == path,
        MemberRefusal::BadFile => e matches LocalPackError::InvalidInfFilename(s) && s@ == file,
    }
}

/// A component ending in `.` or ASCII whitespace (Windows would strip it).
pub open spec fn ambiguous_tail(c: Seq<char>) -> bool {
    c.len() > 0 && (c.last() == '.' || is_ascii_ws(c.last()))
}

/// Refusal for one INF directory component.
pub open spec fn dir_component_refusal(c: Seq<char>) -> Option<MemberRefusal> {
    if c.len() == 0 || c == seq!['.'] || c == seq!['.', '.'] || ambiguous_tail(c) || win_invalid(
        c,
    ) {
        Some(MemberRefusal::BadPath)
    } else if blen(c) > MAX_ARCHIVE_COMPONENT_LEN {
        Some(MemberRefusal::ComponentTooLong)
    } else {
        None
    }
}

/// First refusal among components `k..`; a 64th component is refused.
pub open spec fn dir_refusal(comps: Seq<Seq<char>>, k: nat) -> Option<MemberRefusal>
    decreases comps.len() - k,
{
    if k >= comps.len() {
        None
    } else if dir_component_refusal(comps[k as int]) is Some {
        dir_component_refusal(comps[k as int])
    } else if k + 1 >= MAX_ARCHIVE_MEMBER_COMPONENTS {
        Some(MemberRefusal::TooManyComponents)
    } else {
        dir_refusal(comps, k + 1)
    }
}

/// Refusal for the INF leaf: one `.inf` component.
pub open spec fn leaf_refusal(f: Seq<char>) -> Option<MemberRefusal> {
    if f.len() == 0 {
        Some(MemberRefusal::BadFile)
    } else if blen(f) > MAX_ARCHIVE_COMPONENT_LEN {
        Some(MemberRefusal::ComponentTooLong)
    } else if has_path_char(f) || win_invalid(f) || f == seq!['.'] || f == seq!['.', '.']
        || !ends_with(lower_seq(f), seq!['.', 'i', 'n', 'f']) {
        Some(MemberRefusal::BadFile)
    } else {
        None
    }
}

/// The INF directory with one trailing `\` terminator removed.
pub open spec fn inf_dir(p: Seq<char>) -> Seq<char> {
    if p.len() > 0 && p.last() == '\\' {
        p.drop_last()
    } else {
        p
    }
}

pub open spec fn slash_of(c: char) -> char {
    if c == '\\' {
        '/'
    } else {
        c
    }
}

/// `\` rewritten to `/`, nothing else changed.
pub open spec fn to_slashes(s: Seq<char>) -> Seq<char> {
    s.map_values(|c: char| slash_of(c))
}

/// The expected member text: directory components joined by `/`, then the leaf.
pub open spec fn member_text(p: Seq<char>, f: Seq<char>) -> Seq<char> {
    if inf_dir(p).len() == 0 {
        f
    } else {
        to_slashes(inf_dir(p)).push('/') + f
    }
}

/// The refusal `expected_inf_member` answers, in check order.
pub open spec fn member_refusal(p: Seq<char>, f: Seq<char>) -> Option<MemberRefusal> {
    if blen(p) > MAX_ARCHIVE_MEMBER_LEN {
        Some(MemberRefusal::MemberTooLong)
    } else if blen(f) > MAX_ARCHIVE_COMPONENT_LEN {
        Some(MemberRefusal::ComponentTooLong)
    } else if p.contains('\0') {
        Some(MemberRefusal::BadPath)
    } else if f.contains('\0') {
        Some(MemberRefusal::BadFile)
    } else if p.contains('/') || p.contains(':') {
        Some(MemberRefusal::BadPath)
    } else if f.contains(':') {
        Some(MemberRefusal::BadFile)
    } else if (p.len() > 0 && p[0] == '\\') || contains_seq(p, seq!['\\', '\\']) {
        Some(MemberRefusal::BadPath)
    } else if inf_dir(p).len() > 0 && dir_refusal(split_char(inf_dir(p), '\\'), 0) is Some {
        dir_refusal(split_char(inf_dir(p), '\\'), 0)
    } else if leaf_refusal(f) is Some {
        leaf_refusal(f)
    } else if blen(member_text(p, f)) > MAX_ARCHIVE_MEMBER_LEN {
        Some(MemberRefusal::MemberTooLong)
    } else {
        None
    }
}

fn has_double_backslash(v: &[char]) -> (r: bool)
    ensures
        r == contains_seq(v@, seq!['\\', '\\']),
{
    let mut i: usize = 0;
    while v.len() - i > 1
        invariant
            i <= v@.len(),
            forall|k: int|
                0 <= k < i && k + 1 < v@.len() ==> !(#[trigger] v@[k] == '\\' && v@[k + 1] == '\\'),
        decreases v.len() - i,
    {
        if v[i] == '\\' && v[i + 1] == '\\' {
            proof {
                assert(v@.subrange(i as int, i + 2) =~= seq!['\\', '\\']);
            }
            return true;
        }
        i = i + 1;
    }
    proof {
        assert forall|k: int|
            0 <= k && k + 2 <= v@.len() implies #[trigger] v@.subrange(k, k + 2) != seq![
            '\\',
            '\\',
        ] by {
            if v@.subrange(k, k + 2) == seq!['\\', '\\'] {
                assert(v@[k] == v@.subrange(k, k + 2)[0]);
                assert(v@[k + 1] == v@.subrange(k, k + 2)[1]);
            }
        }
    }
    false
}

fn leaf_check(f: &[char]) -> (r: Option<MemberRefusal>)
    ensures
        r == leaf_refusal(f@),
{
    if f.len() == 0 {
        return Some(MemberRefusal::BadFile);
    }
    if byte_len_exceeds(f, MAX_ARCHIVE_COMPONENT_LEN) {
        return Some(MemberRefusal::ComponentTooLong);
    }
    if has_any_path_char(f) || is_windows_invalid_component(f) || is_dot_or_dotdot(f) {
        return Some(MemberRefusal::BadFile);
    }
    let n = f.len();
    let ok_ext = n >= 4 && f[n - 4] == '.' && lower_char(f[n - 3]) == 'i' && lower_char(f[n - 2])
        == 'n' && lower_char(f[n - 1]) == 'f';
    proof {
        let l = lower_seq(f@);
        let ext = seq!['.', 'i', 'n', 'f'];
        if n >= 4 {
            assert(lower('.') == '.');
            if ok_ext {
                assert(l.skip(l.len() - 4) =~= ext);
            } else {
                if ends_with(l, ext) {
                    assert(l.skip(l.len() - 4)[0] == l[n - 4]);
                    assert(l.skip(l.len() - 4)[1] == l[n - 3]);
                    assert(l.skip(l.len() - 4)[2] == l[n - 2]);
                    assert(l.skip(l.len() - 4)[3] == l[n - 1]);
                    assert(lower(f@[n - 4]) == '.');
                    assert(f@[n - 4] == '.');
                }
            }
        }
    }
    if !ok_ext {
        return Some(MemberRefusal::BadFile);
    }
    None
}

fn dir_component_check(c: &[char]) -> (r: Option<MemberRefusal>)
    ensures
        r == dir_component_refusal(c@),
{
    if c.len() == 0 || is_dot_or_dotdot(c) {
        return Some(MemberRefusal::BadPath);
    }
    let last = c[c.len() - 1];
    if last == '.' || is_ascii_whitespace(last) || is_windows_invalid_component(c) {
        return Some(MemberRefusal::BadPath);
    }
    if byte_len_exceeds(c, MAX_ARCHIVE_COMPONENT_LEN) {
        return Some(MemberRefusal::ComponentTooLong);
    }
    None
}

fn map_refusal(k: MemberRefusal, inf_path: &str, inf_filename: &str) -> (e: LocalPackError)
    ensures
        refusal_is(e, k, inf_path@, inf_filename@),
{
    match k {
        MemberRefusal::MemberTooLong => LocalPackError::ArchiveMemberTooLong,
        MemberRefusal::ComponentTooLong => LocalPackError::ArchiveComponentTooLong,
        MemberRefusal::TooManyComponents => LocalPackError::TooManyArchiveComponents,
        MemberRefusal::BadPath => LocalPackError::InvalidInfPath(owned(inf_path)),
        MemberRefusal::BadFile => LocalPackError::InvalidInfFilename(owned(inf_filename)),
    }
}

/// Build the validated expected archive member from the candidate's INF
/// directory (`\`-separated, optional trailing `\`) and leaf filename.
/// Only `\` → `/` is normalized; everything hostile is refused.
pub fn expected_inf_member(inf_path: &str, inf_filename: &str) -> (r: Result<
    ExpectedArchiveMember,
    LocalPackError,
>)
    ensures
        match member_refusal(inf_path@, inf_filename@) {
            None => r matches Ok(m) && m.path_spec() == member_text(inf_path@, inf_filename@),
            Some(k) => r matches Err(e) && refusal_is(e, k, inf_path@, inf_filename@),
        },
{
    let p = chars_of(inf_path);
    let f = chars_of(inf_filename);
    let k = member_check(p.as_slice(), f.as_slice());
    match k {
        Err(k) => Err(map_refusal(k, inf_path, inf_filename)),
        Ok(m) => Ok(ExpectedArchiveMember { relative_path: string_of(m.as_slice()) }),
    }
}

#[verifier::loop_isolation(false)]
fn member_check(p: &[char], f: &[char]) -> (r: Result<Vec<char>, MemberRefusal>)
    ensures
        match member_refusal(p@, f@) {
            None => r matches Ok(m) && m@ == member_text(p@, f@),
            Some(k) => r == Err::<Vec<char>, MemberRefusal>(k),
        },
{
    if byte_len_exceeds(p, MAX_ARCHIVE_MEMBER_LEN) {
        return Err(MemberRefusal::MemberTooLong);
    }
    if byte_len_exceeds(f, MAX_ARCHIVE_COMPONENT_LEN) {
        return Err(MemberRefusal::ComponentTooLong);
    }
    if has_char(p, '\0') {
        return Err(MemberRefusal::BadPath);
    }
    if has_char(f, '\0') {
        return Err(MemberRefusal::BadFile);
    }
    if has_char(p, '/') || has_char(p, ':') {
        return Err(MemberRefusal::BadPath);
    }
    if has_char(f, ':') {
        return Err(MemberRefusal::BadFile);
    }
    if (p.len() > 0 && p[0] == '\\') || has_double_backslash(p) {
        return Err(MemberRefusal::BadPath);
    }
    let dir_end = if p.len() > 0 && p[p.len() - 1] == '\\' {
        p.len() - 1
    } else {
        p.len()
    };
    let dir = slice_vec(p, 0, dir_end);
    proof {
        assert(dir@ =~= inf_dir(p@));
    }
    if dir.len() > 0 {
        let comps = split_vec(dir.as_slice(), '\\');
        let ghost cs = split_char(dir@, '\\');
        let mut k: usize = 0;
        while k < comps.len()
            invariant
                k <= comps@.len(),
                pieces(comps@) == cs,
                dir_refusal(cs, 0) == dir_refusal(cs, k as nat),
            decreases comps.len() - k,
        {
            let c = &comps[k];
            assert(c@ == cs[k as int]);
            let ck = dir_component_check(c.as_slice());
            proof {
                assert(k < cs.len());
            }
            match ck {
                Some(reason) => {
                    proof {
                        assert(dir_refusal(cs, k as nat) == dir_component_refusal(cs[k as int]));
                    }
                    return Err(reason);
                },
                None => {},
            }
            if k + 1 >= MAX_ARCHIVE_MEMBER_COMPONENTS {
                proof {
                    assert(dir_refusal(cs, k as nat) == Some(MemberRefusal::TooManyComponents));
                }
                return Err(MemberRefusal::TooManyComponents);
            }
            k = k + 1;
        }
    }
    let lk = leaf_check(f);
    match lk {
        Some(reason) => {
            return Err(reason);
        },
        None => {},
    }
    let mut m: Vec<char> = Vec::new();
    if dir.len() > 0 {
        let mut i: usize = 0;
        while i < dir.len()
            invariant
                i <= dir@.len(),
                m@ == to_slashes(dir@).take(i as int),
            decreases dir.len() - i,
        {
            let c = dir[i];
            let out = if c == '\\' {
                '/'
            } else {
                c
            };
            m.push(out);
            proof {
                assert(m@ =~= to_slashes(dir@).take(i + 1));
            }
            i = i + 1;
        }
        m.push('/');
        proof {
            assert(to_slashes(dir@).take(dir@.len() as int) =~= to_slashes(dir@));
        }
    }
    let mut j: usize = 0;
    let ghost base = m@;
    while j < f.len()
        invariant
            j <= f@.len(),
            m@ == base + f@.take(j as int),
        decreases f.len() - j,
    {
        m.push(f[j]);
        proof {
            assert(m@ =~= base + f@.take(j + 1));
        }
        j = j + 1;
    }
    proof {
        assert(f@.take(f@.len() as int) =~= f@);
        assert(m@ =~= member_text(p@, f@));
    }
    if byte_len_exceeds(m.as_slice(), MAX_ARCHIVE_MEMBER_LEN) {
        return Err(MemberRefusal::MemberTooLong);
    }
    Ok(m)
}

// ---------------------------------------------------------------------------
// Filesystem-resolution decision
// ---------------------------------------------------------------------------

/// What the caller found at the configured drivers root.
#[derive(Debug, Clone, PartialEq, Eq)]
pub enum RootState {
    /// Its metadata could not be read (the error's text).
    Unreadable(String),
    /// It exists but is not a directory.
    NotDirectory,
    /// It is a directory but could not be canonicalized (the error's text).
    CanonicalizeFailed(String),
    /// It is a directory with this canonical path.
    Canonical(String),
}

/// The drivers root as probed: its display form and its state.
#[derive(Debug, Clone, PartialEq, Eq)]
pub struct RootProbe {
    pub display: String,
    pub state: RootState,
}

/// `\\` or `/`.
pub open spec fn is_leaf_sep(c: char) -> bool {
    c == '\\' || c == '/'
}

/// `path` is the folder `parent` joined with the leaf `name`: one separator
/// between them, or none where `parent` already ends with one (a volume
/// root).
pub open spec fn joins_leaf(path: Seq<char>, parent: Seq<char>, name: Seq<char>) -> bool {
    ||| path == parent + seq!['\\'] + name
    ||| path == parent + seq!['/'] + name
    ||| (parent.len() > 0 && is_leaf_sep(parent.last()) && path == parent + name)
}

/// Whether `path` is `parent` joined with `name`.
pub fn path_joins_leaf(path: &str, parent: &str, name: &str) -> (r: bool)
    ensures
        r == joins_leaf(path@, parent@, name@),
{
    let p = chars_of(path);
    let a = chars_of(parent);
    let n = chars_of(name);
    if n.len() > p.len() {
        return false;
    }
    let rest = p.len() - n.len();
    if a.len() > rest {
        return false;
    }
    let head = slice_vec(p.as_slice(), 0, a.len());
    let tail = slice_vec(p.as_slice(), rest, p.len());
    if !chars_eq(head.as_slice(), a.as_slice()) {
        proof {
            assert forall|x: Seq<char>| p@ == a@ + x + n@ implies false by {
                assert(p@.subrange(0, a@.len() as int) =~= a@);
            }
            assert(p@ != a@ + seq!['\\'] + n@);
            assert(p@ != a@ + seq!['/'] + n@);
            assert(p@ != a@ + n@ + Seq::<char>::empty()) by {
                if p@ == a@ + n@ {
                    assert(p@ == a@ + Seq::<char>::empty() + n@);
                }
            }
            assert(a@ + n@ + Seq::<char>::empty() =~= a@ + n@);
        }
        return false;
    }
    if !chars_eq(tail.as_slice(), n.as_slice()) {
        proof {
            assert forall|x: Seq<char>| p@ == a@ + x + n@ implies false by {
                assert(p@.subrange(rest as int, p@.len() as int) =~= n@);
            }
            assert(p@ != a@ + seq!['\\'] + n@);
            assert(p@ != a@ + seq!['/'] + n@);
            if p@ == a@ + n@ {
                assert(p@ == a@ + Seq::<char>::empty() + n@);
            }
        }
        return false;
    }
    let gap = rest - a.len();
    proof {
        assert(p@ =~= a@ + p@.subrange(a@.len() as int, rest as int) + n@);
    }
    if gap == 1 {
        let c = p[a.len()];
        proof {
            assert(p@.subrange(a@.len() as int, rest as int) =~= seq![c]);
        }
        return c == '\\' || c == '/';
    }
    if gap == 0 {
        proof {
            assert(p@.subrange(a@.len() as int, rest as int) =~= Seq::<char>::empty());
            assert(a@ + Seq::<char>::empty() =~= a@);
        }
        if a.len() == 0 {
            return false;
        }
        let c = a[a.len() - 1];
        return c == '\\' || c == '/';
    }
    false
}

/// The canonical form of an existing pack file: its path, and the parent
/// folder and leaf name taken from that path.
#[derive(Debug, Clone, PartialEq, Eq)]
pub struct CanonicalChild {
    pub path: String,
    pub parent: Option<String>,
    pub file_name: Option<String>,
}

/// What the caller found at `<canonical root>/<pack>.7z` (the `path`), with
/// link-free metadata read first.
#[derive(Debug, Clone, PartialEq, Eq)]
pub enum ChildState {
    NotFound,
    /// Metadata could not be read for another reason (the error's text).
    Unreadable(String),
    Symlink,
    NotRegularFile,
    /// A regular file of `size` bytes, and its canonicalization result.
    File { size: u64, canonical: CanonicalProbe },
}

/// The canonicalization of the pack path: resolved, or failed (the error's text).
#[derive(Debug, Clone, PartialEq, Eq)]
pub enum CanonicalProbe {
    Resolved(CanonicalChild),
    Failed(String),
}

#[derive(Debug, Clone, PartialEq, Eq)]
pub struct ChildProbe {
    pub path: String,
    pub state: ChildState,
}

/// File-name equality for the containment check: ASCII case-insensitive on a
/// case-insensitive host (Windows), exact elsewhere.
pub open spec fn names_equal(a: Seq<char>, b: Seq<char>, case_insensitive_host: bool) -> bool {
    if case_insensitive_host {
        eq_ic(a, b)
    } else {
        a == b
    }
}

fn names_equal_for_host(a: &str, b: &str, case_insensitive_host: bool) -> (r: bool)
    ensures
        r == names_equal(a@, b@, case_insensitive_host),
{
    if case_insensitive_host {
        str_eq_ignore_case(a, b)
    } else {
        str_eq(a, b)
    }
}

/// `r` is the error `"<display>: <detail>"` about the drivers root.
pub open spec fn root_error(r: Result<LocalPackAvailability, LocalPackError>, display: Seq<char>, detail: Seq<char>) -> bool {
    r matches Err(LocalPackError::InvalidDriversRoot(m)) && m@ == display + seq![':', ' '] + detail
}

/// The outcome of resolving one candidate's pack, given the probes: root
/// refusals; then the pack stem and the expected INF member validated
/// (before any availability is reported); a missing pack is `Missing`; then
/// link, file type, canonical containment (canonical parent is the canonical
/// root, canonical leaf is the expected name) and size bounds.
pub open spec fn resolution_is(
    r: Result<LocalPackAvailability, LocalPackError>,
    root: RootProbe,
    pack: Seq<char>,
    inf_path: Seq<char>,
    inf_file: Seq<char>,
    child: ChildProbe,
    ci: bool,
) -> bool {
    match root.state {
        RootState::Unreadable(e) => root_error(r, root.display@, e@),
        RootState::NotDirectory => root_error(
            r,
            root.display@,
            seq!['n', 'o', 't', ' ', 'a', ' ', 'd', 'i', 'r', 'e', 'c', 't', 'o', 'r', 'y'],
        ),
        RootState::CanonicalizeFailed(e) => root_error(r, root.display@, e@),
        RootState::Canonical(croot) => match pack_stem_refusal(pack) {
            Some(true) => r == Err::<LocalPackAvailability, LocalPackError>(
                LocalPackError::PackNameTooLong,
            ),
            Some(false) => r matches Err(LocalPackError::InvalidPackName(s)) && s@ == pack,
            None => {
                let filename = pack + seq!['.', '7', 'z'];
                match member_refusal(inf_path, inf_file) {
                    Some(k) => r matches Err(e) && refusal_is(e, k, inf_path, inf_file),
                    None => match child.state {
                        ChildState::NotFound => r matches Ok(
                            LocalPackAvailability::Missing { pack_name: n, expected_filename: f },
                        ) && n@ == pack && f@ == filename,
                        ChildState::Unreadable(e) => r matches Err(LocalPackError::Io(m)) && m@
                            == e@,
                        ChildState::Symlink => r matches Err(LocalPackError::PackSymlinkRejected(m))
                            && m@ == child.path@,
                        ChildState::NotRegularFile => r matches Err(
                            LocalPackError::PackNotRegularFile(m),
                        ) && m@ == child.path@,
                        ChildState::File { size, canonical } => match canonical {
                            CanonicalProbe::Failed(e) => r matches Err(LocalPackError::Io(m)) && m@
                                == e@,
                            CanonicalProbe::Resolved(cc) => if !(cc.parent matches Some(par) && par@ == croot@) || !(
                            cc.file_name matches Some(n) && names_equal(n@, filename, ci)) || !joins_leaf(
                                cc.path@,
                                cc.parent->0@,
                                cc.file_name->0@,
                            ) {
                                r matches Err(LocalPackError::PackEscapesRoot(m)) && m@ == cc.path@
                            } else if size == 0 {
                                r matches Err(LocalPackError::PackEmpty(m)) && m@ == child.path@
                            } else if size > MAX_LOCAL_PACK_BYTES {
                                r == Err::<LocalPackAvailability, LocalPackError>(
                                    LocalPackError::PackTooLarge(size),
                                )
                            } else {
                                r matches Ok(LocalPackAvailability::Present(req))
                                    && req.pack_spec().pack_name_spec() == pack
                                    && req.pack_spec().archive_path_spec() == cc.path@
                                    && req.pack_spec().size_spec() == size
                                    && req.inf_spec().path_spec() == member_text(
                                    inf_path,
                                    inf_file,
                                )
                            },
                        },
                    },
                }
            },
        },
    }
}

fn root_refusal(display: &String, detail: &str) -> (r: LocalPackError)
    ensures
        r matches LocalPackError::InvalidDriversRoot(m) && m@ == display@ + seq![':', ' '] + detail@,
{
    let head = concat2(display.as_str(), ": ");
    proof {
        reveal_strlit(": ");
        assert(display@ + ": "@ =~= display@ + seq![':', ' ']);
    }
    LocalPackError::InvalidDriversRoot(concat2(head.as_str(), detail))
}

/// Resolve the exact local pack for a matched candidate from the probes of
/// the explicit drivers root and of its direct child `<pack>.7z`. Only the
/// direct child is considered; a nested or differently named file is
/// `Missing`, never a nearest match. The result is a resolution snapshot.
pub fn resolve_local_pack(
    root: &RootProbe,
    matched: &CatalogCandidateMatch,
    child: &ChildProbe,
    case_insensitive_host: bool,
) -> (r: Result<LocalPackAvailability, LocalPackError>)
    ensures
        resolution_is(
            r,
            *root,
            matched.pack_name@,
            matched.candidate.inf_path@,
            matched.candidate.inf_filename@,
            *child,
            case_insensitive_host,
        ),
{
    let croot = match &root.state {
        RootState::Unreadable(e) => {
            return Err(root_refusal(&root.display, e.as_str()));
        },
        RootState::NotDirectory => {
            let r = root_refusal(&root.display, "not a directory");
            proof {
                reveal_strlit("not a directory");
                assert("not a directory"@ =~= seq![
                    'n',
                    'o',
                    't',
                    ' ',
                    'a',
                    ' ',
                    'd',
                    'i',
                    'r',
                    'e',
                    'c',
                    't',
                    'o',
                    'r',
                    'y',
                ]);
            }
            return Err(r);
        },
        RootState::CanonicalizeFailed(e) => {
            return Err(root_refusal(&root.display, e.as_str()));
        },
        RootState::Canonical(c) => c,
    };
    let expected_filename = match expected_pack_filename(matched.pack_name.as_str()) {
        Err(e) => {
            return Err(e);
        },
        Ok(f) => f,
    };
    let inf = match expected_inf_member(
        matched.candidate.inf_path.as_str(),
        matched.candidate.inf_filename.as_str(),
    ) {
        Err(e) => {
            return Err(e);
        },
        Ok(m) => m,
    };
    let (size, canonical) = match &child.state {
        ChildState::NotFound => {
            return Ok(
                LocalPackAvailability::Missing {
                    pack_name: matched.pack_name.clone(),
                    expected_filename,
                },
            );
        },
        ChildState::Unreadable(e) => {
            return Err(LocalPackError::Io(e.clone()));
        },
        ChildState::Symlink => {
            return Err(LocalPackError::PackSymlinkRejected(child.path.clone()));
        },
        ChildState::NotRegularFile => {
            return Err(LocalPackError::PackNotRegularFile(child.path.clone()));
        },
        ChildState::File { size, canonical } => (*size, canonical),
    };
    let cc = match canonical {
        CanonicalProbe::Failed(e) => {
            return Err(LocalPackError::Io(e.clone()));
        },
        CanonicalProbe::Resolved(cc) => cc,
    };
    let parent_ok = match &cc.parent {
        Some(par) => str_eq(par.as_str(), croot.as_str()),
        None => false,
    };
    let name_ok = match &cc.file_name {
        Some(n) => names_equal_for_host(n.as_str(), expected_filename.as_str(), case_insensitive_host),
        None => false,
    };
    if !parent_ok || !name_ok {
        return Err(LocalPackError::PackEscapesRoot(cc.path.clone()));
    }
    let joined = match (&cc.parent, &cc.file_name) {
        (Some(par), Some(n)) => path_joins_leaf(cc.path.as_str(), par.as_str(), n.as_str()),
        _ => false,
    };
    if !joined {
        return Err(LocalPackError::PackEscapesRoot(cc.path.clone()));
    }
    if size == 0 {
        return Err(LocalPackError::PackEmpty(child.path.clone()));
    }
    if size > MAX_LOCAL_PACK_BYTES {
        return Err(LocalPackError::PackTooLarge(size));
    }
    let pack = LocalPackRef {
        pack_name: matched.pack_name.clone(),
        archive_path: cc.path.clone(),
        size_bytes: size,
    };
    Ok(LocalPackAvailability::Present(PackageMaterializationRequest { pack, inf }))
}

/// [`resolve_local_pack`] for an assessed candidate; applicability evidence
/// is not consulted (filtering by it is orchestration policy).
pub fn resolve_assessed_pack(
    root: &RootProbe,
    assessed: &AssessedCatalogCandidate,
    child: &ChildProbe,
    case_insensitive_host: bool,
) -> (r: Result<LocalPackAvailability, LocalPackError>)
    ensures
        resolution_is(
            r,
            *root,
            assessed.matched.pack_name@,
            assessed.matched.candidate.inf_path@,
            assessed.matched.candidate.inf_filename@,
            *child,
            case_insensitive_host,
        ),
{
    resolve_local_pack(root, &assessed.matched, child, case_insensitive_host)
}

/// The candidate and probe `item` resolve (to some availability).
pub open spec fn resolves(root: RootProbe, item: (CatalogCandidateMatch, ChildProbe), ci: bool) -> bool {
    exists|x: LocalPackAvailability|
        resolution_is(
            Ok(x),
            root,
            item.0.pack_name@,
            item.0.candidate.inf_path@,
            item.0.candidate.inf_filename@,
            item.1,
            ci,
        )
}

/// The candidate and probe `item` are refused with `e`.
pub open spec fn refused_as(root: RootProbe, item: (CatalogCandidateMatch, ChildProbe), ci: bool, e: LocalPackError) -> bool {
    resolution_is(
        Err(e),
        root,
        item.0.pack_name@,
        item.0.candidate.inf_path@,
        item.0.candidate.inf_filename@,
        item.1,
        ci,
    )
}

/// Resolve one pack per candidate (each paired with the probe of its own
/// expected child), preserving input order; over-limit batches fail closed
/// before anything is resolved, and the first refusal ends the batch.
pub fn resolve_local_packs(
    root: &RootProbe,
    matches: &[(CatalogCandidateMatch, ChildProbe)],
    case_insensitive_host: bool,
) -> (r: Result<Vec<LocalPackAvailability>, LocalPackError>)
    ensures
        matches@.len() > MAX_PACKS_PER_BATCH ==> r == Err::<Vec<LocalPackAvailability>, LocalPackError>(
            LocalPackError::TooManyPacks,
        ),
        r matches Ok(v) ==> matches@.len() <= MAX_PACKS_PER_BATCH && v@.len() == matches@.len()
            && forall|i: int|
            0 <= i < v@.len() ==> resolution_is(
                Ok(#[trigger] v@[i]),
                *root,
                matches@[i].0.pack_name@,
                matches@[i].0.candidate.inf_path@,
                matches@[i].0.candidate.inf_filename@,
                matches@[i].1,
                case_insensitive_host,
            ),
        matches@.len() <= MAX_PACKS_PER_BATCH ==> (r matches Err(e) ==> exists|i: int|
            0 <= i < matches@.len() && refused_as(*root, #[trigger] matches@[i], case_insensitive_host, e)
                && forall|j: int| 0 <= j < i ==> resolves(*root, #[trigger] matches@[j], case_insensitive_host)),
{
    if matches.len() > MAX_PACKS_PER_BATCH {
        return Err(LocalPackError::TooManyPacks);
    }
    let mut out: Vec<LocalPackAvailability> = Vec::new();
    let mut i: usize = 0;
    while i < matches.len()
        invariant
            i <= matches@.len() <= MAX_PACKS_PER_BATCH,
            out@.len() == i,
            forall|j: int|
                0 <= j < i ==> resolution_is(
                    Ok(#[trigger] out@[j]),
                    *root,
                    matches@[j].0.pack_name@,
                    matches@[j].0.candidate.inf_path@,
                    matches@[j].0.candidate.inf_filename@,
                    matches@[j].1,
                    case_insensitive_host,
                ),
        decreases matches.len() - i,
    {
        let (m, c) = &matches[i];
        match resolve_local_pack(root, m, c, case_insensitive_host) {
            Err(e) => {
                proof {
                    assert(refused_as(*root, matches@[i as int], case_insensitive_host, e));
                    assert forall|j: int| 0 <= j < i implies resolves(
                        *root,
                        #[trigger] matches@[j],
                        case_insensitive_host,
                    ) by {
                        assert(resolution_is(
                            Ok(out@[j]),
                            *root,
                            matches@[j].0.pack_name@,
                            matches@[j].0.candidate.inf_path@,
                            matches@[j].0.candidate.inf_filename@,
                            matches@[j].1,
                            case_insensitive_host,
                        ));
                    }
                }
                return Err(e);
            },
            Ok(a) => {
                out.push(a);
            },
        }
        i = i + 1;
    }
    Ok(out)
}

// ---------------------------------------------------------------------------
// Laws
// ---------------------------------------------------------------------------

proof fn lemma_blen_concat(a: Seq<char>, b: Seq<char>)
    ensures
        blen(a + b) == blen(a) + blen(b),
    decreases b.len(),
{
    if b.len() == 0 {
        assert(a + b =~= a);
        assert(vstd::utf8::encode_utf8(b) =~= Seq::<u8>::empty());
    } else {
        lemma_blen_concat(a, b.drop_last());
        assert(a + b =~= (a + b.drop_last()).push(b.last()));
        assert(b =~= b.drop_last().push(b.last()));
        lemma_blen_push(a + b.drop_last(), b.last());
        lemma_blen_push(b.drop_last(), b.last());
    }
}

/// An accepted pack stem names exactly one file directly under the drivers
/// root: `<stem>.7z` has no separator, drive or NUL character and fits the
/// file-name limit.
pub proof fn pack_filename_is_one_component(stem: Seq<char>)
    requires
        pack_stem_refusal(stem) is None,
    ensures
        !has_path_char(stem + seq!['.', '7', 'z']),
        blen(stem + seq!['.', '7', 'z']) <= MAX_PACK_FILENAME_LEN,
{
    let f = stem + seq!['.', '7', 'z'];
    lemma_blen_concat(stem, seq!['.', '7', 'z']);
    assert(blen(seq!['.', '7', 'z']) == 3) by {
        lemma_blen_push(Seq::<char>::empty(), '.');
        assert(seq!['.'] =~= Seq::<char>::empty().push('.'));
        lemma_blen_push(seq!['.'], '7');
        assert(seq!['.', '7'] =~= seq!['.'].push('7'));
        lemma_blen_push(seq!['.', '7'], 'z');
        assert(seq!['.', '7', 'z'] =~= seq!['.', '7'].push('z'));
        assert(vstd::utf8::encode_utf8(Seq::<char>::empty()) =~= Seq::<u8>::empty());
    }
    assert forall|c: char| f.contains(c) && (c == '/' || c == '\\' || c == ':' || c == '\0') implies stem.contains(c) by {
        let i = choose|i: int| 0 <= i < f.len() && f[i] == c;
        if i >= stem.len() {
            assert(f[i] == seq!['.', '7', 'z'][i - stem.len()]);
        } else {
            assert(f[i] == stem[i]);
        }
    }
}


// ---------------------------------------------------------------------------
// Laws
// ---------------------------------------------------------------------------

/// Two refusals are the same: the same variant with the same text or size.
pub open spec fn same_error(e1: LocalPackError, e2: LocalPackError) -> bool {
    match (e1, e2) {
        (LocalPackError::InvalidDriversRoot(a), LocalPackError::InvalidDriversRoot(b)) => a@ == b@,
        (LocalPackError::InvalidPackName(a), LocalPackError::InvalidPackName(b)) => a@ == b@,
        (LocalPackError::InvalidInfPath(a), LocalPackError::InvalidInfPath(b)) => a@ == b@,
        (LocalPackError::InvalidInfFilename(a), LocalPackError::InvalidInfFilename(b)) => a@ == b@,
        (LocalPackError::PackNotRegularFile(a), LocalPackError::PackNotRegularFile(b)) => a@ == b@,
        (LocalPackError::PackSymlinkRejected(a), LocalPackError::PackSymlinkRejected(b)) => a@ == b@,
        (LocalPackError::PackEscapesRoot(a), LocalPackError::PackEscapesRoot(b)) => a@ == b@,
        (LocalPackError::PackEmpty(a), LocalPackError::PackEmpty(b)) => a@ == b@,
        (LocalPackError::Io(a), LocalPackError::Io(b)) => a@ == b@,
        (LocalPackError::PackTooLarge(a), LocalPackError::PackTooLarge(b)) => a == b,
        (LocalPackError::PackNameTooLong, LocalPackError::PackNameTooLong) => true,
        (LocalPackError::ArchiveMemberTooLong, LocalPackError::ArchiveMemberTooLong) => true,
        (LocalPackError::TooManyArchiveComponents, LocalPackError::TooManyArchiveComponents) => true,
        (LocalPackError::ArchiveComponentTooLong, LocalPackError::ArchiveComponentTooLong) => true,
        (LocalPackError::TooManyPacks, LocalPackError::TooManyPacks) => true,
        _ => false,
    }
}

/// Two resolutions are the same: the same pack and INF member, the same
/// missing file, or the same refusal.
pub open spec fn same_resolution(
    r1: Result<LocalPackAvailability, LocalPackError>,
    r2: Result<LocalPackAvailability, LocalPackError>,
) -> bool {
    match (r1, r2) {
        (Ok(LocalPackAvailability::Present(p)), Ok(LocalPackAvailability::Present(q))) => {
            &&& p.pack_spec().pack_name_spec() == q.pack_spec().pack_name_spec()
            &&& p.pack_spec().archive_path_spec() == q.pack_spec().archive_path_spec()
            &&& p.pack_spec().size_spec() == q.pack_spec().size_spec()
            &&& p.inf_spec().path_spec() == q.inf_spec().path_spec()
        },
        (
            Ok(LocalPackAvailability::Missing { pack_name: a, expected_filename: b }),
            Ok(LocalPackAvailability::Missing { pack_name: c, expected_filename: d }),
        ) => a@ == c@ && b@ == d@,
        (Err(e1), Err(e2)) => same_error(e1, e2),
        _ => false,
    }
}

/// The resolution of a candidate is determined by the candidate and the
/// probes: any two results that both meet it are the same.
pub proof fn resolution_is_determined(
    r1: Result<LocalPackAvailability, LocalPackError>,
    r2: Result<LocalPackAvailability, LocalPackError>,
    root: RootProbe,
    pack: Seq<char>,
    inf_path: Seq<char>,
    inf_file: Seq<char>,
    child: ChildProbe,
    ci: bool,
)
    requires
        resolution_is(r1, root, pack, inf_path, inf_file, child, ci),
        resolution_is(r2, root, pack, inf_path, inf_file, child, ci),
    ensures
        same_resolution(r1, r2),
{
}

/// Resolving an assessed candidate is resolving its matched candidate:
/// whatever `resolve_assessed_pack` and `resolve_local_pack` return for the
/// same probes (each as its contract says), the results are the same; the
/// applicability evidence takes no part.
pub proof fn assessed_resolution_is_plain_resolution(
    root: RootProbe,
    a: AssessedCatalogCandidate,
    child: ChildProbe,
    ci: bool,
    assessed: Result<LocalPackAvailability, LocalPackError>,
    plain: Result<LocalPackAvailability, LocalPackError>,
)
    requires
        resolution_is(
            assessed,
            root,
            a.matched.pack_name@,
            a.matched.candidate.inf_path@,
            a.matched.candidate.inf_filename@,
            child,
            ci,
        ),
        resolution_is(
            plain,
            root,
            a.matched.pack_name@,
            a.matched.candidate.inf_path@,
            a.matched.candidate.inf_filename@,
            child,
            ci,
        ),
    ensures
        same_resolution(assessed, plain),
{
}

/// On an accepted root and pack name, the INF member of a present pack is
/// what `expected_inf_member` builds, and an INF reference it refuses is
/// refused, with the same error, whether or not the pack file exists (it is
/// never reported missing).
pub proof fn resolved_inf_is_the_expected_member(
    root: RootProbe,
    m: CatalogCandidateMatch,
    child: ChildProbe,
    ci: bool,
    r: Result<LocalPackAvailability, LocalPackError>,
    member: Result<ExpectedArchiveMember, LocalPackError>,
)
    requires
        root.state is Canonical,
        pack_stem_refusal(m.pack_name@) is None,
        resolution_is(r, root, m.pack_name@, m.candidate.inf_path@, m.candidate.inf_filename@, child, ci),
        match member_refusal(m.candidate.inf_path@, m.candidate.inf_filename@) {
            None => member matches Ok(x) && x.path_spec() == member_text(
                m.candidate.inf_path@,
                m.candidate.inf_filename@,
            ),
            Some(k) => member matches Err(e) && refusal_is(
                e,
                k,
                m.candidate.inf_path@,
                m.candidate.inf_filename@,
            ),
        },
    ensures
        member matches Err(e) ==> (r matches Err(x) && same_error(x, e)),
        r matches Ok(LocalPackAvailability::Present(q)) ==> (member matches Ok(x)
            && q.inf_spec().path_spec() == x.path_spec()),
{
}

/// Resolving a batch is resolving each item alone: whatever
/// `resolve_local_packs` and `resolve_local_pack` return (each as its
/// contract says), a resolved batch holds, in input order, the same
/// resolution as each item alone, and a refused batch (within the batch
/// limit) is refused as its first refused item is, every earlier item
/// resolving alone.
pub proof fn batch_resolution_is_each_item_alone(
    root: RootProbe,
    matches: Seq<(CatalogCandidateMatch, ChildProbe)>,
    ci: bool,
    batch: Result<Vec<LocalPackAvailability>, LocalPackError>,
    alone: Seq<Result<LocalPackAvailability, LocalPackError>>,
)
    requires
        alone.len() == matches.len(),
        forall|i: int|
            0 <= i < matches.len() ==> resolution_is(
                #[trigger] alone[i],
                root,
                matches[i].0.pack_name@,
                matches[i].0.candidate.inf_path@,
                matches[i].0.candidate.inf_filename@,
                matches[i].1,
                ci,
            ),
        matches.len() > MAX_PACKS_PER_BATCH ==> batch == Err::<Vec<LocalPackAvailability>, LocalPackError>(
            LocalPackError::TooManyPacks,
        ),
        batch matches Ok(v) ==> matches.len() <= MAX_PACKS_PER_BATCH && v@.len() == matches.len()
            && forall|i: int|
            0 <= i < v@.len() ==> resolution_is(
                Ok(#[trigger] v@[i]),
                root,
                matches[i].0.pack_name@,
                matches[i].0.candidate.inf_path@,
                matches[i].0.candidate.inf_filename@,
                matches[i].1,
                ci,
            ),
        matches.len() <= MAX_PACKS_PER_BATCH ==> (batch matches Err(e) ==> exists|i: int|
            0 <= i < matches.len() && refused_as(root, #[trigger] matches[i], ci, e) && forall|j: int|
                0 <= j < i ==> resolves(root, #[trigger] matches[j], ci)),
    ensures
        matches.len() > MAX_PACKS_PER_BATCH ==> batch == Err::<Vec<LocalPackAvailability>, LocalPackError>(
            LocalPackError::TooManyPacks,
        ),
        batch matches Ok(v) ==> v@.len() == matches.len() && forall|i: int|
            0 <= i < v@.len() ==> same_resolution(Ok(#[trigger] v@[i]), alone[i]),
        matches.len() <= MAX_PACKS_PER_BATCH ==> (batch matches Err(e) ==> exists|i: int|
            0 <= i < matches.len() && same_resolution(Err(e), #[trigger] alone[i]) && forall|j: int|
                0 <= j < i ==> (#[trigger] alone[j]) is Ok),
{
    if let Ok(v) = batch {
        assert forall|i: int| 0 <= i < v@.len() implies same_resolution(Ok(#[trigger] v@[i]), alone[i]) by {
            resolution_is_determined(
                Ok(v@[i]),
                alone[i],
                root,
                matches[i].0.pack_name@,
                matches[i].0.candidate.inf_path@,
                matches[i].0.candidate.inf_filename@,
                matches[i].1,
                ci,
            );
        }
    }
    if matches.len() <= MAX_PACKS_PER_BATCH {
        if let Err(e) = batch {
            let i = choose|i: int|
                0 <= i < matches.len() && refused_as(root, #[trigger] matches[i], ci, e) && forall|j: int|
                    0 <= j < i ==> resolves(root, #[trigger] matches[j], ci);
            resolution_is_determined(
                Err(e),
                alone[i],
                root,
                matches[i].0.pack_name@,
                matches[i].0.candidate.inf_path@,
                matches[i].0.candidate.inf_filename@,
                matches[i].1,
                ci,
            );
            assert forall|j: int| 0 <= j < i implies (#[trigger] alone[j]) is Ok by {
                assert(resolves(root, matches[j], ci));
                let x = choose|x: LocalPackAvailability|
                    resolution_is(
                        Ok(x),
                        root,
                        matches[j].0.pack_name@,
                        matches[j].0.candidate.inf_path@,
                        matches[j].0.candidate.inf_filename@,
                        matches[j].1,
                        ci,
                    );
                resolution_is_determined(
                    Ok(x),
                    alone[j],
                    root,
                    matches[j].0.pack_name@,
                    matches[j].0.candidate.inf_path@,
                    matches[j].0.candidate.inf_filename@,
                    matches[j].1,
                    ci,
                );
            }
        }
    }
}


/// The expected member of an accepted INF reference is its directory with
/// every `\\` turned into `/`, then `/` and the leaf (just the leaf for an
/// empty directory): it holds no `\\` at all, so it names the member the
/// way 7z does.
pub proof fn expected_member_uses_slashes(p: Seq<char>, f: Seq<char>)
    requires
        member_refusal(p, f) is None,
    ensures
        !member_text(p, f).contains('\\'),
        ({
            let d = if p.len() > 0 && p.last() == '\\' {
                p.drop_last()
            } else {
                p
            };
            &&& d.len() == 0 ==> member_text(p, f) == f
            &&& d.len() > 0 ==> {
                &&& member_text(p, f).len() == d.len() + 1 + f.len()
                &&& forall|i: int|
                    0 <= i < d.len() ==> #[trigger] member_text(p, f)[i] == (if d[i] == '\\' {
                        '/'
                    } else {
                        d[i]
                    })
                &&& member_text(p, f)[d.len() as int] == '/'
                &&& member_text(p, f).subrange(d.len() + 1int, member_text(p, f).len() as int) == f
            }
        }),
{
    let d = inf_dir(p);
    let t = member_text(p, f);
    assert(!f.contains('\\'));
    if d.len() > 0 {
        assert(t.subrange(d.len() + 1int, t.len() as int) =~= f);
        assert forall|i: int| 0 <= i < t.len() implies t[i] != '\\' by {
            if i < d.len() {
                assert(t[i] == slash_of(d[i]));
            } else if i > d.len() {
                assert(t[i] == f[i - d.len() - 1]);
            }
        }
    }
}

} // verus!
