//! Bounded 7z archive inspection: the hostile-input checks that run before
//! any decoder is built or any staging write happens.
//!
//! The archive's parsed metadata is handed in as an [`ArchiveMeta`] (entries,
//! blocks with their coders, the entry-to-block map and the packed-stream
//! table). Every member path is validated as safe relative text, duplicates
//! and over-budget archives are refused, the expected target is resolved
//! uniquely, and decode cost, expansion ratio, header size and decoder
//! workspace are all bounded with checked arithmetic.
use vstd::prelude::*;
use crate::text::{blen, byte_len_exceeds, chars_of, concat2, dec, dec_u64, eq_ic, eq_ignore_case, has_char, is_ascii, is_ascii_seq, is_ascii_whitespace, is_ascii_ws, lemma_split_first, lemma_split_last_empty, lemma_split_none, owned, pieces, split_char, split_vec, string_of};
use crate::drivers::sdio::catalog::{records, slice_bytes};
use crate::drivers::sdio::local_pack::{ExpectedArchiveMember, MAX_ARCHIVE_COMPONENT_LEN, MAX_ARCHIVE_MEMBER_COMPONENTS, MAX_ARCHIVE_MEMBER_LEN, is_windows_invalid_component, win_invalid};

verus! {

pub const MAX_ARCHIVE_ENTRIES: usize = 200_000;
pub const MAX_ARCHIVE_BLOCKS: usize = 200_000;
pub const MAX_CODERS_PER_BLOCK: usize = 16;
pub const MAX_ARCHIVE_TOTAL_NAME_BYTES: u64 = 33_554_432;
pub const MAX_ARCHIVE_DECLARED_UNPACKED_BYTES: u64 = 68_719_476_736;
pub const MAX_TARGET_INF_BYTES: u64 = 33_554_432;
pub const MAX_TARGET_DECODE_BYTES: u64 = 2_147_483_648;
pub const MAX_TARGET_BLOCK_EXPANSION_RATIO: u64 = 1000;
/// Fixed budget for the archive's next-header size (raw and decoded).
pub const MAX_ARCHIVE_HEADER_BYTES: u64 = 67_108_864;
/// Fixed aggregate budget for a decoder stack's dictionary workspace.
pub const MAX_DECODER_WORKSPACE_BYTES: u64 = 536_870_912;

/// Windows reparse-point attribute bit.
pub const ATTR_REPARSE_POINT: u32 = 0x400;
/// 7z signature-header length and the offset of `next_header_size` in it.
pub const SIGNATURE_HEADER_LEN: usize = 32;
pub const NEXT_HEADER_SIZE_OFFSET: usize = 20;

/// Fail-closed reasons for bounded archive inspection / extraction.
#[derive(Debug, Clone, PartialEq, Eq)]
pub enum ExtractionError {
    PackChangedSinceResolution,
    InvalidPackAtExtraction(String),
    ArchiveBackend(String),
    UnsupportedEncryptedArchive,
    UnsupportedArchiveCodec,
    ArchiveTooManyEntries,
    ArchiveTooManyBlocks,
    ArchiveTooManyCoders,
    ArchiveNameBudgetExceeded,
    ArchiveDeclaredSizeExceeded,
    UnsafeArchiveMember { index: usize },
    DuplicateArchiveMember,
    TargetMemberMissing,
    TargetMemberAmbiguous(usize),
    TargetNotRegularFile,
    TargetTooLarge,
    TargetDecodeBudgetExceeded,
    TargetExpansionRatioExceeded,
    ArchiveHeaderTooLarge,
    DecoderWorkspaceExceeded,
    UnsupportedNonAsciiTarget,
    InvalidStagingRoot(String),
    StageDirectoryCollision,
    OutputAlreadyExists,
    DecodedSizeMismatch { expected: u64, written: u64 },
    CleanupFailed(String),
    StagedBytesChanged { leaf: String },
    PayloadMemberMissing { index: usize },
    PayloadMemberAmbiguous { index: usize, matches: usize },
    PayloadNotRegularFile { index: usize },
    PayloadTooLarge { index: usize },
    PayloadTotalBytesExceeded,
    PayloadDecodeBudgetExceeded,
    /// An I/O failure; the payload is the error's text.
    Io(String),
}

// ---------------------------------------------------------------------------
// Archive metadata model
// ---------------------------------------------------------------------------

/// One archive entry as the 7z header declares it.
#[derive(Debug, Clone)]
pub struct ArchiveFileMeta {
    pub name: String,
    pub has_stream: bool,
    pub is_directory: bool,
    pub is_anti_item: bool,
    pub size: u64,
    pub has_windows_attributes: bool,
    pub windows_attributes: u32,
}

/// One coder of a block: its method ID bytes and its property bytes.
pub type CoderSpec = (Vec<u8>, Vec<u8>);

/// One solid block (folder) and its coder stack.
#[derive(Debug, Clone)]
pub struct ArchiveBlockMeta {
    pub coders: Vec<CoderSpec>,
    /// The block's declared unpacked size.
    pub unpack_size: u64,
}

/// The parsed metadata of one 7z archive.
#[derive(Debug, Clone)]
pub struct ArchiveMeta {
    pub files: Vec<ArchiveFileMeta>,
    pub blocks: Vec<ArchiveBlockMeta>,
    /// For each entry, the block holding its stream (streamed entries only).
    pub file_block_index: Vec<Option<usize>>,
    /// For each block, the index of its first packed stream.
    pub block_first_pack_stream_index: Vec<usize>,
    /// For each block, the index of its first entry.
    pub block_first_file_index: Vec<usize>,
    /// Size of every packed stream, in archive order.
    pub pack_sizes: Vec<u64>,
}

/// One normalized archive entry, in archive order.
#[derive(Debug, Clone)]
pub struct InspectedEntry {
    /// Normalized safe member path (`/` separators, source casing kept).
    pub normalized: String,
    /// Original archive spelling.
    pub raw: String,
    pub has_stream: bool,
    pub is_directory: bool,
    pub is_anti_item: bool,
    pub size: u64,
    pub has_windows_attributes: bool,
    pub windows_attributes: u32,
    pub block_index: Option<usize>,
}

// ---------------------------------------------------------------------------
// Member paths
// ---------------------------------------------------------------------------

pub open spec fn is_sep(c: char) -> bool {
    c == '/' || c == '\\'
}

pub open spec fn norm_sep(c: char) -> char {
    if c == '\\' {
        '/'
    } else {
        c
    }
}

/// `\` rewritten to `/`.
pub open spec fn norm_seps(s: Seq<char>) -> Seq<char> {
    s.map_values(|c: char| norm_sep(c))
}

/// The member text without its trailing separator (when it has one).
pub open spec fn untrailed(s: Seq<char>) -> Seq<char> {
    if s.len() > 0 && is_sep(s.last()) {
        s.drop_last()
    } else {
        s
    }
}

/// The normalized member path: separators unified to `/`, trailing one dropped.
pub open spec fn normalized_member(s: Seq<char>) -> Seq<char> {
    norm_seps(untrailed(s))
}

/// One safe component: non-empty, at most 255 bytes, not `.`/`..`, no
/// trailing dot or ASCII whitespace, and nothing Windows would refuse.
pub open spec fn component_ok(c: Seq<char>) -> bool {
    &&& c.len() > 0
    &&& blen(c) <= MAX_ARCHIVE_COMPONENT_LEN
    &&& c != seq!['.'] && c != seq!['.', '.']
    &&& !(c.last() == '.' || is_ascii_ws(c.last()))
    &&& !win_invalid(c)
}

/// Whether a member name is accepted as safe relative text.
pub open spec fn member_ok(s: Seq<char>, is_directory: bool) -> bool {
    let comps = split_char(normalized_member(s), '/');
    &&& blen(s) <= MAX_ARCHIVE_MEMBER_LEN
    &&& s.len() > 0
    &&& !s.contains('\0') && !s.contains(':')
    &&& !is_sep(s[0])
    &&& (is_sep(s.last()) ==> is_directory)
    &&& comps.len() <= MAX_ARCHIVE_MEMBER_COMPONENTS
    &&& forall|k: int| 0 <= k < comps.len() ==> component_ok(#[trigger] comps[k])
    &&& blen(normalized_member(s)) <= MAX_ARCHIVE_MEMBER_LEN
}

fn component_check(c: &[char]) -> (r: bool)
    ensures
        r == component_ok(c@),
{
    if c.len() == 0 || byte_len_exceeds(c, MAX_ARCHIVE_COMPONENT_LEN) {
        return false;
    }
    if c.len() == 1 && c[0] == '.' {
        proof {
            assert(c@ =~= seq!['.']);
        }
        return false;
    }
    if c.len() == 2 && c[0] == '.' && c[1] == '.' {
        proof {
            assert(c@ =~= seq!['.', '.']);
        }
        return false;
    }
    proof {
        if c@ == seq!['.'] {
            assert(c@.len() == 1 && c@[0] == '.');
        }
        if c@ == seq!['.', '.'] {
            assert(c@.len() == 2 && c@[0] == '.' && c@[1] == '.');
        }
    }
    let last = c[c.len() - 1];
    if last == '.' || is_ascii_whitespace(last) {
        return false;
    }
    !is_windows_invalid_component(c)
}

/// Validate one archive member path as safe relative text and return its
/// normalized form. Normalization is only `\` → `/` (and dropping the
/// trailing separator of a directory entry); everything else that is unsafe
/// is refused, never collapsed.
#[verifier::loop_isolation(false)]
pub fn validate_archive_member(index: usize, name: &str, is_directory: bool) -> (r: Result<
    String,
    ExtractionError,
>)
    ensures
        member_ok(name@, is_directory) ==> (r matches Ok(s) && s@ == normalized_member(name@)),
        !member_ok(name@, is_directory) ==> r == Err::<String, ExtractionError>(
            ExtractionError::UnsafeArchiveMember { index },
        ),
{
    let v = chars_of(name);
    let bad = Err(ExtractionError::UnsafeArchiveMember { index });
    if byte_len_exceeds(v.as_slice(), MAX_ARCHIVE_MEMBER_LEN) || v.len() == 0 || has_char(
        v.as_slice(),
        '\0',
    ) || has_char(v.as_slice(), ':') || v[0] == '/' || v[0] == '\\' {
        return bad;
    }
    let last = v[v.len() - 1];
    let trailing = last == '/' || last == '\\';
    if trailing && !is_directory {
        return bad;
    }
    let end = if trailing {
        v.len() - 1
    } else {
        v.len()
    };
    let mut norm: Vec<char> = Vec::new();
    let mut i: usize = 0;
    while i < end
        invariant
            i <= end <= v@.len(),
            end == untrailed(v@).len(),
            untrailed(v@) == v@.take(end as int),
            norm@ == norm_seps(v@.take(end as int)).take(i as int),
        decreases end - i,
    {
        let c = v[i];
        norm.push(if c == '\\' { '/' } else { c });
        proof {
            assert(norm@ =~= norm_seps(v@.take(end as int)).take(i + 1));
        }
        i = i + 1;
    }
    proof {
        assert(norm_seps(v@.take(end as int)).take(end as int) =~= norm_seps(v@.take(end as int)));
        assert(norm@ == normalized_member(v@));
    }
    let comps = split_vec(norm.as_slice(), '/');
    let ghost cs = split_char(norm@, '/');
    if comps.len() > MAX_ARCHIVE_MEMBER_COMPONENTS {
        return bad;
    }
    let mut k: usize = 0;
    while k < comps.len()
        invariant
            k <= comps@.len(),
            pieces(comps@) == cs,
            forall|j: int| 0 <= j < k ==> component_ok(#[trigger] cs[j]),
        decreases comps.len() - k,
    {
        assert(comps@[k as int]@ == cs[k as int]);
        if !component_check(comps[k].as_slice()) {
            return bad;
        }
        k = k + 1;
    }
    if byte_len_exceeds(norm.as_slice(), MAX_ARCHIVE_MEMBER_LEN) {
        return bad;
    }
    Ok(string_of(norm.as_slice()))
}

// ---------------------------------------------------------------------------
// Archive-wide bounds
// ---------------------------------------------------------------------------

/// `str::len` of a string (its UTF-8 length, as a `usize`).
pub open spec fn name_bytes(s: Seq<char>) -> u64 {
    (vstd::utf8::encode_utf8(s).len() as usize) as u64
}

pub open spec fn views(names: Seq<String>) -> Seq<Seq<char>> {
    names.map_values(|s: String| s@)
}

pub open spec fn names_total(names: Seq<Seq<char>>) -> nat
    decreases names.len(),
{
    if names.len() == 0 {
        0
    } else {
        names_total(names.drop_last()) + name_bytes(names.last()) as nat
    }
}

pub open spec fn streamed_total(files: Seq<ArchiveFileMeta>) -> nat
    decreases files.len(),
{
    if files.len() == 0 {
        0
    } else {
        streamed_total(files.drop_last()) + (if files.last().has_stream {
            files.last().size as nat
        } else {
            0
        })
    }
}

pub open spec fn is_aes(id: Seq<u8>) -> bool {
    id == seq![0x06u8, 0xF1u8, 0x07u8, 0x01u8]
}

pub open spec fn block_has_aes(b: ArchiveBlockMeta) -> bool {
    exists|k: int| 0 <= k < b.coders@.len() && is_aes(#[trigger] b.coders@[k].0@)
}

/// The refusal of the first bad block among `blocks[..n]`, in block order.
pub open spec fn block_refusal(blocks: Seq<ArchiveBlockMeta>, n: int) -> Option<ExtractionError>
    decreases n,
{
    if n <= 0 {
        None
    } else if block_refusal(blocks, n - 1) is Some {
        block_refusal(blocks, n - 1)
    } else if blocks[n - 1].coders@.len() > MAX_CODERS_PER_BLOCK {
        Some(ExtractionError::ArchiveTooManyCoders)
    } else if block_has_aes(blocks[n - 1]) {
        Some(ExtractionError::UnsupportedEncryptedArchive)
    } else {
        None
    }
}

/// The refusal `validate_archive_bounds` answers, in check order.
pub open spec fn bounds_refusal(a: ArchiveMeta, names: Seq<Seq<char>>) -> Option<ExtractionError> {
    if a.files@.len() > MAX_ARCHIVE_ENTRIES {
        Some(ExtractionError::ArchiveTooManyEntries)
    } else if a.blocks@.len() > MAX_ARCHIVE_BLOCKS {
        Some(ExtractionError::ArchiveTooManyBlocks)
    } else if block_refusal(a.blocks@, a.blocks@.len() as int) is Some {
        block_refusal(a.blocks@, a.blocks@.len() as int)
    } else if names_total(names) > MAX_ARCHIVE_TOTAL_NAME_BYTES {
        Some(ExtractionError::ArchiveNameBudgetExceeded)
    } else if streamed_total(a.files@) > MAX_ARCHIVE_DECLARED_UNPACKED_BYTES {
        Some(ExtractionError::ArchiveDeclaredSizeExceeded)
    } else {
        None
    }
}

fn is_aes_id(id: &Vec<u8>) -> (r: bool)
    ensures
        r == is_aes(id@),
{
    let r = id.len() == 4 && id[0] == 0x06 && id[1] == 0xF1 && id[2] == 0x07 && id[3] == 0x01;
    proof {
        if r {
            assert(id@ =~= seq![0x06u8, 0xF1u8, 0x07u8, 0x01u8]);
        }
    }
    r
}

proof fn lemma_block_refusal_stable(blocks: Seq<ArchiveBlockMeta>, k: int, n: int)
    requires
        0 <= k <= n,
        block_refusal(blocks, k) is Some,
    ensures
        block_refusal(blocks, n) == block_refusal(blocks, k),
    decreases n - k,
{
    if k < n {
        lemma_block_refusal_stable(blocks, k, n - 1);
    }
}

proof fn lemma_names_total_mono(names: Seq<Seq<char>>, i: int)
    requires
        0 <= i <= names.len(),
    ensures
        names_total(names.take(i)) <= names_total(names),
    decreases names.len() - i,
{
    if i < names.len() {
        lemma_names_total_mono(names, i + 1);
        assert(names.take(i + 1).drop_last() =~= names.take(i));
    } else {
        assert(names.take(i) =~= names);
    }
}

proof fn lemma_streamed_total_mono(files: Seq<ArchiveFileMeta>, i: int)
    requires
        0 <= i <= files.len(),
    ensures
        streamed_total(files.take(i)) <= streamed_total(files),
    decreases files.len() - i,
{
    if i < files.len() {
        lemma_streamed_total_mono(files, i + 1);
        assert(files.take(i + 1).drop_last() =~= files.take(i));
    } else {
        assert(files.take(i) =~= files);
    }
}

/// Archive-wide bounds: entry count, block count, coders per block (and no
/// AES coder), total member-name bytes and total declared unpacked bytes, all
/// with checked arithmetic.
#[verifier::loop_isolation(false)]
pub fn validate_archive_bounds(archive: &ArchiveMeta, normalized_names: &[String]) -> (r: Result<
    (),
    ExtractionError,
>)
    ensures
        match bounds_refusal(*archive, views(normalized_names@)) {
            None => r is Ok,
            Some(e) => r == Err::<(), ExtractionError>(e),
        },
{
    if archive.files.len() > MAX_ARCHIVE_ENTRIES {
        return Err(ExtractionError::ArchiveTooManyEntries);
    }
    if archive.blocks.len() > MAX_ARCHIVE_BLOCKS {
        return Err(ExtractionError::ArchiveTooManyBlocks);
    }
    let mut b: usize = 0;
    while b < archive.blocks.len()
        invariant
            b <= archive.blocks@.len(),
            block_refusal(archive.blocks@, b as int) is None,
        decreases archive.blocks.len() - b,
    {
        let block = &archive.blocks[b];
        if block.coders.len() > MAX_CODERS_PER_BLOCK {
            proof {
                lemma_block_refusal_stable(archive.blocks@, b + 1, archive.blocks@.len() as int);
            }
            return Err(ExtractionError::ArchiveTooManyCoders);
        }
        let mut k: usize = 0;
        while k < block.coders.len()
            invariant
                k <= block.coders@.len(),
                forall|j: int| 0 <= j < k ==> !is_aes(#[trigger] block.coders@[j].0@),
            decreases block.coders.len() - k,
        {
            if is_aes_id(&block.coders[k].0) {
                proof {
                    assert(block_has_aes(archive.blocks@[b as int]));
                    lemma_block_refusal_stable(archive.blocks@, b + 1, archive.blocks@.len() as int);
                }
                return Err(ExtractionError::UnsupportedEncryptedArchive);
            }
            k = k + 1;
        }
        b = b + 1;
    }
    let mut total: u64 = 0;
    let mut i: usize = 0;
    while i < normalized_names.len()
        invariant
            i <= normalized_names@.len(),
            total == names_total(views(normalized_names@).take(i as int)),
            total <= MAX_ARCHIVE_TOTAL_NAME_BYTES,
            block_refusal(archive.blocks@, archive.blocks@.len() as int) is None,
            archive.files@.len() <= MAX_ARCHIVE_ENTRIES,
            archive.blocks@.len() <= MAX_ARCHIVE_BLOCKS,
        decreases normalized_names.len() - i,
    {
        let n = normalized_names[i].as_str().len() as u64;
        proof {
            assert(views(normalized_names@).take(i + 1).drop_last() =~= views(
                normalized_names@,
            ).take(i as int));
        }
        if n > MAX_ARCHIVE_TOTAL_NAME_BYTES - total {
            proof {
                lemma_names_total_mono(views(normalized_names@), i + 1);
            }
            return Err(ExtractionError::ArchiveNameBudgetExceeded);
        }
        total = total + n;
        i = i + 1;
    }
    proof {
        assert(views(normalized_names@).take(i as int) =~= views(normalized_names@));
    }
    let mut unpacked: u64 = 0;
    let mut j: usize = 0;
    while j < archive.files.len()
        invariant
            j <= archive.files@.len(),
            unpacked == streamed_total(archive.files@.take(j as int)),
            unpacked <= MAX_ARCHIVE_DECLARED_UNPACKED_BYTES,
            bounds_refusal(*archive, views(normalized_names@)) == (if streamed_total(archive.files@)
                > MAX_ARCHIVE_DECLARED_UNPACKED_BYTES {
                Some(ExtractionError::ArchiveDeclaredSizeExceeded)
            } else {
                None
            }),
        decreases archive.files.len() - j,
    {
        let f = &archive.files[j];
        proof {
            assert(archive.files@.take(j + 1).drop_last() =~= archive.files@.take(j as int));
        }
        if f.has_stream {
            if f.size > MAX_ARCHIVE_DECLARED_UNPACKED_BYTES - unpacked {
                proof {
                    lemma_streamed_total_mono(archive.files@, j + 1);
                }
                return Err(ExtractionError::ArchiveDeclaredSizeExceeded);
            }
            unpacked = unpacked + f.size;
        }
        j = j + 1;
    }
    proof {
        assert(archive.files@.take(j as int) =~= archive.files@);
    }
    Ok(())
}

/// The declared cost through the target must not exceed the decode budget.
pub fn precheck_decode_budget(declared_through_target: u64) -> (r: Result<(), ExtractionError>)
    ensures
        declared_through_target <= MAX_TARGET_DECODE_BYTES <==> r is Ok,
        declared_through_target > MAX_TARGET_DECODE_BYTES ==> r == Err::<(), ExtractionError>(
            ExtractionError::TargetDecodeBudgetExceeded,
        ),
{
    if declared_through_target > MAX_TARGET_DECODE_BYTES {
        return Err(ExtractionError::TargetDecodeBudgetExceeded);
    }
    Ok(())
}

// ---------------------------------------------------------------------------
// Target resolution and contract
// ---------------------------------------------------------------------------

/// Number of entries among `entries[..n]` whose normalized path equals `p`
/// ASCII case-insensitively.
pub open spec fn count_ic(entries: Seq<InspectedEntry>, p: Seq<char>, n: int) -> nat
    decreases n,
{
    if n <= 0 {
        0
    } else {
        count_ic(entries, p, n - 1) + (if eq_ic(entries[n - 1].normalized@, p) {
            1nat
        } else {
            0nat
        })
    }
}

/// Locate the expected member among the inspected entries: exact after
/// normalization, ASCII case-insensitive (Windows semantics); a non-ASCII
/// expected path is unsupported and two or more matches are ambiguous.
pub fn resolve_target(expected: &ExpectedArchiveMember, entries: &[InspectedEntry]) -> (r: Result<
    usize,
    ExtractionError,
>)
    ensures
        !is_ascii_seq(expected.path_spec()) ==> r == Err::<usize, ExtractionError>(
            ExtractionError::UnsupportedNonAsciiTarget,
        ),
        is_ascii_seq(expected.path_spec()) ==> {
            let n = count_ic(entries@, expected.path_spec(), entries@.len() as int);
            &&& n == 0 ==> r == Err::<usize, ExtractionError>(ExtractionError::TargetMemberMissing)
            &&& n == 1 ==> (r matches Ok(i) && i < entries@.len() && eq_ic(
                entries@[i as int].normalized@,
                expected.path_spec(),
            ))
            &&& n > 1 ==> r == Err::<usize, ExtractionError>(
                ExtractionError::TargetMemberAmbiguous(n as usize),
            )
        },
{
    let p = chars_of(expected.relative_path());
    if !is_ascii(p.as_slice()) {
        return Err(ExtractionError::UnsupportedNonAsciiTarget);
    }
    let mut matches: usize = 0;
    let mut matched_index: usize = 0;
    let mut i: usize = 0;
    while i < entries.len()
        invariant
            i <= entries@.len(),
            p@ == expected.path_spec(),
            matches == count_ic(entries@, p@, i as int),
            matches <= i,
            matches > 0 ==> matched_index < i && eq_ic(
                entries@[matched_index as int].normalized@,
                p@,
            ),
        decreases entries.len() - i,
    {
        let e = chars_of(entries[i].normalized.as_str());
        if eq_ignore_case(e.as_slice(), p.as_slice()) {
            matches = matches + 1;
            matched_index = i;
        }
        i = i + 1;
    }
    if matches == 0 {
        Err(ExtractionError::TargetMemberMissing)
    } else if matches == 1 {
        Ok(matched_index)
    } else {
        Err(ExtractionError::TargetMemberAmbiguous(matches))
    }
}

/// The target must be a regular streamed file (not a directory, anti-item or
/// reparse point), non-empty and within the INF size cap.
pub fn validate_target_contract(target: &InspectedEntry) -> (r: Result<(), ExtractionError>)
    ensures
        (target.is_directory || target.is_anti_item || !target.has_stream || target.size == 0)
            ==> r == Err::<(), ExtractionError>(ExtractionError::TargetNotRegularFile),
        !(target.is_directory || target.is_anti_item || !target.has_stream || target.size == 0)
            ==> {
            if target.size > MAX_TARGET_INF_BYTES {
                r == Err::<(), ExtractionError>(ExtractionError::TargetTooLarge)
            } else if target.has_windows_attributes && (target.windows_attributes
                & ATTR_REPARSE_POINT) != 0 {
                r == Err::<(), ExtractionError>(ExtractionError::TargetNotRegularFile)
            } else {
                r is Ok
            }
        },
{
    if target.is_directory || target.is_anti_item || !target.has_stream {
        return Err(ExtractionError::TargetNotRegularFile);
    }
    if target.size == 0 {
        return Err(ExtractionError::TargetNotRegularFile);
    }
    if target.size > MAX_TARGET_INF_BYTES {
        return Err(ExtractionError::TargetTooLarge);
    }
    if target.has_windows_attributes && (target.windows_attributes & ATTR_REPARSE_POINT) != 0 {
        return Err(ExtractionError::TargetNotRegularFile);
    }
    Ok(())
}

/// Sum of the declared sizes of the streamed entries in `entries[a..b]`.
pub open spec fn streamed_sum(entries: Seq<InspectedEntry>, a: int, b: int) -> nat
    decreases b - a,
{
    if b <= a {
        0
    } else {
        streamed_sum(entries, a, b - 1) + (if entries[b - 1].has_stream {
            entries[b - 1].size as nat
        } else {
            0
        })
    }
}

proof fn lemma_streamed_sum_mono(entries: Seq<InspectedEntry>, a: int, b: int, c: int)
    requires
        a <= b <= c,
    ensures
        streamed_sum(entries, a, b) <= streamed_sum(entries, a, c),
    decreases c - b,
{
    if b < c {
        lemma_streamed_sum_mono(entries, a, b, c - 1);
    }
}

/// Decode cost through the target: the declared sizes of every streamed entry
/// from the target block's first entry through the target inclusive (solid
/// prerequisites must be decoded to reach it), with checked addition.
pub fn decode_bytes_to_target(entries: &[InspectedEntry], block_first: usize, target_index: usize) -> (r:
    Result<u64, ExtractionError>)
    requires
        block_first <= target_index + 1,
        target_index < entries@.len(),
    ensures
        streamed_sum(entries@, block_first as int, target_index + 1) <= u64::MAX ==> r == Ok::<
            u64,
            ExtractionError,
        >(streamed_sum(entries@, block_first as int, target_index + 1) as u64),
        streamed_sum(entries@, block_first as int, target_index + 1) > u64::MAX ==> r == Err::<
            u64,
            ExtractionError,
        >(ExtractionError::TargetDecodeBudgetExceeded),
{
    let mut total: u64 = 0;
    let mut i = block_first;
    while i <= target_index
        invariant
            block_first <= i <= target_index + 1,
            target_index < entries@.len(),
            total == streamed_sum(entries@, block_first as int, i as int),
        decreases target_index + 1 - i,
    {
        let e = &entries[i];
        if e.has_stream {
            match total.checked_add(e.size) {
                Some(t) => {
                    total = t;
                },
                None => {
                    proof {
                        lemma_streamed_sum_mono(
                            entries@,
                            block_first as int,
                            i + 1,
                            target_index + 1,
                        );
                    }
                    return Err(ExtractionError::TargetDecodeBudgetExceeded);
                },
            }
        }
        i = i + 1;
    }
    Ok(total)
}

/// Checked target-block expansion ratio. The block is refused when
/// `block_unpack > block_packed * cap` (exact, no truncation); an overflowing
/// product is refused too. A zero packed span means "ratio unavailable" (0).
pub fn target_block_expansion_ratio(block_unpack: u64, block_packed: u64) -> (r: Result<
    u64,
    ExtractionError,
>)
    ensures
        block_packed == 0 ==> r == Ok::<u64, ExtractionError>(0),
        block_packed > 0 && block_unpack <= block_packed * MAX_TARGET_BLOCK_EXPANSION_RATIO
            && block_packed * MAX_TARGET_BLOCK_EXPANSION_RATIO <= u64::MAX ==> r == Ok::<
            u64,
            ExtractionError,
        >(block_unpack / block_packed),
        block_packed > 0 && (block_unpack > block_packed * MAX_TARGET_BLOCK_EXPANSION_RATIO
            || block_packed * MAX_TARGET_BLOCK_EXPANSION_RATIO > u64::MAX) ==> r == Err::<
            u64,
            ExtractionError,
        >(ExtractionError::TargetExpansionRatioExceeded),
{
    if block_packed == 0 {
        return Ok(0);
    }
    let capped = match block_packed.checked_mul(MAX_TARGET_BLOCK_EXPANSION_RATIO) {
        Some(c) => c,
        None => {
            return Err(ExtractionError::TargetExpansionRatioExceeded);
        },
    };
    if block_unpack > capped {
        return Err(ExtractionError::TargetExpansionRatioExceeded);
    }
    Ok(block_unpack / block_packed)
}

/// Sum of `sizes[a..b]`.
pub open spec fn span_sum(sizes: Seq<u64>, a: int, b: int) -> nat
    decreases b - a,
{
    if b <= a {
        0
    } else {
        span_sum(sizes, a, b - 1) + sizes[b - 1] as nat
    }
}

proof fn lemma_span_sum_mono(sizes: Seq<u64>, a: int, b: int, c: int)
    requires
        a <= b <= c,
    ensures
        span_sum(sizes, a, b) <= span_sum(sizes, a, c),
    decreases c - b,
{
    if b < c {
        lemma_span_sum_mono(sizes, a, b, c - 1);
    }
}

/// The packed-stream span `[first, end)` of a block, when provable: `first`
/// is the block's first pack-stream index, `end` the next block's first index
/// (or the end of the pack table for the last block).
pub open spec fn block_span(first_indices: Seq<usize>, n_sizes: int, block_count: int, b: int) -> Option<
    (int, int),
> {
    if b < 0 || b >= first_indices.len() {
        None
    } else if b + 1 < block_count && b + 1 >= first_indices.len() {
        None
    } else {
        let first = first_indices[b] as int;
        let end = if b + 1 < block_count {
            first_indices[b + 1] as int
        } else {
            n_sizes
        };
        if first > end || end > n_sizes {
            None
        } else {
            Some((first, end))
        }
    }
}

/// Complete packed-byte span of one block (checked sum), or `None` when the
/// span cannot be proved or the sum overflows: a ratio is never fabricated.
#[verifier::loop_isolation(false)]
pub fn packed_span_bytes(
    first_indices: &[usize],
    pack_sizes: &[u64],
    block_count: usize,
    block_index: usize,
) -> (r: Option<u64>)
    ensures
        match block_span(first_indices@, pack_sizes@.len() as int, block_count as int, block_index as int) {
            None => r is None,
            Some((a, b)) => if span_sum(pack_sizes@, a, b) <= u64::MAX {
                r == Some(span_sum(pack_sizes@, a, b) as u64)
            } else {
                r is None
            },
        },
{
    if block_index >= first_indices.len() {
        return None;
    }
    let first = first_indices[block_index];
    let end = if block_index < block_count && block_count - block_index > 1 {
        if block_index + 1 >= first_indices.len() {
            return None;
        }
        first_indices[block_index + 1]
    } else {
        pack_sizes.len()
    };
    if first > end || end > pack_sizes.len() {
        return None;
    }
    let mut total: u64 = 0;
    let mut i = first;
    while i < end
        invariant
            first <= i <= end <= pack_sizes@.len(),
            total == span_sum(pack_sizes@, first as int, i as int),
        decreases end - i,
    {
        match total.checked_add(pack_sizes[i]) {
            Some(t) => {
                total = t;
            },
            None => {
                proof {
                    lemma_span_sum_mono(pack_sizes@, first as int, i + 1, end as int);
                }
                return None;
            },
        }
        i = i + 1;
    }
    Some(total)
}

/// The complete packed span of one block of `archive`.
pub fn target_block_packed_bytes(archive: &ArchiveMeta, block_index: usize) -> (r: Option<u64>)
    ensures
        match block_span(
            archive.block_first_pack_stream_index@,
            archive.pack_sizes@.len() as int,
            archive.blocks@.len() as int,
            block_index as int,
        ) {
            None => r is None,
            Some((a, b)) => if span_sum(archive.pack_sizes@, a, b) <= u64::MAX {
                r == Some(span_sum(archive.pack_sizes@, a, b) as u64)
            } else {
                r is None
            },
        },
{
    packed_span_bytes(
        archive.block_first_pack_stream_index.as_slice(),
        archive.pack_sizes.as_slice(),
        archive.blocks.len(),
        block_index,
    )
}

// ---------------------------------------------------------------------------
// Archive inspection
// ---------------------------------------------------------------------------

/// Whether entry `i`'s normalized path repeats an earlier entry's.
pub open spec fn repeats_earlier(files: Seq<ArchiveFileMeta>, i: int) -> bool {
    exists|j: int|
        0 <= j < i && normalized_member(#[trigger] files[j].name@) == normalized_member(
            files[i].name@,
        )
}

/// The first member refusal among `files[..n]`, in archive order: an unsafe
/// path, or an exact repeat of an earlier normalized path.
pub open spec fn member_refusal_at(files: Seq<ArchiveFileMeta>, n: int) -> Option<
    ExtractionError,
>
    decreases n,
{
    if n <= 0 {
        None
    } else if member_refusal_at(files, n - 1) is Some {
        member_refusal_at(files, n - 1)
    } else if !member_ok(files[n - 1].name@, files[n - 1].is_directory) {
        Some(ExtractionError::UnsafeArchiveMember { index: (n - 1) as usize })
    } else if repeats_earlier(files, n - 1) {
        Some(ExtractionError::DuplicateArchiveMember)
    } else {
        None
    }
}

pub open spec fn normalized_names(files: Seq<ArchiveFileMeta>) -> Seq<Seq<char>> {
    files.map_values(|f: ArchiveFileMeta| normalized_member(f.name@))
}

/// The refusal `inspect_archive` answers, in check order.
pub open spec fn inspect_refusal(a: ArchiveMeta) -> Option<ExtractionError> {
    if a.files@.len() > MAX_ARCHIVE_ENTRIES {
        Some(ExtractionError::ArchiveTooManyEntries)
    } else if member_refusal_at(a.files@, a.files@.len() as int) is Some {
        member_refusal_at(a.files@, a.files@.len() as int)
    } else {
        bounds_refusal(a, normalized_names(a.files@))
    }
}

/// Entry `e` is file `i` of `a`, normalized and mapped to its block.
pub open spec fn inspected_from(e: InspectedEntry, a: ArchiveMeta, i: int) -> bool {
    let f = a.files@[i];
    &&& e.normalized@ == normalized_member(f.name@)
    &&& e.raw == f.name
    &&& e.has_stream == f.has_stream
    &&& e.is_directory == f.is_directory
    &&& e.is_anti_item == f.is_anti_item
    &&& e.size == f.size
    &&& e.has_windows_attributes == f.has_windows_attributes
    &&& e.windows_attributes == f.windows_attributes
    &&& e.block_index == (if f.has_stream {
        a.file_block_index@[i]
    } else {
        None
    })
}

proof fn lemma_member_refusal_stable(files: Seq<ArchiveFileMeta>, k: int, n: int)
    requires
        0 <= k <= n,
        member_refusal_at(files, k) is Some,
    ensures
        member_refusal_at(files, n) == member_refusal_at(files, k),
    decreases n - k,
{
    if k < n {
        lemma_member_refusal_stable(files, k, n - 1);
    }
}

/// Inspect archive metadata: entry-count bound first, then every member path
/// validated and exact-normalized duplicates refused (in archive order), then
/// the archive-wide bounds; finally each entry mapped to its block.
#[verifier::loop_isolation(false)]
pub fn inspect_archive(archive: &ArchiveMeta) -> (r: Result<Vec<InspectedEntry>, ExtractionError>)
    requires
        archive.file_block_index@.len() == archive.files@.len(),
    ensures
        match inspect_refusal(*archive) {
            Some(e) => r == Err::<Vec<InspectedEntry>, ExtractionError>(e),
            None => r matches Ok(v) && v@.len() == archive.files@.len() && forall|i: int|
                0 <= i < v@.len() ==> inspected_from(#[trigger] v@[i], *archive, i),
        },
{
    if archive.files.len() > MAX_ARCHIVE_ENTRIES {
        return Err(ExtractionError::ArchiveTooManyEntries);
    }
    let mut names: Vec<String> = Vec::new();
    let mut seen: vstd::hash_map::StringHashMap<()> = vstd::hash_map::StringHashMap::new();
    let mut i: usize = 0;
    while i < archive.files.len()
        invariant
            i <= archive.files@.len(),
            member_refusal_at(archive.files@, i as int) is None,
            names@.len() == i,
            forall|j: int| 0 <= j < i ==> (#[trigger] names@[j])@ == normalized_member(
                archive.files@[j].name@,
            ),
            forall|k: Seq<char>|
                seen@.contains_key(k) <==> exists|j: int|
                    0 <= j < i && normalized_member(#[trigger] archive.files@[j].name@) == k,
        decreases archive.files.len() - i,
    {
        let f = &archive.files[i];
        let norm = match validate_archive_member(i, f.name.as_str(), f.is_directory) {
            Ok(n) => n,
            Err(e) => {
                proof {
                    lemma_member_refusal_stable(
                        archive.files@,
                        i + 1,
                        archive.files@.len() as int,
                    );
                }
                return Err(e);
            },
        };
        if seen.contains_key(norm.as_str()) {
            proof {
                let k = norm@;
                let j = choose|j: int|
                    0 <= j < i && normalized_member(#[trigger] archive.files@[j].name@) == k;
                assert(repeats_earlier(archive.files@, i as int));
                lemma_member_refusal_stable(archive.files@, i + 1, archive.files@.len() as int);
            }
            return Err(ExtractionError::DuplicateArchiveMember);
        }
        proof {
            if repeats_earlier(archive.files@, i as int) {
                let j = choose|j: int|
                    0 <= j < i && normalized_member(#[trigger] archive.files@[j].name@)
                        == normalized_member(archive.files@[i as int].name@);
                assert(seen@.contains_key(norm@));
            }
        }
        seen.insert(norm.clone(), ());
        names.push(norm);
        i = i + 1;
    }
    proof {
        assert(views(names@) =~= normalized_names(archive.files@));
    }
    match validate_archive_bounds(archive, names.as_slice()) {
        Err(e) => {
            return Err(e);
        },
        Ok(()) => {},
    }
    let mut out: Vec<InspectedEntry> = Vec::new();
    let mut k: usize = 0;
    while k < archive.files.len()
        invariant
            k <= archive.files@.len(),
            out@.len() == k,
            forall|j: int| 0 <= j < k ==> inspected_from(#[trigger] out@[j], *archive, j),
        decreases archive.files.len() - k,
    {
        let f = &archive.files[k];
        let block_index = if f.has_stream {
            archive.file_block_index[k]
        } else {
            None
        };
        out.push(
            InspectedEntry {
                normalized: names[k].clone(),
                raw: f.name.clone(),
                has_stream: f.has_stream,
                is_directory: f.is_directory,
                is_anti_item: f.is_anti_item,
                size: f.size,
                has_windows_attributes: f.has_windows_attributes,
                windows_attributes: f.windows_attributes,
                block_index,
            },
        );
        k = k + 1;
    }
    Ok(out)
}

// ---------------------------------------------------------------------------
// Hostile-input preflights
// ---------------------------------------------------------------------------

pub open spec fn le32_at(b: Seq<u8>, off: int) -> nat {
    (b[off] as nat + b[off + 1] as nat * 256 + b[off + 2] as nat * 65536 + b[off + 3] as nat
        * 16777216) as nat
}

pub open spec fn le64_at(b: Seq<u8>, off: int) -> nat {
    le32_at(b, off) + le32_at(b, off + 4) * 0x1_0000_0000
}

pub open spec fn seven_z_signature() -> Seq<u8> {
    seq![0x37u8, 0x7Au8, 0xBCu8, 0xAFu8, 0x27u8, 0x1Cu8]
}

/// Validate the fixed 32-byte 7z signature header and return its
/// `next_header_size`, refusing one above the fixed header budget before any
/// backend can allocate from it.
pub fn preflight_7z_start_header(header: &[u8]) -> (r: Result<u32, ExtractionError>)
    ensures
        header@.len() < SIGNATURE_HEADER_LEN ==> (r matches Err(
            ExtractionError::InvalidPackAtExtraction(m),
        ) && m@ == "truncated 7z signature header"@),
        header@.len() >= SIGNATURE_HEADER_LEN && header@.subrange(0, 6) != seven_z_signature() ==> (
        r matches Err(ExtractionError::InvalidPackAtExtraction(m)) && m@
            == "not a 7z archive (bad signature)"@),
        header@.len() >= SIGNATURE_HEADER_LEN && header@.subrange(0, 6) == seven_z_signature()
            && header@[6] != 0 ==> (r matches Err(ExtractionError::InvalidPackAtExtraction(m))
            && m@ == "unsupported 7z version major "@ + dec(header@[6] as nat)),
        header@.len() >= SIGNATURE_HEADER_LEN && header@.subrange(0, 6) == seven_z_signature()
            && header@[6] == 0 ==> if le64_at(header@, 20) > MAX_ARCHIVE_HEADER_BYTES {
            r == Err::<u32, ExtractionError>(ExtractionError::ArchiveHeaderTooLarge)
        } else {
            r == Ok::<u32, ExtractionError>(le64_at(header@, 20) as u32)
        },
{
    if header.len() < SIGNATURE_HEADER_LEN {
        return Err(ExtractionError::InvalidPackAtExtraction(owned("truncated 7z signature header")));
    }
    let sig_ok = header[0] == 0x37 && header[1] == 0x7A && header[2] == 0xBC && header[3] == 0xAF
        && header[4] == 0x27 && header[5] == 0x1C;
    proof {
        if sig_ok {
            assert(header@.subrange(0, 6) =~= seven_z_signature());
        } else {
            if header@.subrange(0, 6) == seven_z_signature() {
                assert(header@[0] == header@.subrange(0, 6)[0]);
                assert(header@[1] == header@.subrange(0, 6)[1]);
                assert(header@[2] == header@.subrange(0, 6)[2]);
                assert(header@[3] == header@.subrange(0, 6)[3]);
                assert(header@[4] == header@.subrange(0, 6)[4]);
                assert(header@[5] == header@.subrange(0, 6)[5]);
            }
        }
    }
    if !sig_ok {
        return Err(
            ExtractionError::InvalidPackAtExtraction(owned("not a 7z archive (bad signature)")),
        );
    }
    if header[6] != 0 {
        let msg = concat2("unsupported 7z version major ", dec_u64(header[6] as u64).as_str());
        return Err(ExtractionError::InvalidPackAtExtraction(msg));
    }
    let lo = header[20] as u64 + header[21] as u64 * 256 + header[22] as u64 * 65536 + header[23] as u64
        * 16777216;
    let hi = header[24] as u64 + header[25] as u64 * 256 + header[26] as u64 * 65536 + header[27] as u64
        * 16777216;
    if hi > 0 || lo > MAX_ARCHIVE_HEADER_BYTES {
        return Err(ExtractionError::ArchiveHeaderTooLarge);
    }
    Ok(lo as u32)
}

pub open spec fn is_lzma_id(id: Seq<u8>) -> bool {
    id == seq![0x03u8, 0x01u8, 0x01u8]
}

pub open spec fn is_lzma2_id(id: Seq<u8>) -> bool {
    id == seq![0x21u8]
}

/// LZMA2 dictionary size from its property byte (`bits <= 40`).
pub open spec fn lzma2_dict_size(bits: u32) -> u64 {
    if bits == 40 {
        0xFFFF_FFFF
    } else {
        ((2u32 | (bits & 1u32)) << (bits / 2 + 11)) as u64
    }
}

/// Declared dictionary workspace of one coder: LZMA's little-endian
/// `properties[1..5]`, LZMA2's encoded property byte (above 40 refused), and
/// `None` for coders that allocate no dictionary or whose properties are
/// malformed.
pub open spec fn workspace_of(id: Seq<u8>, props: Seq<u8>) -> Option<u64> {
    if is_lzma2_id(id) {
        if props.len() == 0 || props[0] > 40 {
            None
        } else {
            Some(lzma2_dict_size(props[0] as u32))
        }
    } else if is_lzma_id(id) {
        if props.len() < 5 {
            None
        } else {
            Some(le32_at(props, 1) as u64)
        }
    } else {
        None
    }
}

fn is_lzma(id: &[u8]) -> (r: bool)
    ensures
        r == is_lzma_id(id@),
{
    let r = id.len() == 3 && id[0] == 0x03 && id[1] == 0x01 && id[2] == 0x01;
    proof {
        if r {
            assert(id@ =~= seq![0x03u8, 0x01u8, 0x01u8]);
        }
    }
    r
}

fn is_lzma2(id: &[u8]) -> (r: bool)
    ensures
        r == is_lzma2_id(id@),
{
    let r = id.len() == 1 && id[0] == 0x21;
    proof {
        if r {
            assert(id@ =~= seq![0x21u8]);
        }
    }
    r
}

/// Declared LZMA/LZMA2 dictionary size from parsed coder metadata, or `None`
/// for coders without a dictionary workspace (COPY, BCJ, DELTA, ...).
pub fn coder_declared_workspace(method_id: &[u8], properties: &[u8]) -> (r: Option<u64>)
    ensures
        r == workspace_of(method_id@, properties@),
{
    if is_lzma2(method_id) {
        if properties.len() == 0 {
            return None;
        }
        let bits = properties[0] as u32;
        if bits > 40 {
            return None;
        }
        if bits == 40 {
            return Some(0xFFFF_FFFF);
        }
        return Some(((2u32 | (bits & 1u32)) << (bits / 2 + 11)) as u64);
    }
    if is_lzma(method_id) {
        if properties.len() < 5 {
            return None;
        }
        let d = properties[1] as u64 + properties[2] as u64 * 256 + properties[3] as u64 * 65536
            + properties[4] as u64 * 16777216;
        return Some(d);
    }
    None
}

/// Whether one coder's declared workspace passes the budget on its own:
/// within budget, or a coder without a dictionary; malformed LZMA/LZMA2
/// properties fail closed.
pub open spec fn coder_within_budget(id: Seq<u8>, props: Seq<u8>) -> bool {
    match workspace_of(id, props) {
        Some(d) => d <= MAX_DECODER_WORKSPACE_BYTES,
        None => !(is_lzma_id(id) || is_lzma2_id(id)),
    }
}

/// Per-coder workspace check.
pub fn coder_workspace_rejected(method_id: &[u8], properties: &[u8]) -> (r: Result<
    (),
    ExtractionError,
>)
    ensures
        coder_within_budget(method_id@, properties@) ==> r is Ok,
        !coder_within_budget(method_id@, properties@) ==> r == Err::<(), ExtractionError>(
            ExtractionError::DecoderWorkspaceExceeded,
        ),
{
    match coder_declared_workspace(method_id, properties) {
        Some(dict) => {
            if dict > MAX_DECODER_WORKSPACE_BYTES {
                Err(ExtractionError::DecoderWorkspaceExceeded)
            } else {
                Ok(())
            }
        },
        None => {
            if is_lzma(method_id) || is_lzma2(method_id) {
                Err(ExtractionError::DecoderWorkspaceExceeded)
            } else {
                Ok(())
            }
        },
    }
}

/// A coder's contribution to the aggregate workspace: its dictionary, zero
/// for dictionary-free coders, `None` for malformed LZMA/LZMA2 properties.
pub open spec fn contribution(id: Seq<u8>, props: Seq<u8>) -> Option<nat> {
    match workspace_of(id, props) {
        Some(d) => Some(d as nat),
        None => if is_lzma_id(id) || is_lzma2_id(id) {
            None
        } else {
            Some(0)
        },
    }
}

/// The (method ID, properties) bytes of each coder.
pub open spec fn coder_views(coders: Seq<CoderSpec>) -> Seq<(Seq<u8>, Seq<u8>)> {
    coders.map_values(|c: CoderSpec| (c.0@, c.1@))
}

/// Aggregate workspace of `coders[..n]`; `None` if any contribution is unprovable.
pub open spec fn aggregate_views(coders: Seq<(Seq<u8>, Seq<u8>)>, n: int) -> Option<nat>
    decreases n,
{
    if n <= 0 {
        Some(0)
    } else {
        match aggregate_views(coders, n - 1) {
            None => None,
            Some(t) => match contribution(coders[n - 1].0, coders[n - 1].1) {
                None => None,
                Some(c) => Some(t + c),
            },
        }
    }
}

pub open spec fn aggregate_of(coders: Seq<CoderSpec>, n: int) -> Option<nat> {
    aggregate_views(coder_views(coders), n)
}

proof fn lemma_aggregate_mono(coders: Seq<(Seq<u8>, Seq<u8>)>, k: int, n: int)
    requires
        0 <= k <= n,
        aggregate_views(coders, n) is Some,
    ensures
        aggregate_views(coders, k) is Some,
        aggregate_views(coders, k)->0 <= aggregate_views(coders, n)->0,
    decreases n - k,
{
    if k < n {
        lemma_aggregate_mono(coders, k, n - 1);
    }
}

proof fn lemma_aggregate_none(coders: Seq<(Seq<u8>, Seq<u8>)>, k: int, n: int)
    requires
        0 <= k <= n,
        aggregate_views(coders, k) is None,
    ensures
        aggregate_views(coders, n) is None,
    decreases n - k,
{
    if k < n {
        lemma_aggregate_none(coders, k, n - 1);
    }
}

/// Checked sum of the declared decoder-workspace contributions of a coder
/// stack; `None` on overflow or when a contribution cannot be established.
pub fn aggregate_coder_workspace(coders: &[CoderSpec]) -> (r: Option<u64>)
    ensures
        match aggregate_of(coders@, coders@.len() as int) {
            None => r is None,
            Some(t) => if t <= u64::MAX {
                r == Some(t as u64)
            } else {
                r is None
            },
        },
{
    let mut total: u64 = 0;
    let mut i: usize = 0;
    while i < coders.len()
        invariant
            i <= coders@.len(),
            aggregate_of(coders@, i as int) == Some(total as nat),
        decreases coders.len() - i,
    {
        let id = coders[i].0.as_slice();
        let props = coders[i].1.as_slice();
        let c: u64 = match coder_declared_workspace(id, props) {
            Some(d) => d,
            None => {
                if is_lzma(id) || is_lzma2(id) {
                    proof {
                        lemma_aggregate_none(coder_views(coders@), i + 1, coders@.len() as int);
                    }
                    return None;
                }
                0
            },
        };
        match total.checked_add(c) {
            Some(t) => {
                total = t;
            },
            None => {
                proof {
                    if aggregate_of(coders@, coders@.len() as int) is Some {
                        lemma_aggregate_mono(coder_views(coders@), i + 1, coders@.len() as int);
                    }
                }
                return None;
            },
        }
        i = i + 1;
    }
    Some(total)
}

/// The fixed aggregate decoder-workspace budget over a whole coder stack
/// (never a per-coder allowance); overflow and unprovable contributions fail
/// closed.
pub fn enforce_aggregate_workspace(coders: &[CoderSpec]) -> (r: Result<(), ExtractionError>)
    ensures
        (aggregate_of(coders@, coders@.len() as int) matches Some(t) && t
            <= MAX_DECODER_WORKSPACE_BYTES) ==> r is Ok,
        !(aggregate_of(coders@, coders@.len() as int) matches Some(t) && t
            <= MAX_DECODER_WORKSPACE_BYTES) ==> r == Err::<(), ExtractionError>(
            ExtractionError::DecoderWorkspaceExceeded,
        ),
{
    match aggregate_coder_workspace(coders) {
        Some(total) => {
            if total > MAX_DECODER_WORKSPACE_BYTES {
                Err(ExtractionError::DecoderWorkspaceExceeded)
            } else {
                Ok(())
            }
        },
        None => Err(ExtractionError::DecoderWorkspaceExceeded),
    }
}

/// The target block's coder stack must fit the aggregate workspace budget
/// before any decoder is built.
pub fn validate_target_block_coder_memory(block: &ArchiveBlockMeta) -> (r: Result<
    (),
    ExtractionError,
>)
    ensures
        (aggregate_of(block.coders@, block.coders@.len() as int) matches Some(t) && t
            <= MAX_DECODER_WORKSPACE_BYTES) ==> r is Ok,
        !(aggregate_of(block.coders@, block.coders@.len() as int) matches Some(t) && t
            <= MAX_DECODER_WORKSPACE_BYTES) ==> r == Err::<(), ExtractionError>(
            ExtractionError::DecoderWorkspaceExceeded,
        ),
{
    enforce_aggregate_workspace(block.coders.as_slice())
}

// ---------------------------------------------------------------------------
// Encoded 7z header preflight
// ---------------------------------------------------------------------------

pub const K_END: u8 = 0x00;
pub const K_PACK_INFO: u8 = 0x06;
pub const K_UNPACK_INFO: u8 = 0x07;
pub const K_SIZE: u8 = 0x09;
pub const K_CRC: u8 = 0x0A;
pub const K_FOLDER: u8 = 0x0B;
pub const K_CODERS_UNPACK_SIZE: u8 = 0x0C;

/// Number of leading one bits of a 7z NUMBER's first byte (extra bytes).
pub open spec fn extra_bytes(first: u8) -> nat {
    if first < 0x80 {
        0
    } else if first < 0xC0 {
        1
    } else if first < 0xE0 {
        2
    } else if first < 0xF0 {
        3
    } else if first < 0xF8 {
        4
    } else if first < 0xFC {
        5
    } else if first < 0xFE {
        6
    } else if first < 0xFF {
        7
    } else {
        8
    }
}

/// `256^n` for `n <= 8`.
pub open spec fn pow256(n: nat) -> nat
    decreases n,
{
    if n == 0 {
        1
    } else {
        256 * pow256((n - 1) as nat)
    }
}

/// Little-endian value of `b[pos..pos + n]`.
pub open spec fn le_n(b: Seq<u8>, pos: int, n: nat) -> nat
    decreases n,
{
    if n == 0 {
        0
    } else {
        le_n(b, pos, (n - 1) as nat) + b[pos + n - 1] as nat * pow256((n - 1) as nat)
    }
}

/// A 7z NUMBER at `pos`: `n` leading one bits in the first byte announce `n`
/// little-endian extra bytes; the first byte's remaining low bits are the
/// high part. Yields the value and the position after it.
pub open spec fn vint(b: Seq<u8>, pos: int) -> Option<(nat, int)> {
    if pos < 0 || pos >= b.len() {
        None
    } else {
        let n = extra_bytes(b[pos]);
        if pos + 1 + n > b.len() {
            None
        } else {
            let v = if n == 8 {
                le_n(b, pos + 1, 8)
            } else {
                le_n(b, pos + 1, n) + (b[pos] as nat % high_modulus(n)) * pow256(n)
            };
            if v > u64::MAX {
                None
            } else {
                Some((v, pos + 1 + n))
            }
        }
    }
}

/// The first byte's bits below its `n` leading ones: `2^(7 - n)`.
pub open spec fn high_modulus(n: nat) -> nat {
    if n == 0 {
        128
    } else if n == 1 {
        64
    } else if n == 2 {
        32
    } else if n == 3 {
        16
    } else if n == 4 {
        8
    } else if n == 5 {
        4
    } else if n == 6 {
        2
    } else {
        1
    }
}

/// Position after `k` consecutive NUMBERs from `pos`.
pub open spec fn skip_vints(b: Seq<u8>, pos: int, k: nat) -> Option<int>
    decreases k,
{
    if k == 0 {
        Some(pos)
    } else {
        match skip_vints(b, pos, (k - 1) as nat) {
            None => None,
            Some(p) => match vint(b, p) {
                None => None,
                Some((_, q)) => Some(q),
            },
        }
    }
}

/// Sum of `k` consecutive NUMBERs from `pos`, and the position after them.
pub open spec fn sum_vints(b: Seq<u8>, pos: int, k: nat) -> Option<(nat, int)>
    decreases k,
{
    if k == 0 {
        Some((0, pos))
    } else {
        match sum_vints(b, pos, (k - 1) as nat) {
            None => None,
            Some((t, p)) => match vint(b, p) {
                None => None,
                Some((v, q)) => Some((t + v, q)),
            },
        }
    }
}

/// The size/CRC properties of the pack info, up to and including its end
/// marker; yields the position after it.
pub open spec fn pack_props(b: Seq<u8>, pos: int, n: nat) -> Option<int>
    decreases b.len() - pos,
{
    if pos < 0 || pos >= b.len() {
        None
    } else if b[pos] == K_END {
        Some(pos + 1)
    } else if b[pos] == K_SIZE {
        match skip_vints(b, pos + 1, n) {
            None => None,
            Some(p) => if p <= pos || p > b.len() {
                None
            } else {
                pack_props(b, p, n)
            },
        }
    } else if b[pos] == K_CRC {
        if pos + 1 >= b.len() {
            None
        } else {
            let skip = if b[pos + 1] == 0 {
                (n + 7) / 8
            } else {
                4 * n
            };
            let p = pos + 2 + skip;
            if p > b.len() {
                None
            } else {
                pack_props(b, p, n)
            }
        }
    } else {
        None
    }
}

/// The optional pack info at the start of the body (its leading byte is
/// consumed either way); yields the position after it.
pub open spec fn pack_info_end(b: Seq<u8>) -> Option<int> {
    if b.len() == 0 {
        None
    } else if b[0] != K_PACK_INFO {
        Some(1)
    } else {
        match vint(b, 1) {
            None => None,
            Some((_, p1)) => match vint(b, p1) {
                None => None,
                Some((n, p2)) => if n > b.len() - p2 {
                    None
                } else {
                    pack_props(b, p2, n)
                },
            },
        }
    }
}

/// One coder record at `pos`: (method ID, properties), its input and output
/// stream counts, and the position after it.
pub open spec fn coder_at(b: Seq<u8>, pos: int) -> Option<((Seq<u8>, Seq<u8>), nat, nat, int)> {
    if pos < 0 || pos >= b.len() {
        None
    } else {
        let bits = b[pos];
        let id_size = bits as nat % 16;
        let is_simple = (bits as nat / 16) % 2 == 0;
        let has_attrs = (bits as nat / 32) % 2 == 1;
        if bits >= 0x80 || id_size == 0 || id_size > 8 || pos + 1 + id_size > b.len() {
            None
        } else {
            let id = b.subrange(pos + 1, pos + 1 + id_size);
            let p = pos + 1 + id_size;
            let streams: Option<(nat, nat, int)> = if is_simple {
                Some((1nat, 1nat, p))
            } else {
                match vint(b, p) {
                    None => None,
                    Some((i, q)) => match vint(b, q) {
                        None => None,
                        Some((o, r)) => Some((i, o, r)),
                    },
                }
            };
            match streams {
                None => None,
                Some((i, o, q)) => if !has_attrs {
                    Some(((id, Seq::<u8>::empty()), i, o, q))
                } else {
                    match vint(b, q) {
                        None => None,
                        Some((plen, r)) => if plen > b.len() - r {
                            None
                        } else {
                            Some(((id, b.subrange(r, r + plen)), i, o, r + plen))
                        },
                    }
                },
            }
        }
    }
}

/// `k` consecutive coder records from `pos`: the coders, the summed input and
/// output stream counts, and the position after them.
pub open spec fn coders_at(b: Seq<u8>, pos: int, k: nat) -> Option<
    (Seq<(Seq<u8>, Seq<u8>)>, nat, nat, int),
>
    decreases k,
{
    if k == 0 {
        Some((Seq::empty(), 0, 0, pos))
    } else {
        match coders_at(b, pos, (k - 1) as nat) {
            None => None,
            Some((cs, ti, to, p)) => match coder_at(b, p) {
                None => None,
                Some((c, i, o, q)) => Some((cs.push(c), ti + i, to + o, q)),
            },
        }
    }
}

/// The trailing optional CRC and the end marker of the unpack info.
pub open spec fn unpack_end_ok(b: Seq<u8>, pos: int) -> bool {
    if pos < 0 || pos >= b.len() {
        false
    } else if b[pos] == K_CRC {
        pos + 1 < b.len() && {
            let p = pos + 2 + (if b[pos + 1] == 0 {
                1int
            } else {
                4int
            });
            p < b.len() && b[p] == K_END
        }
    } else {
        b[pos] == K_END
    }
}

/// The unpack-info prefix after the optional pack info: one block, not
/// external, with a non-zero, plausible coder count. Yields the coder count
/// and the position of the first coder record.
pub open spec fn unpack_prefix(b: Seq<u8>) -> Option<(nat, int)> {
    match pack_info_end(b) {
        None => None,
        Some(p0) => if p0 + 1 >= b.len() || b[p0] != K_UNPACK_INFO || b[p0 + 1] != K_FOLDER {
            None
        } else {
            match vint(b, p0 + 2) {
                None => None,
                Some((nb, p1)) => if nb != 1 || p1 >= b.len() || b[p1] != 0 {
                    None
                } else {
                    match vint(b, p1 + 1) {
                        None => None,
                        Some((nc, p2)) => if nc == 0 || nc > b.len() - p2 {
                            None
                        } else {
                            Some((nc, p2))
                        },
                    }
                },
            }
        },
    }
}

/// After the coder records at `p3` (with `ti`/`to` summed input/output
/// streams): bind pairs, packed streams, the unpack sizes (summed into the
/// decoded size) and the end of the unpack info. Yields the decoded size and
/// the coders' aggregate workspace.
pub open spec fn unpack_tail(b: Seq<u8>, cs: Seq<(Seq<u8>, Seq<u8>)>, ti: nat, to: nat, p3: int) -> Option<
    (nat, nat),
> {
    if ti > u64::MAX || to > u64::MAX || to == 0 || ti < to - 1 {
        None
    } else {
        let nbp = (to - 1) as nat;
        let np = (ti - nbp) as nat;
        match skip_vints(b, p3, 2 * nbp) {
            None => None,
            Some(p4) => {
                let p5 = if np != 1 {
                    skip_vints(b, p4, np)
                } else {
                    Some(p4)
                };
                match p5 {
                    None => None,
                    Some(p5) => if p5 >= b.len() || b[p5] != K_CODERS_UNPACK_SIZE {
                        None
                    } else {
                        match sum_vints(b, p5 + 1, to) {
                            None => None,
                            Some((dec, p6)) => if dec > u64::MAX || !unpack_end_ok(b, p6) {
                                None
                            } else {
                                match aggregate_views(cs, cs.len() as int) {
                                    None => None,
                                    Some(ws) => if ws > u64::MAX {
                                        None
                                    } else {
                                        Some((dec, ws))
                                    },
                                }
                            },
                        }
                    },
                }
            },
        }
    }
}

/// The encoded-header streams info, read as far as the memory bounds need:
/// the block's declared decoded size and its coders' aggregate workspace.
/// `None` for any malformed, truncated, overflowing or unsupported structure
/// (more than one block, external blocks, no output stream, ...).
pub open spec fn encoded_header_spec(b: Seq<u8>) -> Option<(nat, nat)> {
    match unpack_prefix(b) {
        None => None,
        Some((nc, p2)) => match coders_at(b, p2, nc) {
            None => None,
            Some((cs, ti, to, p3)) => unpack_tail(b, cs, ti, to, p3),
        },
    }
}

proof fn lemma_pow256_mono(k: nat, n: nat)
    requires
        k <= n,
    ensures
        pow256(k) <= pow256(n),
    decreases n - k,
{
    if k < n {
        lemma_pow256_mono(k, (n - 1) as nat);
    }
}

proof fn lemma_le_n_bound(b: Seq<u8>, pos: int, n: nat)
    requires
        0 <= pos,
        pos + n <= b.len(),
    ensures
        le_n(b, pos, n) < pow256(n),
    decreases n,
{
    if n > 0 {
        lemma_le_n_bound(b, pos, (n - 1) as nat);
        let x = b[pos + n - 1] as nat;
        let q = pow256((n - 1) as nat);
        assert(x * q <= 255 * q) by (nonlinear_arith)
            requires
                x <= 255,
        ;
    }
}

/// Read one 7z NUMBER at `pos`.
pub fn hdr_varint(b: &[u8], pos: usize) -> (r: Option<(u64, usize)>)
    ensures
        match vint(b@, pos as int) {
            None => r is None,
            Some((v, q)) => r matches Some((vv, qq)) && vv as nat == v && qq as int == q,
        },
        r matches Some((_, q)) ==> pos < q <= b@.len(),
{
    proof {
        assert(b@.len() == b.len());
    }
    if pos >= b.len() {
        return None;
    }
    let first = b[pos];
    let n: usize = if first < 0x80 {
        0
    } else if first < 0xC0 {
        1
    } else if first < 0xE0 {
        2
    } else if first < 0xF0 {
        3
    } else if first < 0xF8 {
        4
    } else if first < 0xFC {
        5
    } else if first < 0xFE {
        6
    } else if first < 0xFF {
        7
    } else {
        8
    };
    if n > b.len() - pos - 1 {
        return None;
    }
    let mut value: u128 = 0;
    let mut mult: u128 = 1;
    let mut k: usize = 0;
    proof {
        reveal_with_fuel(pow256, 9);
        assert(pow256(8) == 0x1_0000_0000_0000_0000);
    }
    while k < n
        invariant
            k <= n <= 8,
            n == extra_bytes(first),
            pos + 1 + n <= b.len(),
            value == le_n(b@, pos + 1, k as nat),
            mult == pow256(k as nat),
            pow256(8) == 0x1_0000_0000_0000_0000,
        decreases n - k,
    {
        proof {
            lemma_pow256_mono(k as nat, 8);
            lemma_le_n_bound(b@, pos + 1, k as nat);
        }
        assert(pos + 1 + k < b@.len());
        let x = b[pos + 1 + k] as u128;
        proof {
            assert(x * mult <= 255 * 0x1_0000_0000_0000_0000) by (nonlinear_arith)
                requires
                    x <= 255,
                    mult <= 0x1_0000_0000_0000_0000,
            ;
        }
        value = value + x * mult;
        mult = mult * 256;
        k = k + 1;
    }
    proof {
        lemma_le_n_bound(b@, pos + 1, n as nat);
        lemma_pow256_mono(n as nat, 8);
    }
    let total: u128 = if n == 8 {
        value
    } else {
        let m: u128 = if n == 0 {
            128
        } else if n == 1 {
            64
        } else if n == 2 {
            32
        } else if n == 3 {
            16
        } else if n == 4 {
            8
        } else if n == 5 {
            4
        } else if n == 6 {
            2
        } else {
            1
        };
        let h = first as u128 % m;
        proof {
            assert(h * mult <= 255 * 0x1_0000_0000_0000_0000) by (nonlinear_arith)
                requires
                    h <= 255,
                    mult <= 0x1_0000_0000_0000_0000,
            ;
        }
        value + h * mult
    };
    if total > 0xFFFF_FFFF_FFFF_FFFF {
        return None;
    }
    Some((total as u64, pos + 1 + n))
}

/// Skip `k` consecutive NUMBERs from `pos`.
pub fn hdr_skip_varints(b: &[u8], pos: usize, k: u64) -> (r: Option<usize>)
    requires
        pos <= b@.len(),
    ensures
        match skip_vints(b@, pos as int, k as nat) {
            None => r is None,
            Some(q) => r matches Some(qq) && qq as int == q,
        },
        r matches Some(q) ==> pos <= q <= b@.len(),
{
    proof {
        assert(b@.len() == b.len());
    }
    let mut p = pos;
    let mut i: u64 = 0;
    while i < k
        invariant
            i <= k,
            pos <= p <= b.len(),
            skip_vints(b@, pos as int, i as nat) == Some(p as int),
        decreases k - i,
    {
        match hdr_varint(b, p) {
            None => {
                proof {
                    lemma_skip_vints_none(b@, pos as int, (i + 1) as nat, k as nat);
                }
                return None;
            },
            Some((_, q)) => {
                proof {
                    assert(skip_vints(b@, pos as int, (i + 1) as nat) == Some(q as int));
                }
                p = q;
            },
        }
        i = i + 1;
    }
    Some(p)
}

proof fn lemma_skip_vints_len(b: Seq<u8>, pos: int, k: nat)
    requires
        0 <= pos,
    ensures
        skip_vints(b, pos, k) matches Some(q) ==> pos + k <= q <= b.len() || k == 0,
    decreases k,
{
    if k > 0 {
        lemma_skip_vints_len(b, pos, (k - 1) as nat);
    }
}

proof fn lemma_skip_vints_none(b: Seq<u8>, pos: int, i: nat, k: nat)
    requires
        i <= k,
        skip_vints(b, pos, i) is None,
    ensures
        skip_vints(b, pos, k) is None,
    decreases k - i,
{
    if i < k {
        lemma_skip_vints_none(b, pos, i, (k - 1) as nat);
    }
}

proof fn lemma_sum_vints_none(b: Seq<u8>, pos: int, i: nat, k: nat)
    requires
        i <= k,
        sum_vints(b, pos, i) is None,
    ensures
        sum_vints(b, pos, k) is None,
    decreases k - i,
{
    if i < k {
        lemma_sum_vints_none(b, pos, i, (k - 1) as nat);
    }
}

pub open spec fn sum_total(o: Option<(nat, int)>) -> nat {
    match o {
        Some((t, _)) => t,
        None => 0,
    }
}

pub open spec fn streams_in(o: Option<(Seq<(Seq<u8>, Seq<u8>)>, nat, nat, int)>) -> nat {
    match o {
        Some((_, i, _, _)) => i,
        None => 0,
    }
}

pub open spec fn streams_out(o: Option<(Seq<(Seq<u8>, Seq<u8>)>, nat, nat, int)>) -> nat {
    match o {
        Some((_, _, o, _)) => o,
        None => 0,
    }
}

proof fn lemma_sum_vints_mono(b: Seq<u8>, pos: int, i: nat, k: nat)
    requires
        i <= k,
        sum_vints(b, pos, k) is Some,
    ensures
        sum_vints(b, pos, i) is Some,
        sum_total(sum_vints(b, pos, i)) <= sum_total(sum_vints(b, pos, k)),
    decreases k - i,
{
    if i < k {
        lemma_sum_vints_mono(b, pos, i, (k - 1) as nat);
    }
}

/// Sum `k` consecutive NUMBERs from `pos` (checked).
pub fn hdr_sum_varints(b: &[u8], pos: usize, k: u64) -> (r: Option<(u64, usize)>)
    requires
        pos <= b@.len(),
    ensures
        match sum_vints(b@, pos as int, k as nat) {
            None => r is None,
            Some((t, q)) => if t <= u64::MAX {
                r matches Some((tt, qq)) && tt as nat == t && qq as int == q
            } else {
                r is None
            },
        },
        r matches Some((_, q)) ==> pos <= q <= b@.len(),
{
    proof {
        assert(b@.len() == b.len());
    }
    let mut p = pos;
    let mut total: u64 = 0;
    let mut i: u64 = 0;
    while i < k
        invariant
            i <= k,
            pos <= p <= b.len(),
            sum_vints(b@, pos as int, i as nat) == Some((total as nat, p as int)),
        decreases k - i,
    {
        match hdr_varint(b, p) {
            None => {
                proof {
                    lemma_sum_vints_none(b@, pos as int, (i + 1) as nat, k as nat);
                }
                return None;
            },
            Some((v, q)) => {
                match total.checked_add(v) {
                    None => {
                        proof {
                            if sum_vints(b@, pos as int, k as nat) is Some {
                                lemma_sum_vints_mono(b@, pos as int, (i + 1) as nat, k as nat);
                            }
                        }
                        return None;
                    },
                    Some(t) => {
                        proof {
                            assert(sum_vints(b@, pos as int, (i + 1) as nat) == Some(
                                ((total + v) as nat, q as int),
                            ));
                        }
                        total = t;
                        p = q;
                    },
                }
            },
        }
        i = i + 1;
    }
    Some((total, p))
}

/// The pack-info size/CRC properties, through the end marker.
fn hdr_pack_props(b: &[u8], pos: usize, n: u64) -> (r: Option<usize>)
    requires
        pos <= b@.len(),
    ensures
        match pack_props(b@, pos as int, n as nat) {
            None => r is None,
            Some(q) => r matches Some(qq) && qq as int == q,
        },
        r matches Some(q) ==> q <= b@.len(),
{
    proof {
        assert(b@.len() == b.len());
    }
    let mut p = pos;
    loop
        invariant
            p <= b.len(),
            pack_props(b@, pos as int, n as nat) == pack_props(b@, p as int, n as nat),
        decreases b@.len() - p,
    {
        if p >= b.len() {
            return None;
        }
        let nid = b[p];
        if nid == K_END {
            return Some(p + 1);
        } else if nid == K_SIZE {
            match hdr_skip_varints(b, p + 1, n) {
                None => {
                    return None;
                },
                Some(q) => {
                    p = q;
                },
            }
        } else if nid == K_CRC {
            if p + 1 >= b.len() {
                return None;
            }
            let skip: u64 = if b[p + 1] == 0 {
                n / 8 + (if n % 8 == 0 {
                    0
                } else {
                    1
                })
            } else {
                if n > u64::MAX / 4 {
                    return None;
                }
                4 * n
            };
            if skip > (b.len() - p - 2) as u64 {
                return None;
            }
            p = p + 2 + skip as usize;
        } else {
            return None;
        }
    }
}

/// One coder record at `pos`.
fn hdr_coder(b: &[u8], pos: usize) -> (r: Option<(CoderSpec, u64, u64, usize)>)
    requires
        pos <= b@.len(),
    ensures
        match coder_at(b@, pos as int) {
            None => r is None,
            Some((c, i, o, q)) => r matches Some((cc, ii, oo, qq)) && cc.0@ == c.0 && cc.1@ == c.1
                && ii == i && oo == o && qq == q && pos < qq <= b@.len(),
        },
{
    proof {
        assert(b@.len() == b.len());
    }
    if pos >= b.len() {
        return None;
    }
    let bits = b[pos];
    let id_size = (bits % 16) as usize;
    let is_simple = (bits / 16) % 2 == 0;
    let has_attrs = (bits / 32) % 2 == 1;
    if bits >= 0x80 || id_size == 0 || id_size > 8 || id_size > b.len() - pos - 1 {
        return None;
    }
    let id = slice_bytes(b, pos + 1, pos + 1 + id_size);
    let p = pos + 1 + id_size;
    let (ins, outs, q) = if is_simple {
        (1u64, 1u64, p)
    } else {
        match hdr_varint(b, p) {
            None => {
                return None;
            },
            Some((i, q1)) => match hdr_varint(b, q1) {
                None => {
                    return None;
                },
                Some((o, q2)) => (i, o, q2),
            },
        }
    };
    if !has_attrs {
        return Some(((id, Vec::new()), ins, outs, q));
    }
    match hdr_varint(b, q) {
        None => None,
        Some((plen, r)) => {
            if plen > (b.len() - r) as u64 {
                return None;
            }
            let props = slice_bytes(b, r, r + plen as usize);
            Some(((id, props), ins, outs, r + plen as usize))
        },
    }
}

proof fn lemma_coders_none(b: Seq<u8>, pos: int, i: nat, k: nat)
    requires
        i <= k,
        coders_at(b, pos, i) is None,
    ensures
        coders_at(b, pos, k) is None,
    decreases k - i,
{
    if i < k {
        lemma_coders_none(b, pos, i, (k - 1) as nat);
    }
}

proof fn lemma_coders_mono(b: Seq<u8>, pos: int, i: nat, k: nat)
    requires
        i <= k,
        coders_at(b, pos, k) is Some,
    ensures
        coders_at(b, pos, i) is Some,
        streams_in(coders_at(b, pos, i)) <= streams_in(coders_at(b, pos, k)),
        streams_out(coders_at(b, pos, i)) <= streams_out(coders_at(b, pos, k)),
    decreases k - i,
{
    if i < k {
        lemma_coders_mono(b, pos, i, (k - 1) as nat);
    }
}

/// The fail-closed error for malformed or unprovable encoded-header metadata.
pub fn header_malformed() -> (e: ExtractionError)
    ensures
        e matches ExtractionError::InvalidPackAtExtraction(m) && m@
            == "malformed encoded 7z header"@,
{
    ExtractionError::InvalidPackAtExtraction(owned("malformed encoded 7z header"))
}

/// The unpack-info prefix: coder count and first coder position.
fn hdr_prefix(b: &[u8]) -> (r: Option<(u64, usize)>)
    ensures
        match unpack_prefix(b@) {
            None => r is None,
            Some((nc, p2)) => r matches Some((n, p)) && n as nat == nc && p as int == p2,
        },
        r matches Some((_, p)) ==> p <= b@.len(),
{
    proof {
        assert(b@.len() == b.len());
    }
    if b.len() == 0 {
        return None;
    }
    let p0: usize = if b[0] == K_PACK_INFO {
        let p1 = match hdr_varint(b, 1) {
            None => {
                return None;
            },
            Some((_, q)) => q,
        };
        let (n, p2) = match hdr_varint(b, p1) {
            None => {
                return None;
            },
            Some(x) => x,
        };
        if n > (b.len() - p2) as u64 {
            return None;
        }
        match hdr_pack_props(b, p2, n) {
            None => {
                return None;
            },
            Some(q) => q,
        }
    } else {
        1
    };
    if p0 >= b.len() || b.len() - p0 < 2 || b[p0] != K_UNPACK_INFO || b[p0 + 1] != K_FOLDER {
        return None;
    }
    let (nb, p1) = match hdr_varint(b, p0 + 2) {
        None => {
            return None;
        },
        Some(x) => x,
    };
    if nb != 1 || p1 >= b.len() || b[p1] != 0 {
        return None;
    }
    let (nc, p2) = match hdr_varint(b, p1 + 1) {
        None => {
            return None;
        },
        Some(x) => x,
    };
    if nc == 0 || nc > (b.len() - p2) as u64 {
        return None;
    }
    Some((nc, p2))
}

/// `nc` coder records from `p2`, with checked stream-count sums.
fn hdr_coders(b: &[u8], p2: usize, nc: u64) -> (r: Option<(Vec<CoderSpec>, u64, u64, usize)>)
    requires
        p2 <= b@.len(),
    ensures
        match coders_at(b@, p2 as int, nc as nat) {
            None => r is None,
            Some((cs, ti, to, p3)) => if ti <= u64::MAX && to <= u64::MAX {
                r matches Some((v, i, o, p)) && coder_views(v@) == cs && i as nat == ti && o as nat
                    == to && p as int == p3 && p <= b@.len()
            } else {
                r is None
            },
        },
{
    proof {
        assert(b@.len() == b.len());
    }
    let mut coders: Vec<CoderSpec> = Vec::new();
    let mut total_in: u64 = 0;
    let mut total_out: u64 = 0;
    let mut p = p2;
    let mut i: u64 = 0;
    while i < nc
        invariant
            i <= nc,
            p2 <= p <= b.len(),
            coders_at(b@, p2 as int, i as nat) == Some(
                (coder_views(coders@), total_in as nat, total_out as nat, p as int),
            ),
        decreases nc - i,
    {
        match hdr_coder(b, p) {
            None => {
                proof {
                    lemma_coders_none(b@, p2 as int, (i + 1) as nat, nc as nat);
                }
                return None;
            },
            Some((c, ins, outs, q)) => {
                let ghost cv = (c.0@, c.1@);
                if ins > u64::MAX - total_in || outs > u64::MAX - total_out {
                    proof {
                        if coders_at(b@, p2 as int, nc as nat) is Some {
                            lemma_coders_mono(b@, p2 as int, (i + 1) as nat, nc as nat);
                        }
                    }
                    return None;
                }
                total_in = total_in + ins;
                total_out = total_out + outs;
                let ghost prev = coders@;
                coders.push(c);
                proof {
                    assert(coder_views(coders@) =~= coder_views(prev).push(cv));
                }
                p = q;
            },
        }
        i = i + 1;
    }
    Some((coders, total_in, total_out, p))
}

/// Bind pairs, packed streams, unpack sizes and the end of the unpack info.
#[verifier::loop_isolation(false)]
fn hdr_tail(b: &[u8], coders: &Vec<CoderSpec>, total_in: u64, total_out: u64, p: usize) -> (r:
    Option<(u64, u64)>)
    requires
        p <= b@.len(),
    ensures
        match unpack_tail(b@, coder_views(coders@), total_in as nat, total_out as nat, p as int) {
            None => r is None,
            Some((d, w)) => r == Some((d as u64, w as u64)),
        },
{
    proof {
        assert(b@.len() == b.len());
    }
    if total_out == 0 {
        return None;
    }
    let nbp = total_out - 1;
    if nbp > u64::MAX / 2 {
        proof {
            lemma_skip_vints_len(b@, p as int, (2 * nbp) as nat);
        }
        return None;
    }
    let p4 = match hdr_skip_varints(b, p, 2 * nbp) {
        None => {
            return None;
        },
        Some(q) => q,
    };
    if total_in < nbp {
        return None;
    }
    let np = total_in - nbp;
    let p5 = if np != 1 {
        match hdr_skip_varints(b, p4, np) {
            None => {
                return None;
            },
            Some(q) => q,
        }
    } else {
        p4
    };
    if p5 >= b.len() || b[p5] != K_CODERS_UNPACK_SIZE {
        return None;
    }
    let (decoded, p6) = match hdr_sum_varints(b, p5 + 1, total_out) {
        None => {
            return None;
        },
        Some(x) => x,
    };
    if p6 >= b.len() {
        return None;
    }
    let mut nid = b[p6];
    if nid == K_CRC {
        if b.len() - p6 < 2 {
            return None;
        }
        let skip: usize = if b[p6 + 1] == 0 {
            1
        } else {
            4
        };
        if skip >= b.len() - p6 - 2 {
            return None;
        }
        nid = b[p6 + 2 + skip];
    }
    if nid != K_END {
        return None;
    }
    match aggregate_coder_workspace(coders.as_slice()) {
        None => None,
        Some(w) => Some((decoded, w)),
    }
}

/// Read the encoded-header streams info just far enough to bound the
/// backend's header decode: the declared decoded size and the aggregate
/// decoder workspace of the encoded block. `body` is the raw next-header
/// bytes after the encoded-header marker.
pub fn encoded_header_bounds(body: &[u8]) -> (r: Result<(u64, u64), ExtractionError>)
    ensures
        match encoded_header_spec(body@) {
            Some((d, w)) => r == Ok::<(u64, u64), ExtractionError>((d as u64, w as u64)),
            None => r matches Err(ExtractionError::InvalidPackAtExtraction(m)) && m@
                == "malformed encoded 7z header"@,
        },
{
    let (nc, p2) = match hdr_prefix(body) {
        None => {
            return Err(header_malformed());
        },
        Some(x) => x,
    };
    let (coders, total_in, total_out, p3) = match hdr_coders(body, p2, nc) {
        None => {
            return Err(header_malformed());
        },
        Some(x) => x,
    };
    match hdr_tail(body, &coders, total_in, total_out, p3) {
        None => Err(header_malformed()),
        Some(x) => Ok(x),
    }
}

/// Why the solid block of a staged target (the INF or its catalog) may not
/// be decoded.
pub enum GateRefusal {
    /// The target's block is not in the archive.
    BlockMissing,
    /// The block has no first-entry index.
    NoFirstIndex,
    Error(ExtractionError),
}

/// The checks before the block of target `t` (in block `b`) is decoded, in
/// order: the block exists, its decoders fit the workspace budget, it has a
/// first-entry index, the bytes decoded from its first entry through the
/// target fit the decode budget, and, where its packed span is known, its
/// expansion ratio is within the cap. The result is the decode budget.
pub open spec fn target_gate(a: ArchiveMeta, ins: Seq<InspectedEntry>, t: int, b: int) -> Result<
    u64,
    GateRefusal,
> {
    if b < 0 || b >= a.blocks@.len() {
        Err(GateRefusal::BlockMissing)
    } else {
        let block = a.blocks@[b];
        if !(aggregate_of(block.coders@, block.coders@.len() as int) matches Some(w) && w
            <= MAX_DECODER_WORKSPACE_BYTES) {
            Err(GateRefusal::Error(ExtractionError::DecoderWorkspaceExceeded))
        } else if b >= a.block_first_file_index@.len() {
            Err(GateRefusal::NoFirstIndex)
        } else {
            let cost = streamed_sum(ins, a.block_first_file_index@[b] as int, t + 1);
            if cost > MAX_TARGET_DECODE_BYTES {
                Err(GateRefusal::Error(ExtractionError::TargetDecodeBudgetExceeded))
            } else if packed_of(a, b) matches Some(p) && p > 0 && (block.unpack_size > p
                * MAX_TARGET_BLOCK_EXPANSION_RATIO || p * MAX_TARGET_BLOCK_EXPANSION_RATIO
                > u64::MAX) {
                Err(GateRefusal::Error(ExtractionError::TargetExpansionRatioExceeded))
            } else {
                Ok(cost as u64)
            }
        }
    }
}

/// Gate the decoding of target `target_index` in block `block_index`
/// (`catalog` names the catalog in the messages); the result is the decode
/// budget of the target.
pub fn target_decode_gate(
    archive: &ArchiveMeta,
    inspected: &[InspectedEntry],
    target_index: usize,
    block_index: usize,
    catalog: bool,
) -> (r: Result<u64, ExtractionError>)
    requires
        target_index < inspected@.len(),
        block_index < archive.block_first_file_index@.len() ==> archive.block_first_file_index@[block_index as int]
            <= target_index + 1,
    ensures
        match target_gate(*archive, inspected@, target_index as int, block_index as int) {
            Ok(c) => r == Ok::<u64, ExtractionError>(c),
            Err(GateRefusal::Error(e)) => r == Err::<u64, ExtractionError>(e),
            Err(GateRefusal::BlockMissing) => r matches Err(ExtractionError::InvalidPackAtExtraction(m))
                && m@ == (if catalog {
                "catalog block index out of range"@
            } else {
                "target block index out of range"@
            }),
            Err(GateRefusal::NoFirstIndex) => r matches Err(ExtractionError::InvalidPackAtExtraction(m))
                && m@ == (if catalog {
                "catalog block first-file index out of range"@
            } else {
                "block first-file index out of range"@
            }),
        },
{
    if block_index >= archive.blocks.len() {
        let m = if catalog {
            owned("catalog block index out of range")
        } else {
            owned("target block index out of range")
        };
        return Err(ExtractionError::InvalidPackAtExtraction(m));
    }
    let block = &archive.blocks[block_index];
    match validate_target_block_coder_memory(block) {
        Err(e) => {
            return Err(e);
        },
        Ok(()) => {},
    }
    if block_index >= archive.block_first_file_index.len() {
        let m = if catalog {
            owned("catalog block first-file index out of range")
        } else {
            owned("block first-file index out of range")
        };
        return Err(ExtractionError::InvalidPackAtExtraction(m));
    }
    let first = archive.block_first_file_index[block_index];
    let budget = match decode_bytes_to_target(inspected, first, target_index) {
        Err(e) => {
            return Err(e);
        },
        Ok(b) => b,
    };
    match precheck_decode_budget(budget) {
        Err(e) => {
            return Err(e);
        },
        Ok(()) => {},
    }
    match target_block_packed_bytes(archive, block_index) {
        Some(packed) => {
            let ratio = match target_block_expansion_ratio(block.unpack_size, packed) {
                Err(e) => {
                    return Err(e);
                },
                Ok(x) => x,
            };
            proof {
                if packed > 0 {
                    let u = block.unpack_size as int;
                    let p = packed as int;
                    assert(u <= p * 1000 ==> u / p <= 1000) by (nonlinear_arith)
                        requires
                            p > 0,
                    ;
                }
            }
            if ratio > MAX_TARGET_BLOCK_EXPANSION_RATIO {
                return Err(ExtractionError::TargetExpansionRatioExceeded);
            }
        },
        None => {},
    }
    Ok(budget)
}

/// The 7z property ID of a plain next header.
pub const K_HEADER: u8 = 0x01;
/// The 7z property ID of an encoded (compressed) next header.
pub const K_ENCODED_HEADER: u8 = 0x17;

/// The raw next header before the backend parses it: an encoded header is
/// held to the decoded-size and workspace budgets, a plain header passes,
/// and any other kind is refused.
pub fn check_next_header(raw: &[u8]) -> (r: Result<(), ExtractionError>)
    ensures
        raw@.len() > 0 && raw@[0] == K_ENCODED_HEADER ==> match encoded_header_spec(raw@.skip(1)) {
            None => r matches Err(ExtractionError::InvalidPackAtExtraction(m)) && m@
                == "malformed encoded 7z header"@,
            Some((d, w)) => if d > MAX_ARCHIVE_HEADER_BYTES {
                r == Err::<(), ExtractionError>(ExtractionError::ArchiveHeaderTooLarge)
            } else if w > MAX_DECODER_WORKSPACE_BYTES {
                r == Err::<(), ExtractionError>(ExtractionError::DecoderWorkspaceExceeded)
            } else {
                r is Ok
            },
        },
        raw@.len() > 0 && raw@[0] == K_HEADER ==> r is Ok,
        !(raw@.len() > 0 && (raw@[0] == K_HEADER || raw@[0] == K_ENCODED_HEADER)) ==> (r matches Err(
            ExtractionError::InvalidPackAtExtraction(m),
        ) && m@ == "unsupported 7z next-header kind"@),
{
    if raw.len() > 0 && raw[0] == K_ENCODED_HEADER {
        let body = slice_bytes(raw, 1, raw.len());
        proof {
            assert(body@ =~= raw@.skip(1));
        }
        enforce_encoded_header_bounds(body.as_slice())
    } else if raw.len() > 0 && raw[0] == K_HEADER {
        Ok(())
    } else {
        Err(ExtractionError::InvalidPackAtExtraction(owned("unsupported 7z next-header kind")))
    }
}

/// Encoded-header pre-decode bounds: decoded header size within the header
/// budget and aggregate decoder workspace within the workspace budget.
pub fn enforce_encoded_header_bounds(body: &[u8]) -> (r: Result<(), ExtractionError>)
    ensures
        match encoded_header_spec(body@) {
            None => r matches Err(ExtractionError::InvalidPackAtExtraction(m)) && m@
                == "malformed encoded 7z header"@,
            Some((d, w)) => if d > MAX_ARCHIVE_HEADER_BYTES {
                r == Err::<(), ExtractionError>(ExtractionError::ArchiveHeaderTooLarge)
            } else if w > MAX_DECODER_WORKSPACE_BYTES {
                r == Err::<(), ExtractionError>(ExtractionError::DecoderWorkspaceExceeded)
            } else {
                r is Ok
            },
        },
{
    let (decoded, workspace) = match encoded_header_bounds(body) {
        Err(e) => {
            return Err(e);
        },
        Ok(x) => x,
    };
    if decoded > MAX_ARCHIVE_HEADER_BYTES {
        return Err(ExtractionError::ArchiveHeaderTooLarge);
    }
    if workspace > MAX_DECODER_WORKSPACE_BYTES {
        return Err(ExtractionError::DecoderWorkspaceExceeded);
    }
    Ok(())
}

// ---------------------------------------------------------------------------
// Payload bounds
// ---------------------------------------------------------------------------

/// Per-payload size cap.
pub fn payload_size_within_cap(index: usize, size: u64, cap: u64) -> (r: Result<(), ExtractionError>)
    ensures
        size > cap ==> r == Err::<(), ExtractionError>(ExtractionError::PayloadTooLarge { index }),
        size <= cap ==> r is Ok,
{
    if size > cap {
        return Err(ExtractionError::PayloadTooLarge { index });
    }
    Ok(())
}

/// Checked aggregate of the requested payloads' own sizes.
pub fn accumulate_payload_bytes(running: u64, add: u64, cap: u64) -> (r: Result<u64, ExtractionError>)
    ensures
        running + add <= cap ==> r == Ok::<u64, ExtractionError>((running + add) as u64),
        running + add > cap ==> r == Err::<u64, ExtractionError>(
            ExtractionError::PayloadTotalBytesExceeded,
        ),
{
    match running.checked_add(add) {
        Some(v) => {
            if v <= cap {
                Ok(v)
            } else {
                Err(ExtractionError::PayloadTotalBytesExceeded)
            }
        },
        None => Err(ExtractionError::PayloadTotalBytesExceeded),
    }
}

/// Checked aggregate decode cost, solid prerequisites included.
pub fn accumulate_payload_decode_bytes(running: u64, add: u64, cap: u64) -> (r: Result<
    u64,
    ExtractionError,
>)
    ensures
        running + add <= cap ==> r == Ok::<u64, ExtractionError>((running + add) as u64),
        running + add > cap ==> r == Err::<u64, ExtractionError>(
            ExtractionError::PayloadDecodeBudgetExceeded,
        ),
{
    match running.checked_add(add) {
        Some(v) => {
            if v <= cap {
                Ok(v)
            } else {
                Err(ExtractionError::PayloadDecodeBudgetExceeded)
            }
        },
        None => Err(ExtractionError::PayloadDecodeBudgetExceeded),
    }
}

/// The runtime decode counter, charged per decoded chunk.
pub fn charge_runtime_payload_bytes(running: u64, add: u64, cap: u64) -> (r: Result<
    u64,
    ExtractionError,
>)
    ensures
        running + add <= cap ==> r == Ok::<u64, ExtractionError>((running + add) as u64),
        running + add > cap ==> r == Err::<u64, ExtractionError>(
            ExtractionError::PayloadDecodeBudgetExceeded,
        ),
{
    accumulate_payload_decode_bytes(running, add, cap)
}

// ---------------------------------------------------------------------------
// Laws
// ---------------------------------------------------------------------------

/// An accepted member name normalizes to a name that is itself accepted
/// (even as a file) and normalizes to itself: validation changes separators
/// only once and never again.
pub proof fn normalized_member_is_fixed_point(s: Seq<char>, is_directory: bool)
    requires
        member_ok(s, is_directory),
    ensures
        member_ok(normalized_member(s), false),
        normalized_member(normalized_member(s)) == normalized_member(s),
{
    let n = normalized_member(s);
    let u = untrailed(s);
    let comps = split_char(n, '/');
    assert(n.len() == u.len());
    assert(forall|i: int| 0 <= i < n.len() ==> #[trigger] n[i] == norm_sep(u[i]));
    assert(forall|i: int| 0 <= i < u.len() ==> #[trigger] u[i] == s[i]);
    // No `\` survives normalization.
    assert forall|i: int| 0 <= i < n.len() implies #[trigger] n[i] != '\\' by {
        assert(n[i] == norm_sep(u[i]));
    }
    lemma_split_first(n, '/');
    // The last component is accepted, hence not empty, so `n` has no
    // trailing `/`.
    assert(comps.len() >= 1);
    assert(component_ok(comps[comps.len() - 1]));
    if n.len() > 0 && n.last() == '/' {
        lemma_split_last_empty(n, '/');
        assert(false);
    }
    if n.len() == 0 {
        lemma_split_none(n, '/');
        assert(comps[0].len() == 0);
        assert(false);
    }
    assert(untrailed(n) == n);
    assert(norm_seps(n) =~= n);
    assert(s[0] == u[0]);
    assert(n[0] == norm_sep(s[0]));
    assert(!n.contains('\0')) by {
        if n.contains('\0') {
            let i = choose|i: int| 0 <= i < n.len() && n[i] == '\0';
            assert(u[i] == '\0');
            assert(s[i] == '\0');
        }
    }
    assert(!n.contains(':')) by {
        if n.contains(':') {
            let i = choose|i: int| 0 <= i < n.len() && n[i] == ':';
            assert(u[i] == ':');
            assert(s[i] == ':');
        }
    }
}

// ---------------------------------------------------------------------------
// Payload fingerprint plan
// ---------------------------------------------------------------------------

/// Caller-owned payload bounds; the payload domain owns the numbers.
#[derive(Clone, Copy)]
pub struct PayloadLimits {
    pub max_file_bytes: u64,
    pub max_total_bytes: u64,
    pub max_total_decode_bytes: u64,
}

/// Index of the last entry among `ins[..n]` whose normalized path equals
/// `p` up to ASCII case, or -1.
pub open spec fn last_match_ic(ins: Seq<InspectedEntry>, p: Seq<char>, n: int) -> int
    decreases n,
{
    if n <= 0 {
        -1
    } else if eq_ic(ins[n - 1].normalized@, p) {
        n - 1
    } else {
        last_match_ic(ins, p, n - 1)
    }
}

/// A payload must be a regular streamed file with a length inside the
/// per-payload cap and no reparse-point attribute.
pub open spec fn payload_contract(index: usize, t: InspectedEntry, max_file: u64) -> Option<
    ExtractionError,
> {
    if t.is_directory || t.is_anti_item || !t.has_stream || t.size == 0 {
        Some(ExtractionError::PayloadNotRegularFile { index })
    } else if t.has_windows_attributes && (t.windows_attributes & ATTR_REPARSE_POINT) != 0 {
        Some(ExtractionError::PayloadNotRegularFile { index })
    } else if t.size > max_file {
        Some(ExtractionError::PayloadTooLarge { index })
    } else {
        None
    }
}

/// The first `n` requested members resolved, in order, to the entries they
/// uniquely name, with the running total of their declared sizes; or the
/// first refusal: a non-ASCII request, a missing or ambiguous member, two
/// requests naming one entry, a payload that is not a regular file or is
/// too large, or the payload total exceeded.
pub open spec fn resolve_payloads(
    ins: Seq<InspectedEntry>,
    exp: Seq<Seq<char>>,
    n: int,
    lim: PayloadLimits,
) -> Result<(Seq<usize>, nat), ExtractionError>
    decreases n,
{
    if n <= 0 {
        Ok((Seq::empty(), 0))
    } else {
        match resolve_payloads(ins, exp, n - 1, lim) {
            Err(e) => Err(e),
            Ok(acc) => {
                let i = n - 1;
                let want = exp[i];
                let c = count_ic(ins, want, ins.len() as int);
                if !is_ascii_seq(want) {
                    Err(ExtractionError::UnsupportedNonAsciiTarget)
                } else if c == 0 {
                    Err(ExtractionError::PayloadMemberMissing { index: i as usize })
                } else if c > 1 {
                    Err(
                        ExtractionError::PayloadMemberAmbiguous {
                            index: i as usize,
                            matches: c as usize,
                        },
                    )
                } else {
                    let m = last_match_ic(ins, want, ins.len() as int);
                    if acc.0.contains(m as usize) {
                        Err(ExtractionError::DuplicateArchiveMember)
                    } else {
                        match payload_contract(i as usize, ins[m], lim.max_file_bytes) {
                            Some(e) => Err(e),
                            None => if acc.1 + ins[m].size > lim.max_total_bytes {
                                Err(ExtractionError::PayloadTotalBytesExceeded)
                            } else {
                                Ok((acc.0.push(m as usize), (acc.1 + ins[m].size) as nat))
                            },
                        }
                    }
                }
            },
        }
    }
}

/// The block of the entry requested member `i` resolved to.
pub open spec fn block_of(ins: Seq<InspectedEntry>, res: Seq<usize>, i: int) -> Option<usize> {
    ins[res[i] as int].block_index
}

/// The first requested member among the first `n` whose entry has no block.
pub open spec fn first_unblocked(ins: Seq<InspectedEntry>, res: Seq<usize>, n: int) -> Option<int>
    decreases n,
{
    if n <= 0 {
        None
    } else if first_unblocked(ins, res, n - 1) is Some {
        first_unblocked(ins, res, n - 1)
    } else if block_of(ins, res, n - 1) is None {
        Some(n - 1)
    } else {
        None
    }
}

/// The requested members among the first `n` whose entries are in block
/// `b`, in request order.
pub open spec fn block_targets(ins: Seq<InspectedEntry>, res: Seq<usize>, b: usize, n: int) -> Seq<
    usize,
>
    decreases n,
{
    if n <= 0 {
        Seq::empty()
    } else if block_of(ins, res, n - 1) == Some(b) {
        block_targets(ins, res, b, n - 1).push((n - 1) as usize)
    } else {
        block_targets(ins, res, b, n - 1)
    }
}

/// The largest entry index the members `ts` resolved to.
pub open spec fn last_entry(res: Seq<usize>, ts: Seq<usize>) -> int
    decreases ts.len(),
{
    if ts.len() == 0 {
        -1
    } else {
        let m = res[ts.last() as int] as int;
        let rest = last_entry(res, ts.drop_last());
        if m > rest {
            m
        } else {
            rest
        }
    }
}

/// The checked packed span of block `b`, when it can be proved.
pub open spec fn packed_of(a: ArchiveMeta, b: int) -> Option<nat> {
    match block_span(
        a.block_first_pack_stream_index@,
        a.pack_sizes@.len() as int,
        a.blocks@.len() as int,
        b,
    ) {
        None => None,
        Some((x, y)) => if span_sum(a.pack_sizes@, x, y) <= u64::MAX {
            Some(span_sum(a.pack_sizes@, x, y))
        } else {
            None
        },
    }
}

/// Why decoding a block was refused before any decoding.
pub enum BlockRefusal {
    Error(ExtractionError),
    /// The block has no first-entry index.
    NoFirstIndex,
}

/// The declared decode cost of the used blocks among the first `k`, in
/// block order, or the first refusal: the block's coder workspace, no
/// first-entry index, a decode cost that overflows or exceeds the budget
/// (charged from the block's first entry through the last requested entry
/// in it), or, where the packed span is known, an expansion ratio above the
/// cap or a cap that does not fit in 64 bits.
pub open spec fn decode_blocks(
    a: ArchiveMeta,
    ins: Seq<InspectedEntry>,
    res: Seq<usize>,
    k: int,
    lim: PayloadLimits,
) -> Result<nat, BlockRefusal>
    decreases k,
{
    if k <= 0 {
        Ok(0)
    } else {
        match decode_blocks(a, ins, res, k - 1, lim) {
            Err(e) => Err(e),
            Ok(d) => {
                let b = k - 1;
                let ts = block_targets(ins, res, b as usize, res.len() as int);
                if ts.len() == 0 {
                    Ok(d)
                } else {
                    let block = a.blocks@[b];
                    if !(aggregate_of(block.coders@, block.coders@.len() as int) matches Some(t) && t
                        <= MAX_DECODER_WORKSPACE_BYTES) {
                        Err(BlockRefusal::Error(ExtractionError::DecoderWorkspaceExceeded))
                    } else if b >= a.block_first_file_index@.len() {
                        Err(BlockRefusal::NoFirstIndex)
                    } else {
                        let first = a.block_first_file_index@[b] as int;
                        let cost = streamed_sum(ins, first, last_entry(res, ts) + 1);
                        if cost > u64::MAX || d + cost > lim.max_total_decode_bytes {
                            Err(BlockRefusal::Error(ExtractionError::PayloadDecodeBudgetExceeded))
                        } else if packed_of(a, b) matches Some(p) && p > 0 && (block.unpack_size > p
                            * MAX_TARGET_BLOCK_EXPANSION_RATIO || p * MAX_TARGET_BLOCK_EXPANSION_RATIO
                            > u64::MAX) {
                            Err(BlockRefusal::Error(ExtractionError::TargetExpansionRatioExceeded))
                        } else {
                            Ok(d + cost)
                        }
                    }
                }
            },
        }
    }
}

/// The used blocks among the first `k`, in block order, each with its
/// requested members in request order.
pub open spec fn block_groups(ins: Seq<InspectedEntry>, res: Seq<usize>, k: int) -> Seq<
    (usize, Seq<usize>),
>
    decreases k,
{
    if k <= 0 {
        Seq::empty()
    } else {
        let ts = block_targets(ins, res, (k - 1) as usize, res.len() as int);
        if ts.len() == 0 {
            block_groups(ins, res, k - 1)
        } else {
            block_groups(ins, res, k - 1).push(((k - 1) as usize, ts))
        }
    }
}

/// Some requested member's entry is in a block the archive does not have.
pub open spec fn block_out_of_range(ins: Seq<InspectedEntry>, res: Seq<usize>, nblocks: int) -> bool {
    exists|i: int|
        0 <= i < res.len() && (#[trigger] block_of(ins, res, i) matches Some(b) && b >= nblocks)
}

/// No block's first entry lies more than one past an entry of that block.
pub open spec fn block_starts_consistent(a: ArchiveMeta, ins: Seq<InspectedEntry>) -> bool {
    forall|j: int|
        0 <= j < ins.len() ==> (#[trigger] ins[j].block_index matches Some(b) ==> (b
            < a.block_first_file_index@.len() ==> a.block_first_file_index@[b as int] <= j + 1))
}

/// What fingerprinting the requested members will decode: the entry each
/// member resolved to, the used blocks in ascending order with their
/// members, and the declared decode cost checked against the budget.
pub struct PayloadDecodePlan {
    pub resolved: Vec<usize>,
    pub groups: Vec<(usize, Vec<usize>)>,
    pub declared_decode_bytes: u64,
}

pub open spec fn group_views(g: Seq<(usize, Vec<usize>)>) -> Seq<(usize, Seq<usize>)> {
    g.map_values(|x: (usize, Vec<usize>)| (x.0, x.1@))
}

pub open spec fn str_list(v: Seq<String>) -> Seq<Seq<char>> {
    v.map_values(|s: String| s@)
}

fn last_match(ins: &[InspectedEntry], want: &[char]) -> (r: (usize, usize))
    ensures
        r.0 == count_ic(ins@, want@, ins@.len() as int),
        r.0 > 0 ==> r.1 as int == last_match_ic(ins@, want@, ins@.len() as int) && r.1 < ins@.len(),
        r.0 == 0 ==> last_match_ic(ins@, want@, ins@.len() as int) == -1,
{
    let mut count: usize = 0;
    let mut last: usize = 0;
    let mut j: usize = 0;
    while j < ins.len()
        invariant
            j <= ins@.len(),
            count == count_ic(ins@, want@, j as int),
            count <= j,
            count > 0 ==> last as int == last_match_ic(ins@, want@, j as int) && last < j,
            count == 0 ==> last_match_ic(ins@, want@, j as int) == -1,
        decreases ins.len() - j,
    {
        let e = chars_of(ins[j].normalized.as_str());
        if eq_ignore_case(e.as_slice(), want) {
            count = count + 1;
            last = j;
        }
        j = j + 1;
    }
    (count, last)
}

fn contains_index(v: &Vec<usize>, x: usize) -> (r: bool)
    ensures
        r == v@.contains(x),
{
    let mut k: usize = 0;
    while k < v.len()
        invariant
            k <= v@.len(),
            forall|j: int| 0 <= j < k ==> v@[j] != x,
        decreases v.len() - k,
    {
        if v[k] == x {
            return true;
        }
        k = k + 1;
    }
    false
}

fn check_payload_contract(index: usize, t: &InspectedEntry, max_file: u64) -> (r: Result<
    (),
    ExtractionError,
>)
    ensures
        match payload_contract(index, *t, max_file) {
            Some(e) => r == Err::<(), ExtractionError>(e),
            None => r is Ok,
        },
{
    if t.is_directory || t.is_anti_item || !t.has_stream || t.size == 0 {
        return Err(ExtractionError::PayloadNotRegularFile { index });
    }
    if t.has_windows_attributes && (t.windows_attributes & ATTR_REPARSE_POINT) != 0 {
        return Err(ExtractionError::PayloadNotRegularFile { index });
    }
    payload_size_within_cap(index, t.size, max_file)
}

proof fn lemma_resolve_err(
    ins: Seq<InspectedEntry>,
    exp: Seq<Seq<char>>,
    i: int,
    n: int,
    lim: PayloadLimits,
)
    requires
        0 <= i <= n,
        resolve_payloads(ins, exp, i, lim) is Err,
    ensures
        resolve_payloads(ins, exp, n, lim) == resolve_payloads(ins, exp, i, lim),
    decreases n - i,
{
    if i < n {
        lemma_resolve_err(ins, exp, i, n - 1, lim);
    }
}

proof fn lemma_decode_err(
    a: ArchiveMeta,
    ins: Seq<InspectedEntry>,
    res: Seq<usize>,
    i: int,
    n: int,
    lim: PayloadLimits,
)
    requires
        0 <= i <= n,
        decode_blocks(a, ins, res, i, lim) is Err,
    ensures
        decode_blocks(a, ins, res, n, lim) == decode_blocks(a, ins, res, i, lim),
    decreases n - i,
{
    if i < n {
        lemma_decode_err(a, ins, res, i, n - 1, lim);
    }
}

proof fn lemma_first_unblocked_stable(ins: Seq<InspectedEntry>, res: Seq<usize>, i: int, n: int)
    requires
        0 <= i <= n,
        first_unblocked(ins, res, i) is Some,
    ensures
        first_unblocked(ins, res, n) == first_unblocked(ins, res, i),
    decreases n - i,
{
    if i < n {
        lemma_first_unblocked_stable(ins, res, i, n - 1);
    }
}

proof fn lemma_targets_bound(ins: Seq<InspectedEntry>, res: Seq<usize>, b: usize, n: int)
    requires
        0 <= n <= res.len() <= usize::MAX,
    ensures
        forall|k: int|
            0 <= k < block_targets(ins, res, b, n).len() ==> {
                let t = #[trigger] block_targets(ins, res, b, n)[k];
                &&& t < n
                &&& block_of(ins, res, t as int) == Some(b)
            },
    decreases n,
{
    if n > 0 {
        lemma_targets_bound(ins, res, b, n - 1);
        let p = block_targets(ins, res, b, n - 1);
        if block_of(ins, res, n - 1) == Some(b) {
            let q = p.push((n - 1) as usize);
            assert(block_targets(ins, res, b, n) == q);
            assert forall|k: int| 0 <= k < q.len() implies (#[trigger] q[k]) < n && block_of(
                ins,
                res,
                q[k] as int,
            ) == Some(b) by {
                if k < p.len() {
                    assert(q[k] == p[k]);
                } else {
                    assert(q[k] == (n - 1) as usize);
                }
            }
        }
    }
}

/// Everything about fingerprinting the requested members that is decided
/// before any decoding: each request resolves uniquely to a regular
/// streamed payload within its cap and the payload total, every payload is
/// in a block the archive has, and the used blocks, in ascending order,
/// pass the coder-workspace, decode-budget and expansion-ratio bounds.
#[verifier::loop_isolation(false)]
#[verifier::spinoff_prover]
#[verifier::rlimit(60)]
pub fn plan_payload_fingerprints(
    archive: &ArchiveMeta,
    inspected: &[InspectedEntry],
    expected: &[String],
    limits: &PayloadLimits,
) -> (r: Result<PayloadDecodePlan, ExtractionError>)
    requires
        block_starts_consistent(*archive, inspected@),
    ensures
        match resolve_payloads(inspected@, str_list(expected@), expected@.len() as int, *limits) {
            Err(e) => r == Err::<PayloadDecodePlan, ExtractionError>(e),
            Ok(acc) => match first_unblocked(inspected@, acc.0, acc.0.len() as int) {
                Some(i) => r == Err::<PayloadDecodePlan, ExtractionError>(
                    ExtractionError::PayloadNotRegularFile { index: i as usize },
                ),
                None => match decode_blocks(
                    *archive,
                    inspected@,
                    acc.0,
                    archive.blocks@.len() as int,
                    *limits,
                ) {
                    Err(BlockRefusal::Error(e)) => r == Err::<PayloadDecodePlan, ExtractionError>(e),
                    Err(BlockRefusal::NoFirstIndex) => r matches Err(
                        ExtractionError::InvalidPackAtExtraction(m),
                    ) && m@ == "payload block first-file index out of range"@,
                    Ok(d) => if block_out_of_range(inspected@, acc.0, archive.blocks@.len() as int) {
                        r matches Err(ExtractionError::InvalidPackAtExtraction(m)) && m@
                            == "payload block index out of range"@
                    } else {
                        r matches Ok(plan) && plan.resolved@ == acc.0 && plan.declared_decode_bytes
                            == d && group_views(plan.groups@) == block_groups(
                            inspected@,
                            acc.0,
                            archive.blocks@.len() as int,
                        )
                    },
                },
            },
        },
{
    let ghost exp = str_list(expected@);
    // Resolve every request uniquely and check its payload contract.
    let mut resolved: Vec<usize> = Vec::new();
    let mut total: u64 = 0;
    let mut i: usize = 0;
    while i < expected.len()
        invariant
            i <= expected@.len(),
            exp == str_list(expected@),
            resolve_payloads(inspected@, exp, i as int, *limits) == Ok::<
                (Seq<usize>, nat),
                ExtractionError,
            >((resolved@, total as nat)),
            forall|k: int| 0 <= k < resolved@.len() ==> #[trigger] resolved@[k] < inspected@.len(),
        decreases expected.len() - i,
    {
        proof {
            assert(exp[i as int] == expected@[i as int]@);
        }
        let want = chars_of(expected[i].as_str());
        if !is_ascii(want.as_slice()) {
            proof {
                lemma_resolve_err(inspected@, exp, i + 1, expected@.len() as int, *limits);
            }
            return Err(ExtractionError::UnsupportedNonAsciiTarget);
        }
        let (count, matched) = last_match(inspected, want.as_slice());
        if count == 0 {
            proof {
                lemma_resolve_err(inspected@, exp, i + 1, expected@.len() as int, *limits);
            }
            return Err(ExtractionError::PayloadMemberMissing { index: i });
        }
        if count > 1 {
            proof {
                lemma_resolve_err(inspected@, exp, i + 1, expected@.len() as int, *limits);
            }
            return Err(ExtractionError::PayloadMemberAmbiguous { index: i, matches: count });
        }
        if contains_index(&resolved, matched) {
            proof {
                lemma_resolve_err(inspected@, exp, i + 1, expected@.len() as int, *limits);
            }
            return Err(ExtractionError::DuplicateArchiveMember);
        }
        let t = &inspected[matched];
        match check_payload_contract(i, t, limits.max_file_bytes) {
            Err(e) => {
                proof {
                    lemma_resolve_err(inspected@, exp, i + 1, expected@.len() as int, *limits);
                }
                return Err(e);
            },
            Ok(()) => {},
        }
        match accumulate_payload_bytes(total, t.size, limits.max_total_bytes) {
            Err(e) => {
                proof {
                    lemma_resolve_err(inspected@, exp, i + 1, expected@.len() as int, *limits);
                }
                return Err(e);
            },
            Ok(v) => {
                total = v;
            },
        }
        resolved.push(matched);
        i = i + 1;
    }
    let ghost res = resolved@;
    // Every payload must be in a block.
    let mut k: usize = 0;
    while k < resolved.len()
        invariant
            k <= res.len(),
            res == resolved@,
            first_unblocked(inspected@, res, k as int) is None,
        decreases resolved.len() - k,
    {
        if inspected[resolved[k]].block_index.is_none() {
            proof {
                lemma_first_unblocked_stable(inspected@, res, k + 1, res.len() as int);
            }
            return Err(ExtractionError::PayloadNotRegularFile { index: k });
        }
        k = k + 1;
    }
    // The used blocks in ascending order: bounds before any decoding.
    let nblocks = archive.blocks.len();
    let mut declared: u64 = 0;
    let mut groups: Vec<(usize, Vec<usize>)> = Vec::new();
    let mut b: usize = 0;
    while b < nblocks
        invariant
            b <= nblocks == archive.blocks@.len(),
            res == resolved@,
            decode_blocks(*archive, inspected@, res, b as int, *limits) == Ok::<nat, BlockRefusal>(
                declared as nat,
            ),
            group_views(groups@) == block_groups(inspected@, res, b as int),
        decreases nblocks - b,
    {
        let mut targets: Vec<usize> = Vec::new();
        let mut last: usize = 0;
        let mut j: usize = 0;
        while j < resolved.len()
            invariant
                j <= res.len(),
                res == resolved@,
                targets@ == block_targets(inspected@, res, b, j as int),
                targets@.len() > 0 ==> last as int == last_entry(res, targets@),
            decreases resolved.len() - j,
        {
            if inspected[resolved[j]].block_index == Some(b) {
                let ghost before = targets@;
                let ghost old_last = last;
                targets.push(j);
                proof {
                    assert(targets@.drop_last() =~= before);
                    assert(targets@.last() == j);
                    if before.len() == 0 {
                        assert(last_entry(res, before) == -1);
                    } else {
                        assert(old_last as int == last_entry(res, before));
                    }
                }
                if targets.len() == 1 || resolved[j] > last {
                    last = resolved[j];
                }
                proof {
                    assert(last as int == last_entry(res, targets@));
                }
            }
            j = j + 1;
        }
        if targets.len() > 0 {
            let block = &archive.blocks[b];
            match validate_target_block_coder_memory(block) {
                Err(e) => {
                    proof {
                        lemma_decode_err(*archive, inspected@, res, b + 1, nblocks as int, *limits);
                    }
                    return Err(e);
                },
                Ok(()) => {},
            }
            if b >= archive.block_first_file_index.len() {
                proof {
                    lemma_decode_err(*archive, inspected@, res, b + 1, nblocks as int, *limits);
                }
                return Err(
                    ExtractionError::InvalidPackAtExtraction(
                        owned("payload block first-file index out of range"),
                    ),
                );
            }
            let first = archive.block_first_file_index[b];
            proof {
                lemma_targets_bound(inspected@, res, b, res.len() as int);
                let t0 = targets@[0];
                assert(block_of(inspected@, res, t0 as int) == Some(b));
                assert(inspected@[res[t0 as int] as int].block_index == Some(b));
                lemma_last_entry_member(res, targets@);
                let tl = choose|q: int|
                    0 <= q < targets@.len() && res[targets@[q] as int] as int == last as int;
                assert(block_of(inspected@, res, targets@[tl] as int) == Some(b));
                assert(inspected@[last as int].block_index == Some(b));
            }
            let cost = match decode_bytes_to_target(inspected, first, last) {
                Err(_) => {
                    proof {
                        lemma_decode_err(*archive, inspected@, res, b + 1, nblocks as int, *limits);
                    }
                    return Err(ExtractionError::PayloadDecodeBudgetExceeded);
                },
                Ok(c) => c,
            };
            match accumulate_payload_decode_bytes(declared, cost, limits.max_total_decode_bytes) {
                Err(e) => {
                    proof {
                        lemma_decode_err(*archive, inspected@, res, b + 1, nblocks as int, *limits);
                    }
                    return Err(e);
                },
                Ok(v) => {
                    declared = v;
                },
            }
            if let Some(packed) = target_block_packed_bytes(archive, b) {
                let ratio = match target_block_expansion_ratio(block.unpack_size, packed) {
                    Err(e) => {
                        proof {
                            assert(packed_of(*archive, b as int) == Some(packed as nat));
                            assert(packed > 0);
                            assert(block.unpack_size > packed * MAX_TARGET_BLOCK_EXPANSION_RATIO
                                || packed * MAX_TARGET_BLOCK_EXPANSION_RATIO > u64::MAX);
                            assert(decode_blocks(*archive, inspected@, res, b + 1, *limits) is Err);
                            lemma_decode_err(
                                *archive,
                                inspected@,
                                res,
                                b + 1,
                                nblocks as int,
                                *limits,
                            );
                        }
                        return Err(e);
                    },
                    Ok(q) => q,
                };
                proof {
                    if packed > 0 {
                        let u = block.unpack_size;
                        assert(ratio <= MAX_TARGET_BLOCK_EXPANSION_RATIO) by (nonlinear_arith)
                            requires
                                ratio == u / packed,
                                u <= packed * 1000,
                                packed > 0,
                                MAX_TARGET_BLOCK_EXPANSION_RATIO == 1000,
                        ;
                    }
                }
                if ratio > MAX_TARGET_BLOCK_EXPANSION_RATIO {
                    return Err(ExtractionError::TargetExpansionRatioExceeded);
                }
            }
            let ghost before = group_views(groups@);
            groups.push((b, targets));
            proof {
                assert(group_views(groups@) =~= before.push((b, block_targets(inspected@, res, b, res.len() as int))));
            }
        }
        b = b + 1;
    }
    // A payload in a block the archive does not have.
    let mut q: usize = 0;
    while q < resolved.len()
        invariant
            q <= res.len(),
            res == resolved@,
            forall|i: int|
                0 <= i < q ==> !(#[trigger] block_of(inspected@, res, i) matches Some(bb) && bb
                    >= nblocks),
        decreases resolved.len() - q,
    {
        match inspected[resolved[q]].block_index {
            Some(bb) => {
                if bb >= nblocks {
                    proof {
                        assert(block_of(inspected@, res, q as int) == Some(bb));
                    }
                    return Err(ExtractionError::InvalidPackAtExtraction(owned("payload block index out of range")));
                }
            },
            None => {},
        }
        q = q + 1;
    }
    Ok(PayloadDecodePlan { resolved, groups, declared_decode_bytes: declared })
}

proof fn lemma_last_entry_member(res: Seq<usize>, ts: Seq<usize>)
    requires
        ts.len() > 0,
    ensures
        exists|q: int| 0 <= q < ts.len() && res[ts[q] as int] as int == last_entry(res, ts),
    decreases ts.len(),
{
    if ts.len() > 1 {
        lemma_last_entry_member(res, ts.drop_last());
        let q = choose|q: int|
            0 <= q < ts.drop_last().len() && res[ts.drop_last()[q] as int] as int == last_entry(
                res,
                ts.drop_last(),
            );
        if res[ts.last() as int] as int > last_entry(res, ts.drop_last()) {
            assert(res[ts[ts.len() - 1] as int] as int == last_entry(res, ts));
        } else {
            assert(ts[q] == ts.drop_last()[q]);
        }
    } else {
        assert(ts.drop_last().len() == 0);
        assert(last_entry(res, ts.drop_last()) == -1);
        assert(res[ts[0] as int] as int == last_entry(res, ts));
    }
}


/// A staged output file name: one non-empty component other than `.` and
/// `..`, with no `/`, `\\`, `:` or NUL, of at most 255 UTF-8 bytes.
pub open spec fn output_leaf_ok(leaf: Seq<char>) -> bool {
    &&& leaf.len() > 0
    &&& !leaf.contains('/')
    &&& !leaf.contains('\\')
    &&& !leaf.contains(':')
    &&& !leaf.contains('\0')
    &&& leaf != seq!['.']
    &&& leaf != seq!['.', '.']
    &&& blen(leaf) <= 255
}

/// Check the name an extracted file is to be created under, before any
/// output is opened.
pub fn check_output_leaf(leaf: &str) -> (r: Result<(), ExtractionError>)
    ensures
        r is Ok <==> output_leaf_ok(leaf@),
        r matches Err(e) ==> e matches ExtractionError::InvalidPackAtExtraction(m) && m@
            == "invalid output leaf"@,
{
    let v = chars_of(leaf);
    let bad = v.len() == 0 || has_char(v.as_slice(), '/') || has_char(v.as_slice(), '\\')
        || has_char(v.as_slice(), ':') || has_char(v.as_slice(), '\0') || (v.len() == 1 && v[0]
        == '.') || (v.len() == 2 && v[0] == '.' && v[1] == '.') || byte_len_exceeds(v.as_slice(), 255);
    if bad {
        proof {
            if v@.len() == 1 && v@[0] == '.' {
                assert(v@ =~= seq!['.']);
            }
            if v@.len() == 2 && v@[0] == '.' && v@[1] == '.' {
                assert(v@ =~= seq!['.', '.']);
            }
        }
        return Err(ExtractionError::InvalidPackAtExtraction(owned("invalid output leaf")));
    }
    proof {
        assert(v@ != seq!['.']) by {
            if v@ == seq!['.'] {
                assert(v@.len() == 1 && v@[0] == '.');
            }
        }
        assert(v@ != seq!['.', '.']) by {
            if v@ == seq!['.', '.'] {
                assert(v@.len() == 2 && v@[0] == '.' && v@[1] == '.');
            }
        }
    }
    Ok(())
}


/// Why an inspected entry is no regular, bounded target, if it is not one.
pub open spec fn contract_refusal(t: InspectedEntry) -> Option<ExtractionError> {
    if t.is_directory || t.is_anti_item || !t.has_stream || t.size == 0 {
        Some(ExtractionError::TargetNotRegularFile)
    } else if t.size > MAX_TARGET_INF_BYTES {
        Some(ExtractionError::TargetTooLarge)
    } else if t.has_windows_attributes && (t.windows_attributes & ATTR_REPARSE_POINT) != 0 {
        Some(ExtractionError::TargetNotRegularFile)
    } else {
        None
    }
}

/// The result of gating entry `t` of block `b`, with the messages of the
/// INF (or, with `catalog`, the catalog) for a missing block.
pub open spec fn gate_answer(
    r: Result<(usize, usize, u64), ExtractionError>,
    g: Result<u64, GateRefusal>,
    t: int,
    b: int,
    catalog: bool,
) -> bool {
    match g {
        Ok(c) => r == Ok::<(usize, usize, u64), ExtractionError>((t as usize, b as usize, c)),
        Err(GateRefusal::Error(e)) => r == Err::<(usize, usize, u64), ExtractionError>(e),
        Err(GateRefusal::BlockMissing) => r matches Err(ExtractionError::InvalidPackAtExtraction(m))
            && m@ == (if catalog {
            "catalog block index out of range"@
        } else {
            "target block index out of range"@
        }),
        Err(GateRefusal::NoFirstIndex) => r matches Err(ExtractionError::InvalidPackAtExtraction(m))
            && m@ == (if catalog {
            "catalog block first-file index out of range"@
        } else {
            "block first-file index out of range"@
        }),
    }
}

/// Everything checked before a member is decoded, in order: the expected
/// member is found (exactly once, ignoring ASCII case), it is a regular
/// bounded file in a block, and the block passes the decode gate. The
/// result is the member's index, its block and its decode budget.
pub fn plan_target_decode(
    archive: &ArchiveMeta,
    inspected: &[InspectedEntry],
    expected: &ExpectedArchiveMember,
    catalog: bool,
) -> (r: Result<(usize, usize, u64), ExtractionError>)
    requires
        block_starts_consistent(*archive, inspected@),
    ensures
        !is_ascii_seq(expected.path_spec()) ==> r == Err::<(usize, usize, u64), ExtractionError>(
            ExtractionError::UnsupportedNonAsciiTarget,
        ),
        is_ascii_seq(expected.path_spec()) ==> {
            let n = count_ic(inspected@, expected.path_spec(), inspected@.len() as int);
            &&& n == 0 ==> r == Err::<(usize, usize, u64), ExtractionError>(
                ExtractionError::TargetMemberMissing,
            )
            &&& n > 1 ==> r == Err::<(usize, usize, u64), ExtractionError>(
                ExtractionError::TargetMemberAmbiguous(n as usize),
            )
            &&& n == 1 ==> exists|i: int|
                0 <= i < inspected@.len() && eq_ic(
                    (#[trigger] inspected@[i]).normalized@,
                    expected.path_spec(),
                ) && match contract_refusal(inspected@[i]) {
                    Some(e) => r == Err::<(usize, usize, u64), ExtractionError>(e),
                    None => match inspected@[i].block_index {
                        None => r == Err::<(usize, usize, u64), ExtractionError>(
                            ExtractionError::TargetNotRegularFile,
                        ),
                        Some(b) => gate_answer(
                            r,
                            target_gate(*archive, inspected@, i, b as int),
                            i,
                            b as int,
                            catalog,
                        ),
                    },
                }
        },
{
    let t = match resolve_target(expected, inspected) {
        Err(e) => {
            return Err(e);
        },
        Ok(t) => t,
    };
    proof {
        assert(eq_ic(inspected@[t as int].normalized@, expected.path_spec()));
    }
    match validate_target_contract(&inspected[t]) {
        Err(e) => {
            return Err(e);
        },
        Ok(()) => {},
    }
    let b = match inspected[t].block_index {
        None => {
            return Err(ExtractionError::TargetNotRegularFile);
        },
        Some(b) => b,
    };
    match target_decode_gate(archive, inspected, t, b, catalog) {
        Err(e) => Err(e),
        Ok(c) => Ok((t, b, c)),
    }
}

} // verus!
