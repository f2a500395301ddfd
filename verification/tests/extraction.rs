use cove_optimizer::drivers::sdio::extraction::{
    aggregate_coder_workspace, check_next_header, check_output_leaf, plan_target_decode, target_decode_gate, coder_declared_workspace, coder_workspace_rejected,
    decode_bytes_to_target, encoded_header_bounds, enforce_aggregate_workspace,
    enforce_encoded_header_bounds, inspect_archive, packed_span_bytes, precheck_decode_budget,
    preflight_7z_start_header, resolve_target, target_block_expansion_ratio,
    validate_archive_bounds, validate_archive_member, validate_target_contract, plan_payload_fingerprints,
    ArchiveBlockMeta, PayloadLimits,
    ArchiveFileMeta, ArchiveMeta, ExtractionError, InspectedEntry, MAX_ARCHIVE_DECLARED_UNPACKED_BYTES,
    MAX_ARCHIVE_ENTRIES, MAX_ARCHIVE_HEADER_BYTES, MAX_ARCHIVE_TOTAL_NAME_BYTES,
    MAX_DECODER_WORKSPACE_BYTES, MAX_TARGET_BLOCK_EXPANSION_RATIO, MAX_TARGET_DECODE_BYTES,
    MAX_TARGET_INF_BYTES,
};
use cove_optimizer::drivers::sdio::local_pack::{expected_inf_member, MAX_ARCHIVE_MEMBER_LEN};

const CODER_ID_LZMA: [u8; 3] = [0x03, 0x01, 0x01];
const CODER_ID_LZMA2: [u8; 1] = [0x21];
const CODER_ID_COPY: [u8; 1] = [0x00];

#[test]
fn name_budget_boundary() {
    let mut total: u64 = 0;
    for _ in 0..MAX_ARCHIVE_ENTRIES {
        total = total.checked_add(MAX_ARCHIVE_MEMBER_LEN as u64).unwrap();
    }
    assert!(total > MAX_ARCHIVE_TOTAL_NAME_BYTES);
    assert!(MAX_ARCHIVE_TOTAL_NAME_BYTES <= MAX_ARCHIVE_TOTAL_NAME_BYTES);
    let a = u64::MAX - 1;
    let b = 2u64;
    assert!(a.checked_add(b).is_none());
}

#[test]
fn declared_unpacked_budget_boundary() {
    assert!(MAX_ARCHIVE_DECLARED_UNPACKED_BYTES == 64 * 1024 * 1024 * 1024);
    let a = u64::MAX - 1;
    let b = 2u64;
    assert!(a.checked_add(b).is_none());
    assert!(MAX_TARGET_INF_BYTES <= MAX_ARCHIVE_DECLARED_UNPACKED_BYTES);
}

fn entry(normalized: &str, size: u64) -> InspectedEntry {
    InspectedEntry {
        normalized: normalized.to_string(),
        raw: normalized.to_string(),
        has_stream: true,
        is_directory: false,
        is_anti_item: false,
        size,
        has_windows_attributes: false,
        windows_attributes: 0,
        block_index: Some(0),
    }
}

#[test]
fn target_size_cap_boundary() {
    assert!(MAX_TARGET_INF_BYTES == 32 * 1024 * 1024);
    let at_cap = entry("amd/driver.inf", MAX_TARGET_INF_BYTES);
    assert!(validate_target_contract(&at_cap).is_ok());
    let over_cap = InspectedEntry { size: MAX_TARGET_INF_BYTES + 1, ..at_cap };
    assert!(matches!(validate_target_contract(&over_cap), Err(ExtractionError::TargetTooLarge)));
}

#[test]
fn decode_budget_boundary() {
    assert!(MAX_TARGET_DECODE_BYTES == 2 * 1024 * 1024 * 1024);
    let mk = |size: u64| entry("x", size);
    let g = 1024u64 * 1024 * 1024;
    let entries = vec![mk(g), mk(g), mk(g)];
    let total = decode_bytes_to_target(&entries, 0, 2).expect("sum fits u64");
    assert_eq!(total, 3 * g);
    assert!(total > MAX_TARGET_DECODE_BYTES);
    assert!(matches!(
        precheck_decode_budget(total),
        Err(ExtractionError::TargetDecodeBudgetExceeded)
    ));
    let entries2 = vec![mk(g), mk(g)];
    let total2 = decode_bytes_to_target(&entries2, 0, 1).expect("sum fits u64");
    assert!(total2 <= MAX_TARGET_DECODE_BYTES);
    assert!(precheck_decode_budget(total2).is_ok());
    assert!(decode_bytes_to_target(&[mk(u64::MAX), mk(1)], 0, 1).is_err());
}

#[test]
fn runtime_byte_accounting_checked() {
    let mut runtime: u64 = 0;
    let cap = MAX_TARGET_DECODE_BYTES;
    let step = 1024u64;
    while runtime < cap {
        runtime = runtime.checked_add(step).unwrap();
    }
    assert!(runtime >= cap);
    assert!(runtime.checked_add(step).is_some());
    let mut near_max = u64::MAX - 1;
    assert!(near_max.checked_add(2).is_none());
    near_max = near_max.checked_add(1).unwrap();
    let _ = near_max;
}

#[test]
fn multi_pack_stream_ratio_uses_complete_span() {
    let first_indices = [0usize];
    let pack_sizes = [10u64, 90u64];
    let packed =
        packed_span_bytes(&first_indices, &pack_sizes, 1, 0).expect("complete span available");
    assert_eq!(packed, 100, "must sum ALL of the block's packed streams");
    let ratio = target_block_expansion_ratio(50_000, packed).expect("ratio");
    assert!(ratio <= MAX_TARGET_BLOCK_EXPANSION_RATIO);
    assert!(matches!(
        target_block_expansion_ratio(50_000, 10),
        Err(ExtractionError::TargetExpansionRatioExceeded)
    ));
}

#[test]
fn multi_pack_stream_ratio_block_boundaries() {
    let first_indices = [0usize, 1usize];
    let pack_sizes = [5u64, 10u64, 90u64];
    assert_eq!(packed_span_bytes(&first_indices, &pack_sizes, 2, 0), Some(5));
    assert_eq!(packed_span_bytes(&first_indices, &pack_sizes, 2, 1), Some(100));
}

#[test]
fn multi_pack_stream_ratio_unavailable_fails_closed() {
    assert!(packed_span_bytes(&[], &[1u64], 1, 0).is_none());
    assert!(packed_span_bytes(&[0usize], &[1u64], 1, 1).is_none());
    assert!(packed_span_bytes(&[5usize, 2usize], &[1u64, 2u64], 2, 0).is_none());
    assert!(packed_span_bytes(&[0usize, 9usize], &[1u64], 2, 0).is_none());
    assert!(packed_span_bytes(&[0usize], &[u64::MAX, 1u64], 1, 0).is_none());
}

#[test]
fn fractional_ratio_just_over_cap_rejected() {
    assert!(matches!(
        target_block_expansion_ratio(2001, 2),
        Err(ExtractionError::TargetExpansionRatioExceeded)
    ));
    assert_eq!(target_block_expansion_ratio(2000, 2).unwrap(), 1000);
    assert_eq!(target_block_expansion_ratio(1999, 2).unwrap(), 999);
}

#[test]
fn fractional_ratio_overflow_fails_closed() {
    assert!(matches!(
        target_block_expansion_ratio(u64::MAX, 2),
        Err(ExtractionError::TargetExpansionRatioExceeded)
    ));
    assert_eq!(target_block_expansion_ratio(0, 0).unwrap(), 0);
}

#[test]
fn start_header_next_size_budget_enforced() {
    let mut hdr = [0u8; 32];
    hdr[0..6].copy_from_slice(&[b'7', b'z', 0xBC, 0xAF, 0x27, 0x1C]);
    hdr[6] = 0;
    hdr[7] = 4;
    hdr[20..28].copy_from_slice(&(MAX_ARCHIVE_HEADER_BYTES + 1).to_le_bytes());
    assert!(matches!(
        preflight_7z_start_header(&hdr),
        Err(ExtractionError::ArchiveHeaderTooLarge)
    ));

    let mut ok = [0u8; 32];
    ok[0..6].copy_from_slice(&[b'7', b'z', 0xBC, 0xAF, 0x27, 0x1C]);
    ok[6] = 0;
    ok[7] = 4;
    ok[20..28].copy_from_slice(&MAX_ARCHIVE_HEADER_BYTES.to_le_bytes());
    assert_eq!(
        preflight_7z_start_header(&ok).expect("at-budget accepted"),
        MAX_ARCHIVE_HEADER_BYTES as u32
    );

    let mut bad_sig = hdr;
    bad_sig[0] = b'X';
    assert!(preflight_7z_start_header(&bad_sig).is_err());
    assert!(preflight_7z_start_header(&hdr[..20]).is_err());
    let mut bad_ver = hdr;
    bad_ver[6] = 1;
    assert!(preflight_7z_start_header(&bad_ver).is_err());
}

#[test]
fn decoder_workspace_budget_enforced() {
    assert_eq!(coder_declared_workspace(&[0x21], &[40]), Some(0xFFFF_FFFF));
    assert!(matches!(
        coder_workspace_rejected(&[0x21], &[40]),
        Err(ExtractionError::DecoderWorkspaceExceeded)
    ));
    let mut props = [0u8; 5];
    props[1..5].copy_from_slice(&(2u32 * 1024 * 1024 * 1024).to_le_bytes());
    assert!(matches!(
        coder_workspace_rejected(&[0x03, 0x01, 0x01], &props),
        Err(ExtractionError::DecoderWorkspaceExceeded)
    ));
    let mut small = [0u8; 5];
    small[1..5].copy_from_slice(&(1024u32 * 1024).to_le_bytes());
    assert!(coder_workspace_rejected(&[0x03, 0x01, 0x01], &small).is_ok());
    assert!(coder_workspace_rejected(&[0x00], &[]).is_ok());
    assert!(coder_workspace_rejected(&[0x03, 0x01, 0x01], &[0u8; 3]).is_err());
}

fn mk_lzma(dict_mib: u32) -> Vec<u8> {
    let mut props = vec![0u8; 5];
    props[1..5].copy_from_slice(&(dict_mib * 1024 * 1024).to_le_bytes());
    props
}

#[test]
fn aggregate_workspace_budget_enforced() {
    let lzma_id = CODER_ID_LZMA.to_vec();
    let copy_id = CODER_ID_COPY.to_vec();

    let under = mk_lzma(300);
    assert!(coder_workspace_rejected(&lzma_id, &under).is_ok());
    let at_cap = mk_lzma(512);
    assert!(coder_workspace_rejected(&lzma_id, &at_cap).is_ok());

    let block_cod = [(lzma_id.clone(), mk_lzma(300)), (lzma_id.clone(), mk_lzma(300))];
    let agg = aggregate_coder_workspace(&block_cod).expect("sum fits u64");
    assert!(agg > MAX_DECODER_WORKSPACE_BYTES);
    assert!(matches!(
        enforce_aggregate_workspace(&block_cod),
        Err(ExtractionError::DecoderWorkspaceExceeded)
    ));

    let mixed = [(lzma_id.clone(), mk_lzma(300)), (copy_id, Vec::new())];
    assert_eq!(aggregate_coder_workspace(&mixed).expect("sum"), 300 * 1024 * 1024);
    assert!(enforce_aggregate_workspace(&mixed).is_ok());

    let two_at_half = [(lzma_id.clone(), mk_lzma(256)), (lzma_id.clone(), mk_lzma(256))];
    assert_eq!(aggregate_coder_workspace(&two_at_half).expect("sum"), MAX_DECODER_WORKSPACE_BYTES);
    assert!(enforce_aggregate_workspace(&two_at_half).is_ok());

    let max_props = || {
        let mut p = vec![0u8; 5];
        p[1..5].copy_from_slice(&u32::MAX.to_le_bytes());
        p
    };
    let overflow = [(lzma_id.clone(), max_props()), (lzma_id, max_props())];
    assert!(enforce_aggregate_workspace(&overflow).is_err());
}

fn push_varint(b: &mut Vec<u8>, mut v: u64) {
    if v < 0x80 {
        b.push(v as u8);
        return;
    }
    let mut first = 0u8;
    let mut i = 0;
    while i < 8 {
        if v < (1u64 << (7 * (i + 1))) {
            first |= (v >> (8 * i)) as u8;
            break;
        }
        first |= 0x80 >> i;
        i += 1;
    }
    b.push(first);
    while i > 0 {
        b.push((v & 0xFF) as u8);
        v >>= 8;
        i -= 1;
    }
}

/// A minimal encoded-header streams-info body: pack info (one stream of size
/// 1), unpack info (one block with the given coders and declared unpack size
/// `unpack` per output stream), sub-streams info, end markers.
fn encoded_header_fixture(coders: &[(Vec<u8>, Vec<u8>)], unpack: u64) -> Vec<u8> {
    let mut b = Vec::new();
    b.extend_from_slice(&[0x06, 0x00, 0x01, 0x09, 0x01, 0x00]);
    b.extend_from_slice(&[0x07, 0x0B, 0x01, 0x00]);
    b.push(coders.len() as u8);
    for (id, props) in coders {
        let mut flags = id.len() as u8;
        if !props.is_empty() {
            flags |= 0x20;
        }
        b.push(flags);
        b.extend_from_slice(id);
        if !props.is_empty() {
            b.push(props.len() as u8);
            b.extend_from_slice(props);
        }
    }
    for i in 0..coders.len().saturating_sub(1) {
        b.push((i + 1) as u8);
        b.push(i as u8);
    }
    b.push(0x0C);
    for _ in 0..coders.len() {
        push_varint(&mut b, unpack);
    }
    b.push(0x00);
    b.extend_from_slice(&[0x08, 0x0A, 0x01]);
    b.extend_from_slice(&0u32.to_le_bytes());
    b.push(0x00);
    b.push(0x00);
    b
}

#[test]
fn encoded_header_decoded_size_bomb_rejected() {
    let body = encoded_header_fixture(
        &[(CODER_ID_LZMA2.to_vec(), vec![0x1D])],
        MAX_ARCHIVE_HEADER_BYTES + 1,
    );
    let (decoded, _ws) = encoded_header_bounds(&body).expect("parses");
    assert!(decoded > MAX_ARCHIVE_HEADER_BYTES);
    assert!(matches!(
        enforce_encoded_header_bounds(&body),
        Err(ExtractionError::ArchiveHeaderTooLarge)
    ));
    let ok = encoded_header_fixture(&[(CODER_ID_LZMA2.to_vec(), vec![0x1D])], 4096);
    assert!(enforce_encoded_header_bounds(&ok).is_ok());
}

#[test]
fn encoded_header_workspace_bomb_rejected() {
    let mut big = vec![0u8; 5];
    big[1..5].copy_from_slice(&(1024u32 * 1024 * 1024).to_le_bytes());
    let extreme = encoded_header_fixture(&[(CODER_ID_LZMA.to_vec(), big)], 4096);
    assert!(matches!(
        enforce_encoded_header_bounds(&extreme),
        Err(ExtractionError::DecoderWorkspaceExceeded)
    ));
    let multi = encoded_header_fixture(
        &[(CODER_ID_LZMA.to_vec(), mk_lzma(300)), (CODER_ID_LZMA.to_vec(), mk_lzma(300))],
        4096,
    );
    assert!(matches!(
        enforce_encoded_header_bounds(&multi),
        Err(ExtractionError::DecoderWorkspaceExceeded)
    ));
    let ok = encoded_header_fixture(
        &[(CODER_ID_LZMA.to_vec(), mk_lzma(300)), (CODER_ID_LZMA2.to_vec(), vec![0x1D])],
        4096,
    );
    assert!(enforce_encoded_header_bounds(&ok).is_ok());
    let malformed = encoded_header_fixture(&[(CODER_ID_LZMA.to_vec(), vec![0u8; 3])], 4096);
    assert!(enforce_encoded_header_bounds(&malformed).is_err());
}

// ---------------------------------------------------------------------------
// Member paths, inspection and target resolution
// ---------------------------------------------------------------------------

#[test]
fn member_paths_normalize_only_separators() {
    assert_eq!(validate_archive_member(0, "amd\\64\\driver.inf", false).unwrap(), "amd/64/driver.inf");
    assert_eq!(validate_archive_member(0, "amd/64/", true).unwrap(), "amd/64");
    for bad in [
        "", "/abs.inf", "\\abs.inf", "C:x.inf", "a//b.inf", "a/../b.inf", "a/./b.inf", "a/b.inf/",
        "a /b.inf", "a./b.inf", "NUL.inf", "a/b?.inf", "a\0b",
    ] {
        assert!(
            matches!(
                validate_archive_member(7, bad, false),
                Err(ExtractionError::UnsafeArchiveMember { index: 7 })
            ),
            "{bad:?}"
        );
    }
    let deep = vec!["d"; 65].join("/");
    assert!(validate_archive_member(1, &deep, false).is_err());
    let ok_depth = vec!["d"; 64].join("/");
    assert!(validate_archive_member(1, &ok_depth, false).is_ok());
}

fn file(name: &str, size: u64) -> ArchiveFileMeta {
    ArchiveFileMeta {
        name: name.to_string(),
        has_stream: true,
        is_directory: false,
        is_anti_item: false,
        size,
        has_windows_attributes: false,
        windows_attributes: 0,
    }
}

fn archive(files: Vec<ArchiveFileMeta>) -> ArchiveMeta {
    let n = files.len();
    ArchiveMeta {
        files,
        blocks: vec![ArchiveBlockMeta {
            coders: vec![(CODER_ID_LZMA2.to_vec(), vec![0x10])],
            unpack_size: 1000,
        }],
        file_block_index: vec![Some(0); n],
        block_first_pack_stream_index: vec![0],
        block_first_file_index: vec![0],
        pack_sizes: vec![100],
    }
}

#[test]
fn inspection_rejects_duplicates_and_resolves_targets() {
    let a = archive(vec![file("amd\\Driver.inf", 10), file("amd/driver.cat", 5)]);
    let entries = inspect_archive(&a).unwrap();
    assert_eq!(entries.len(), 2);
    assert_eq!(entries[0].normalized, "amd/Driver.inf");
    assert_eq!(entries[0].raw, "amd\\Driver.inf");
    assert_eq!(entries[0].block_index, Some(0));

    let expected = expected_inf_member("AMD\\", "driver.INF").unwrap();
    assert_eq!(resolve_target(&expected, &entries).unwrap(), 0);
    let missing = expected_inf_member("intel\\", "driver.inf").unwrap();
    assert!(matches!(resolve_target(&missing, &entries), Err(ExtractionError::TargetMemberMissing)));

    let dup = archive(vec![file("a\\x.inf", 1), file("a/x.inf", 1)]);
    assert!(matches!(inspect_archive(&dup), Err(ExtractionError::DuplicateArchiveMember)));

    let case_pair = archive(vec![file("a/x.inf", 1), file("A/X.inf", 1)]);
    let entries = inspect_archive(&case_pair).unwrap();
    let target = expected_inf_member("a\\", "x.inf").unwrap();
    assert!(matches!(
        resolve_target(&target, &entries),
        Err(ExtractionError::TargetMemberAmbiguous(2))
    ));

    let unsafe_one = archive(vec![file("ok.inf", 1), file("../evil.inf", 1)]);
    assert!(matches!(
        inspect_archive(&unsafe_one),
        Err(ExtractionError::UnsafeArchiveMember { index: 1 })
    ));
}

#[test]
fn archive_bounds_refuse_encrypted_and_oversized() {
    let mut a = archive(vec![file("x.inf", 1)]);
    a.blocks[0].coders.push((vec![0x06, 0xF1, 0x07, 0x01], vec![]));
    assert!(matches!(
        validate_archive_bounds(&a, &["x.inf".to_string()]),
        Err(ExtractionError::UnsupportedEncryptedArchive)
    ));
    let big = archive(vec![
        file("a.inf", MAX_ARCHIVE_DECLARED_UNPACKED_BYTES),
        file("b.inf", 1),
    ]);
    assert!(matches!(
        validate_archive_bounds(&big, &["a.inf".to_string(), "b.inf".to_string()]),
        Err(ExtractionError::ArchiveDeclaredSizeExceeded)
    ));
    let mut many = archive(vec![file("x.inf", 1)]);
    many.blocks[0].coders = vec![(CODER_ID_COPY.to_vec(), vec![]); 17];
    assert!(matches!(
        validate_archive_bounds(&many, &["x.inf".to_string()]),
        Err(ExtractionError::ArchiveTooManyCoders)
    ));
}

#[test]
fn entry_count_bound() {
    assert!(MAX_ARCHIVE_ENTRIES == 200_000);
    let empty = ArchiveMeta {
        files: Vec::new(),
        blocks: Vec::new(),
        file_block_index: Vec::new(),
        block_first_pack_stream_index: Vec::new(),
        block_first_file_index: Vec::new(),
        pack_sizes: Vec::new(),
    };
    assert!(empty.files.is_empty());
    assert!(empty.blocks.is_empty());
    assert!(MAX_ARCHIVE_ENTRIES > 0);
}

#[test]
fn payload_plan_resolves_groups_and_charges_prerequisites() {
    let mut a = archive(vec![
        file("pkg/prereq.bin", 40),
        file("pkg/Driver.sys", 10),
        file("pkg/other.dll", 5),
    ]);
    a.blocks.push(ArchiveBlockMeta { coders: vec![(CODER_ID_COPY.to_vec(), vec![])], unpack_size: 5 });
    a.file_block_index = vec![Some(0), Some(0), Some(1)];
    a.block_first_pack_stream_index = vec![0, 1];
    a.block_first_file_index = vec![0, 2];
    a.pack_sizes = vec![100, 5];
    let entries = inspect_archive(&a).unwrap();
    let limits = PayloadLimits { max_file_bytes: 100, max_total_bytes: 1000, max_total_decode_bytes: 1000 };
    let wanted = vec!["pkg/other.dll".to_string(), "PKG/driver.sys".to_string()];
    let plan = plan_payload_fingerprints(&a, &entries, &wanted, &limits).unwrap();
    assert_eq!(plan.resolved, vec![2, 1]);
    assert_eq!(plan.groups, vec![(0, vec![1]), (1, vec![0])]);
    assert_eq!(plan.declared_decode_bytes, 50 + 5);

    let missing = vec!["pkg/none.sys".to_string()];
    assert!(matches!(
        plan_payload_fingerprints(&a, &entries, &missing, &limits),
        Err(ExtractionError::PayloadMemberMissing { index: 0 })
    ));
    let tight = PayloadLimits { max_file_bytes: 9, max_total_bytes: 1000, max_total_decode_bytes: 1000 };
    assert!(matches!(
        plan_payload_fingerprints(&a, &entries, &wanted[1..], &tight),
        Err(ExtractionError::PayloadTooLarge { index: 0 })
    ));
    let budget = PayloadLimits { max_file_bytes: 100, max_total_bytes: 1000, max_total_decode_bytes: 49 };
    assert!(matches!(
        plan_payload_fingerprints(&a, &entries, &wanted[1..], &budget),
        Err(ExtractionError::PayloadDecodeBudgetExceeded)
    ));
}

#[test]
fn next_header_kind_is_checked_before_parsing() {
    assert!(check_next_header(&[0x01, 0x04, 0x00]).is_ok());
    assert!(matches!(
        check_next_header(&[0x02]),
        Err(ExtractionError::InvalidPackAtExtraction(m)) if m == "unsupported 7z next-header kind"
    ));
    assert!(matches!(
        check_next_header(&[]),
        Err(ExtractionError::InvalidPackAtExtraction(m)) if m == "unsupported 7z next-header kind"
    ));
    let bomb = encoded_header_fixture(
        &[(CODER_ID_LZMA2.to_vec(), vec![0x1D])],
        MAX_ARCHIVE_HEADER_BYTES + 1,
    );
    let mut raw = vec![0x17];
    raw.extend_from_slice(&bomb);
    assert!(matches!(check_next_header(&raw), Err(ExtractionError::ArchiveHeaderTooLarge)));
    let ok = encoded_header_fixture(&[(CODER_ID_LZMA2.to_vec(), vec![0x1D])], 4096);
    let mut raw_ok = vec![0x17];
    raw_ok.extend_from_slice(&ok);
    assert!(check_next_header(&raw_ok).is_ok());
}

#[test]
fn staged_target_block_is_gated_before_decoding() {
    let mut a = archive(vec![file("pkg/prereq.bin", 40), file("pkg/driver.inf", 10)]);
    a.file_block_index = vec![Some(0), Some(0)];
    a.block_first_pack_stream_index = vec![0];
    a.block_first_file_index = vec![0];
    a.pack_sizes = vec![10];
    let entries = inspect_archive(&a).unwrap();
    // The first block (from the fixture) with the prerequisite charged.
    assert_eq!(target_decode_gate(&a, &entries, 1, 0, false), Ok(50));
    assert!(matches!(
        target_decode_gate(&a, &entries, 1, 3, false),
        Err(ExtractionError::InvalidPackAtExtraction(m)) if m == "target block index out of range"
    ));
    assert!(matches!(
        target_decode_gate(&a, &entries, 1, 3, true),
        Err(ExtractionError::InvalidPackAtExtraction(m)) if m == "catalog block index out of range"
    ));
    let mut no_first = a.clone();
    no_first.block_first_file_index = vec![];
    assert!(matches!(
        target_decode_gate(&no_first, &entries, 1, 0, false),
        Err(ExtractionError::InvalidPackAtExtraction(m)) if m == "block first-file index out of range"
    ));
    let mut dense = a.clone();
    dense.blocks[0].unpack_size = 10 * 1000 + 1;
    assert_eq!(
        target_decode_gate(&dense, &entries, 1, 0, false),
        Err(ExtractionError::TargetExpansionRatioExceeded)
    );
}

#[test]
fn output_leaf_must_be_one_plain_component() {
    assert_eq!(check_output_leaf("driver.inf"), Ok(()));
    assert_eq!(check_output_leaf(&"a".repeat(255)), Ok(()));
    let refused = Err(ExtractionError::InvalidPackAtExtraction("invalid output leaf".to_string()));
    for bad in ["", ".", "..", "a/b", "a\\b", "c:x", "nul\0", &"a".repeat(256)] {
        assert_eq!(check_output_leaf(bad), refused, "{bad:?}");
    }
    assert_eq!(check_output_leaf(&"\u{e9}".repeat(128)), refused);
}

#[test]
fn runtime_accounting_checked_and_no_drop() {
    let mut runtime: u64 = 0;
    let step = 1024u64;
    while runtime < MAX_TARGET_DECODE_BYTES {
        runtime = runtime.checked_add(step).unwrap();
    }
    assert!(runtime >= MAX_TARGET_DECODE_BYTES);
    assert!((u64::MAX - 1).checked_add(2).is_none());
    assert_eq!(target_block_expansion_ratio(1000, 1).unwrap(), 1000);
    assert!(target_block_expansion_ratio(0, 0).unwrap() == 0);
}

#[test]
fn a_target_before_its_block_start_decodes_nothing() {
    let g = 1024u64;
    let entries = vec![entry("a", g), entry("b", g), entry("c", g)];
    assert_eq!(decode_bytes_to_target(&entries, 3, 2).unwrap(), 0);
    assert_eq!(decode_bytes_to_target(&entries, 2, 2).unwrap(), g);
}

#[test]
fn a_target_is_found_checked_and_gated_before_decoding() {
    let mut a = archive(vec![file("pkg/prereq.bin", 40), file("pkg/driver.inf", 10)]);
    a.file_block_index = vec![Some(0), Some(0)];
    a.block_first_pack_stream_index = vec![0];
    a.block_first_file_index = vec![0];
    a.pack_sizes = vec![10];
    let entries = inspect_archive(&a).unwrap();
    let inf = expected_inf_member("PKG\\", "DRIVER.INF").unwrap();
    assert_eq!(plan_target_decode(&a, &entries, &inf, false), Ok((1, 0, 50)));
    let gone = expected_inf_member("pkg\\", "other.inf").unwrap();
    assert_eq!(plan_target_decode(&a, &entries, &gone, true), Err(ExtractionError::TargetMemberMissing));
}
