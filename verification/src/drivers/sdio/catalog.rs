//! SDIO index catalog parser (offline only).
//!
//! Parses the SDW/0x205 binary index format produced by Snappy Driver
//! Installer Origin: a short container header, then an LZMA-alone stream whose
//! payload holds five record vectors (INF files, manufacturers, model rows,
//! hardware IDs, text pool) and a hashtable block that is structurally
//! validated but unused. Lookup is an exact match on the Unicode-uppercased
//! hardware ID, over a per-record key index built at parse time.
use vstd::prelude::*;
use crate::drivers::sdio::error::{CrossRefKind, RangeField, SdioError};
use crate::text::{blen, byte_len_exceeds, chars_of, concat2, owned, str_eq};

verus! {

/// On-disk magic identifying an SDW index container.
pub const MAGIC: [u8; 3] = [0x53, 0x44, 0x57];
/// Accepted (and only) format version.
pub const FORMAT_VERSION: u32 = 0x205;
/// `MAGIC` (3) + version (4) + flag (1).
pub const CONTAINER_PREFIX_LEN: usize = 8;
/// 1 (props) + 4 (dict size) + 8 (unpacked size) for the LZMA-alone header.
pub const LZMA_ALONE_HEADER_LEN: usize = 13;

pub const MAX_COMPRESSED_BYTES: usize = 67_108_864;
pub const MAX_UNCOMPRESSED_BYTES: usize = 536_870_912;
pub const MAX_INF_RECORDS: usize = 200_000;
pub const MAX_MANUF_RECORDS: usize = 50_000;
pub const MAX_DESC_RECORDS: usize = 1_500_000;
pub const MAX_HWID_RECORDS: usize = 1_500_000;
pub const MAX_TEXT_POOL_BYTES: usize = 134_217_728;
pub const MAX_STRING_LEN: usize = 4_096;
pub const MAX_PACK_FILENAME_LEN: usize = 256;
/// Cap on a manufacturer's section-name array, checked before allocating it.
pub const MAX_SECTIONS_PER_MANUF: usize = 4_096;

pub const ELEM_INF: usize = 132;
pub const ELEM_MANUF: usize = 16;
pub const ELEM_DESC: usize = 24;
pub const ELEM_HWID: usize = 12;
pub const ELEM_HASHITEM: usize = 16;

pub const FIELD_CLASS_GUID: usize = 0;
pub const FIELD_CLASS: usize = 1;
pub const FIELD_PROVIDER: usize = 2;
pub const FIELD_CATALOG_FILE: usize = 3;
pub const FIELD_CATALOG_FILE_NT: usize = 4;
pub const FIELD_CATALOG_FILE_NTX86: usize = 5;
pub const FIELD_CATALOG_FILE_NTIA64: usize = 6;
pub const FIELD_CATALOG_FILE_NTAMD64: usize = 7;
pub const FIELD_DRIVER_VER: usize = 8;
pub const FIELD_DRIVER_PACKAGE_DISPLAY_NAME: usize = 9;

// ---------------------------------------------------------------------------
// Records
// ---------------------------------------------------------------------------

/// One per INF file in the pack (132 bytes raw). `fields` and `cats` hold
/// ten optional strings each.
#[derive(Clone, Debug)]
pub struct DataInfFile {
    pub inf_path: String,
    pub inf_filename: String,
    pub fields: Vec<Option<String>>,
    pub cats: Vec<Option<String>>,
    pub date: Option<(u16, u8, u8)>,
    pub version: Option<(u16, u16, u16, u16)>,
    pub infsize: Option<u32>,
    pub infcrc: Option<u32>,
    pub reserved_a: i32,
    pub reserved_b: i32,
}

/// One per `[Manufacturer]` group (16 bytes raw).
#[derive(Clone, Debug)]
pub struct DataManuf {
    pub inffile_index: u32,
    pub manufacturer: String,
    pub sections: Vec<String>,
    pub sections_n: u32,
}

/// One per installable model row (24 bytes raw).
#[derive(Clone, Debug)]
pub struct DataDesc {
    pub manufacturer_index: u32,
    pub sect_pos: i32,
    pub desc: String,
    pub install: String,
    pub install_picked: String,
    pub feature: u32,
}

/// One per (ID string, model row) pairing (12 bytes raw).
#[derive(Clone, Debug)]
pub struct DataHwid {
    pub desc_index: u32,
    pub inf_pos: i32,
    pub hwid: String,
}

/// Resolved driver version (major.minor.build.private).
pub type CandidateVersion = (u16, u16, u16, u16);

/// A candidate surfaced to later slices. `inf_pos` is SDIO metadata (0 for
/// hardware-ID rows, >0 for compatible-ID rows), never a Windows rank.
/// `sect_pos` and `models_section` carry the Models-section provenance of the
/// model row: the manufacturer's section name at position `sect_pos`.
#[derive(Clone, Debug, PartialEq, Eq)]
pub struct Candidate {
    pub inf_path: String,
    pub inf_filename: String,
    pub provider: Option<String>,
    pub class: Option<String>,
    pub class_guid: Option<String>,
    pub catalog_file: Option<String>,
    pub version: Option<CandidateVersion>,
    pub date: Option<(u16, u8, u8)>,
    pub install_section: String,
    pub picked_section: String,
    pub sect_pos: i32,
    pub models_section: Option<String>,
    pub inf_pos: i32,
}

/// A parsed SDIO index catalog for a single pack.
pub struct SdioCatalog {
    pub pack_name: String,
    pub inf_records: Vec<DataInfFile>,
    pub manuf_records: Vec<DataManuf>,
    pub desc_records: Vec<DataDesc>,
    pub hwid_records: Vec<DataHwid>,
    /// The raw text arena (NUL-separated strings + embedded int32 arrays).
    pub text_pool: Vec<u8>,
    /// Lookup key of each hardware-ID record: its uppercased ID.
    pub hwid_keys: Vec<String>,
}

// ---------------------------------------------------------------------------
// Outside behaviour the parser relies on
// ---------------------------------------------------------------------------

/// Unicode full uppercase mapping of a string, as `str::to_uppercase` computes
/// it (fixed Unicode tables, independent of locale).
pub uninterp spec fn unicode_upper(s: Seq<char>) -> Seq<char>;

/// `str::to_uppercase`: its result is the Unicode uppercase mapping of `s`.
#[verifier::external_body]
fn to_upper(s: &str) -> (r: String)
    ensures
        r@ == unicode_upper(s@),
{
    s.to_uppercase()
}

/// `std::str::from_utf8`: `Some` exactly for valid UTF-8, holding the decoded
/// characters (as its documentation states).
#[verifier::external_body]
fn utf8_string(b: &[u8]) -> (r: Option<String>)
    ensures
        r is Some <==> vstd::utf8::valid_utf8(b@),
        r matches Some(s) ==> s@ == vstd::utf8::decode_utf8(b@),
{
    match std::str::from_utf8(b) {
        Ok(s) => Some(s.to_string()),
        Err(_) => None,
    }
}

// ---------------------------------------------------------------------------
// Little-endian readers
// ---------------------------------------------------------------------------

pub open spec fn le32(b: Seq<u8>, off: int) -> u32 {
    (b[off] as int + b[off + 1] as int * 256 + b[off + 2] as int * 65536 + b[off + 3] as int
        * 16777216) as u32
}

pub open spec fn as_i32(u: u32) -> i32 {
    if u < 0x8000_0000 {
        u as i32
    } else {
        (u - 0x1_0000_0000) as i32
    }
}

/// `r32` at `off`: the LE word, or `BadBlockHeader(off)` when truncated.
pub open spec fn rd32(b: Seq<u8>, off: int) -> Result<u32, SdioError> {
    if off + 4 <= b.len() {
        Ok(le32(b, off))
    } else {
        Err(SdioError::BadBlockHeader(off as usize))
    }
}

/// Read a little-endian `u32` guarded against truncation.
pub fn r32(buf: &[u8], off: usize) -> (r: Result<u32, SdioError>)
    ensures
        r == rd32(buf@, off as int),
{
    if off > buf.len() || buf.len() - off < 4 {
        return Err(SdioError::BadBlockHeader(off));
    }
    let v = buf[off] as u32 + buf[off + 1] as u32 * 256 + buf[off + 2] as u32 * 65536 + buf[off
        + 3] as u32 * 16777216;
    Ok(v)
}

fn le32_at(buf: &[u8], off: usize) -> (r: u32)
    requires
        off + 4 <= buf@.len(),
    ensures
        r == le32(buf@, off as int),
{
    buf[off] as u32 + buf[off + 1] as u32 * 256 + buf[off + 2] as u32 * 65536 + buf[off + 3] as u32
        * 16777216
}

fn to_i32(u: u32) -> (r: i32)
    ensures
        r == as_i32(u),
{
    if u < 0x8000_0000 {
        u as i32
    } else {
        ((u - 0x8000_0000) as i32) - 0x7FFF_FFFF - 1
    }
}

/// Read a little-endian `i32` guarded against truncation.
pub fn ri32(buf: &[u8], off: usize) -> (r: Result<i32, SdioError>)
    ensures
        match rd32(buf@, off as int) {
            Ok(u) => r == Ok::<i32, SdioError>(as_i32(u)),
            Err(e) => r == Err::<i32, SdioError>(e),
        },
{
    match r32(buf, off) {
        Ok(u) => Ok(to_i32(u)),
        Err(e) => Err(e),
    }
}

// ---------------------------------------------------------------------------
// Text pool
// ---------------------------------------------------------------------------

/// Index of the first NUL at or after `base`, if any.
pub open spec fn nul_at(pool: Seq<u8>, base: int, end: int) -> bool {
    base <= end < pool.len() && pool[end] == 0 && forall|k: int| base <= k < end ==> pool[k] != 0
}

/// The string at pool offset `off` (`None` for offset 0), or the refusal.
pub open spec fn pool_spec(pool: Seq<u8>, off: u32) -> Result<Option<Seq<char>>, SdioError> {
    if off == 0 {
        Ok(None)
    } else if off >= pool.len() {
        Err(SdioError::PoolOffsetOutOfRange { offset: off, pool: pool.len() as u32 })
    } else if !(exists|end: int| nul_at(pool, off as int, end)) {
        Err(SdioError::UnterminatedString(off))
    } else {
        let end = choose|end: int| nul_at(pool, off as int, end);
        if end - off > MAX_STRING_LEN {
            Err(SdioError::StringTooLong(off, MAX_STRING_LEN))
        } else if !vstd::utf8::valid_utf8(pool.subrange(off as int, end)) {
            Err(SdioError::BadBlockHeader(off as usize))
        } else {
            Ok(Some(vstd::utf8::decode_utf8(pool.subrange(off as int, end))))
        }
    }
}

pub open spec fn opt_view(o: Option<String>) -> Option<Seq<char>> {
    match o {
        Some(s) => Some(s@),
        None => None,
    }
}

/// A NUL-terminated string at `off` within the text `pool`; `off == 0` is `None`.
pub fn pool_str(pool: &[u8], off: u32) -> (r: Result<Option<String>, SdioError>)
    ensures
        match pool_spec(pool@, off) {
            Ok(v) => r matches Ok(o) && opt_view(o) == v,
            Err(e) => r == Err::<Option<String>, SdioError>(e),
        },
{
    if off == 0 {
        return Ok(None);
    }
    let base = off as usize;
    if base >= pool.len() {
        return Err(SdioError::PoolOffsetOutOfRange { offset: off, pool: pool.len() as u32 });
    }
    let mut end = base;
    while end < pool.len() && pool[end] != 0
        invariant
            base <= end <= pool@.len(),
            forall|k: int| base <= k < end ==> pool@[k] != 0,
        decreases pool.len() - end,
    {
        end = end + 1;
    }
    if end == pool.len() {
        proof {
            assert forall|e: int| !nul_at(pool@, base as int, e) by {
                if nul_at(pool@, base as int, e) && e < end {
                    assert(pool@[e] != 0);
                }
            }
        }
        return Err(SdioError::UnterminatedString(off));
    }
    proof {
        assert(nul_at(pool@, base as int, end as int));
        let c = choose|e: int| nul_at(pool@, base as int, e);
        if c < end {
            assert(pool@[c] != 0);
        }
        if c > end {
            assert(pool@[end as int] != 0);
        }
    }
    if end - base > MAX_STRING_LEN {
        return Err(SdioError::StringTooLong(off, MAX_STRING_LEN));
    }
    let bytes = slice_bytes(pool, base, end);
    match utf8_string(bytes.as_slice()) {
        None => Err(SdioError::BadBlockHeader(base)),
        Some(s) => Ok(Some(s)),
    }
}

/// Bytes `v[a..b]` as a fresh vector.
pub fn slice_bytes(v: &[u8], a: usize, b: usize) -> (r: Vec<u8>)
    requires
        a <= b <= v@.len(),
    ensures
        r@ == v@.subrange(a as int, b as int),
{
    let mut r: Vec<u8> = Vec::new();
    let mut i = a;
    while i < b
        invariant
            a <= i <= b,
            b <= v@.len(),
            r@ == v@.subrange(a as int, i as int),
        decreases b - i,
    {
        r.push(v[i]);
        i = i + 1;
    }
    r
}

// ---------------------------------------------------------------------------
// Record views and decoders
// ---------------------------------------------------------------------------

/// The text of an optional pool string (`""` when absent).
pub open spec fn opt_text(o: Option<Seq<char>>) -> Seq<char> {
    match o {
        Some(t) => t,
        None => Seq::empty(),
    }
}

pub open spec fn opt_views(v: Seq<Option<String>>) -> Seq<Option<Seq<char>>> {
    v.map_values(|o: Option<String>| opt_view(o))
}

pub open spec fn str_views(v: Seq<String>) -> Seq<Seq<char>> {
    v.map_values(|s: String| s@)
}

/// The pool strings at `offs`, in order; the first refusal wins.
pub open spec fn pool_seq(pool: Seq<u8>, offs: Seq<u32>) -> Result<Seq<Option<Seq<char>>>, SdioError>
    decreases offs.len(),
{
    if offs.len() == 0 {
        Ok(Seq::empty())
    } else {
        match pool_seq(pool, offs.drop_last()) {
            Err(e) => Err(e),
            Ok(v) => match pool_spec(pool, offs.last()) {
                Err(e) => Err(e),
                Ok(x) => Ok(v.push(x)),
            },
        }
    }
}

proof fn lemma_pool_seq_err(pool: Seq<u8>, offs: Seq<u32>, k: int)
    requires
        0 <= k <= offs.len(),
        pool_seq(pool, offs.take(k)) is Err,
    ensures
        pool_seq(pool, offs) == pool_seq(pool, offs.take(k)),
    decreases offs.len() - k,
{
    if k < offs.len() {
        assert(offs.drop_last().take(k) =~= offs.take(k));
        lemma_pool_seq_err(pool, offs.drop_last(), k);
        if k == offs.len() - 1 {
            assert(offs.drop_last() =~= offs.take(k));
        }
    } else {
        assert(offs.take(k) =~= offs);
    }
}

/// The pool strings at `offs`, in order.
pub fn pool_list(pool: &[u8], offs: &[u32]) -> (r: Result<Vec<Option<String>>, SdioError>)
    ensures
        match pool_seq(pool@, offs@) {
            Ok(v) => r matches Ok(x) && opt_views(x@) == v,
            Err(e) => r == Err::<Vec<Option<String>>, SdioError>(e),
        },
        r matches Ok(x) ==> x@.len() == offs@.len(),
{
    let mut out: Vec<Option<String>> = Vec::new();
    let mut k: usize = 0;
    proof {
        assert(offs@.take(0) =~= Seq::<u32>::empty());
        assert(opt_views(out@) =~= Seq::<Option<Seq<char>>>::empty());
    }
    while k < offs.len()
        invariant
            k <= offs@.len(),
            out@.len() == k,
            pool_seq(pool@, offs@.take(k as int)) == Ok::<Seq<Option<Seq<char>>>, SdioError>(
                opt_views(out@),
            ),
        decreases offs.len() - k,
    {
        proof {
            assert(offs@.take(k + 1).drop_last() =~= offs@.take(k as int));
        }
        match pool_str(pool, offs[k]) {
            Err(e) => {
                proof {
                    lemma_pool_seq_err(pool@, offs@, k + 1);
                }
                return Err(e);
            },
            Ok(o) => {
                let ghost prev = out@;
                out.push(o);
                proof {
                    assert(opt_views(out@) =~= opt_views(prev).push(opt_view(o)));
                }
            },
        }
        k = k + 1;
    }
    proof {
        assert(offs@.take(k as int) =~= offs@);
    }
    Ok(out)
}

/// Decoded view of an INF record.
pub struct InfView {
    pub inf_path: Seq<char>,
    pub inf_filename: Seq<char>,
    pub fields: Seq<Option<Seq<char>>>,
    pub cats: Seq<Option<Seq<char>>>,
    pub date: Option<(u16, u8, u8)>,
    pub version: Option<(u16, u16, u16, u16)>,
    pub infsize: Option<u32>,
    pub infcrc: Option<u32>,
    pub reserved_a: i32,
    pub reserved_b: i32,
}

impl View for DataInfFile {
    type V = InfView;

    open spec fn view(&self) -> InfView {
        InfView {
            inf_path: self.inf_path@,
            inf_filename: self.inf_filename@,
            fields: opt_views(self.fields@),
            cats: opt_views(self.cats@),
            date: self.date,
            version: self.version,
            infsize: self.infsize,
            infcrc: self.infcrc,
            reserved_a: self.reserved_a,
            reserved_b: self.reserved_b,
        }
    }
}

pub struct ManufView {
    pub inffile_index: u32,
    pub manufacturer: Seq<char>,
    pub sections: Seq<Seq<char>>,
    pub sections_n: u32,
}

impl View for DataManuf {
    type V = ManufView;

    open spec fn view(&self) -> ManufView {
        ManufView {
            inffile_index: self.inffile_index,
            manufacturer: self.manufacturer@,
            sections: str_views(self.sections@),
            sections_n: self.sections_n,
        }
    }
}

pub struct DescView {
    pub manufacturer_index: u32,
    pub sect_pos: i32,
    pub desc: Seq<char>,
    pub install: Seq<char>,
    pub install_picked: Seq<char>,
    pub feature: u32,
}

impl View for DataDesc {
    type V = DescView;

    open spec fn view(&self) -> DescView {
        DescView {
            manufacturer_index: self.manufacturer_index,
            sect_pos: self.sect_pos,
            desc: self.desc@,
            install: self.install@,
            install_picked: self.install_picked@,
            feature: self.feature,
        }
    }
}

pub struct HwidView {
    pub desc_index: u32,
    pub inf_pos: i32,
    pub hwid: Seq<char>,
}

impl View for DataHwid {
    type V = HwidView;

    open spec fn view(&self) -> HwidView {
        HwidView { desc_index: self.desc_index, inf_pos: self.inf_pos, hwid: self.hwid@ }
    }
}

/// A 12-byte hardware-ID record.
pub open spec fn hwid_record(rec: Seq<u8>, pool: Seq<u8>) -> Result<HwidView, SdioError> {
    match pool_spec(pool, le32(rec, 8)) {
        Err(e) => Err(e),
        Ok(h) => Ok(
            HwidView { desc_index: le32(rec, 0), inf_pos: as_i32(le32(rec, 4)), hwid: opt_text(h) },
        ),
    }
}

/// A 24-byte model-row record.
pub open spec fn desc_record(rec: Seq<u8>, pool: Seq<u8>) -> Result<DescView, SdioError> {
    match pool_seq(pool, seq![le32(rec, 8), le32(rec, 12), le32(rec, 16)]) {
        Err(e) => Err(e),
        Ok(t) => Ok(
            DescView {
                manufacturer_index: le32(rec, 0),
                sect_pos: as_i32(le32(rec, 4)),
                desc: opt_text(t[0]),
                install: opt_text(t[1]),
                install_picked: opt_text(t[2]),
                feature: le32(rec, 20),
            },
        ),
    }
}

/// The pool offsets of a manufacturer's `n` section names at `off`.
pub open spec fn section_offsets(pool: Seq<u8>, off: int, n: nat) -> Seq<u32> {
    Seq::new(n, |j: int| le32(pool, off + 4 * j))
}

/// A 16-byte manufacturer record (`o` is its payload offset, for errors).
pub open spec fn manuf_record(rec: Seq<u8>, pool: Seq<u8>, o: usize) -> Result<ManufView, SdioError> {
    match pool_spec(pool, le32(rec, 4)) {
        Err(e) => Err(e),
        Ok(m) => {
            let off = le32(rec, 8) as int;
            let n = as_i32(le32(rec, 12));
            if n < 0 {
                Err(SdioError::ReservedFieldInvalid)
            } else if n > MAX_SECTIONS_PER_MANUF {
                Err(
                    SdioError::RecordCountExceeded {
                        block: 1,
                        count: n as u64,
                        bound: MAX_SECTIONS_PER_MANUF as u64,
                    },
                )
            } else if off + 4 * n > pool.len() {
                Err(SdioError::BadBlockHeader(o))
            } else {
                match pool_seq(pool, section_offsets(pool, off, n as nat)) {
                    Err(e) => Err(e),
                    Ok(secs) => Ok(
                        ManufView {
                            inffile_index: le32(rec, 0),
                            manufacturer: opt_text(m),
                            sections: secs.map_values(|x: Option<Seq<char>>| opt_text(x)),
                            sections_n: n as u32,
                        },
                    ),
                }
            }
        },
    }
}

pub open spec fn in_range(v: i32, lo: int, hi: int) -> bool {
    lo <= v <= hi
}

/// A 132-byte INF record: 22 pool strings (path, filename, 10 fields, 10
/// catalogs), then integers; unrepresentable values are refused, never
/// truncated. An all-zero date is absent; a zero version is absent.
pub open spec fn inf_record(rec: Seq<u8>, pool: Seq<u8>) -> Result<InfView, SdioError> {
    match pool_seq(pool, Seq::new(22, |k: int| le32(rec, 4 * k))) {
        Err(e) => Err(e),
        Ok(t) => {
            let w = |k: int| as_i32(le32(rec, k));
            let day = w(96);
            let month = w(100);
            let year = w(104);
            let infsize = w(124);
            if infsize < 0 {
                Err(SdioError::OutOfRange { field: RangeField::InfSize, value: infsize as i64 })
            } else if !in_range(w(108), 0, 65535) {
                Err(SdioError::OutOfRange { field: RangeField::VerV1, value: w(108) as i64 })
            } else if !in_range(w(112), 0, 65535) {
                Err(SdioError::OutOfRange { field: RangeField::VerV2, value: w(112) as i64 })
            } else if !in_range(w(116), 0, 65535) {
                Err(SdioError::OutOfRange { field: RangeField::VerV3, value: w(116) as i64 })
            } else if !in_range(w(120), 0, 65535) {
                Err(SdioError::OutOfRange { field: RangeField::VerV4, value: w(120) as i64 })
            } else if !(year == 0 && month == 0 && day == 0) && (!in_range(year, 1, 65535)
                || !in_range(month, 1, 12) || !in_range(day, 1, 31)) {
                Err(SdioError::OutOfRange { field: RangeField::DriverDate, value: year as i64 })
            } else {
                Ok(
                    InfView {
                        inf_path: opt_text(t[0]),
                        inf_filename: opt_text(t[1]),
                        fields: t.subrange(2, 12),
                        cats: t.subrange(12, 22),
                        date: if year == 0 && month == 0 && day == 0 {
                            None
                        } else {
                            Some((year as u16, month as u8, day as u8))
                        },
                        version: if w(108) == 0 && w(112) == 0 && w(116) == 0 && w(120) == 0 {
                            None
                        } else {
                            Some((w(108) as u16, w(112) as u16, w(116) as u16, w(120) as u16))
                        },
                        infsize: Some(infsize as u32),
                        infcrc: Some(le32(rec, 128)),
                        reserved_a: w(88),
                        reserved_b: w(92),
                    },
                )
            }
        },
    }
}

fn text_or_empty(o: &Option<String>) -> (r: String)
    ensures
        r@ == opt_text(opt_view(*o)),
{
    match o {
        Some(s) => s.clone(),
        None => String::new(),
    }
}

pub fn decode_hwid(rec: &[u8], pool: &[u8]) -> (r: Result<DataHwid, SdioError>)
    requires
        rec@.len() == ELEM_HWID,
    ensures
        match hwid_record(rec@, pool@) {
            Ok(v) => r matches Ok(h) && h@ == v,
            Err(e) => r == Err::<DataHwid, SdioError>(e),
        },
{
    let desc_index = le32_at(rec, 0);
    let inf_pos = to_i32(le32_at(rec, 4));
    match pool_str(pool, le32_at(rec, 8)) {
        Err(e) => Err(e),
        Ok(h) => Ok(DataHwid { desc_index, inf_pos, hwid: text_or_empty(&h) }),
    }
}

pub fn decode_desc(rec: &[u8], pool: &[u8]) -> (r: Result<DataDesc, SdioError>)
    requires
        rec@.len() == ELEM_DESC,
    ensures
        match desc_record(rec@, pool@) {
            Ok(v) => r matches Ok(d) && d@ == v,
            Err(e) => r == Err::<DataDesc, SdioError>(e),
        },
{
    let offs = vec![le32_at(rec, 8), le32_at(rec, 12), le32_at(rec, 16)];
    proof {
        assert(offs@ =~= seq![le32(rec@, 8), le32(rec@, 12), le32(rec@, 16)]);
    }
    match pool_list(pool, offs.as_slice()) {
        Err(e) => Err(e),
        Ok(t) => {
            proof {
                reveal_with_fuel(pool_seq, 4);
            }
            assert(t@.len() == 3);
            Ok(
                DataDesc {
                    manufacturer_index: le32_at(rec, 0),
                    sect_pos: to_i32(le32_at(rec, 4)),
                    desc: text_or_empty(&t[0]),
                    install: text_or_empty(&t[1]),
                    install_picked: text_or_empty(&t[2]),
                    feature: le32_at(rec, 20),
                },
            )
        },
    }
}

pub fn decode_manuf(rec: &[u8], pool: &[u8], o: usize) -> (r: Result<DataManuf, SdioError>)
    requires
        rec@.len() == ELEM_MANUF,
    ensures
        match manuf_record(rec@, pool@, o) {
            Ok(v) => r matches Ok(m) && m@ == v,
            Err(e) => r == Err::<DataManuf, SdioError>(e),
        },
{
    let inffile_index = le32_at(rec, 0);
    let manufacturer = match pool_str(pool, le32_at(rec, 4)) {
        Err(e) => {
            return Err(e);
        },
        Ok(m) => text_or_empty(&m),
    };
    let sections_off = le32_at(rec, 8) as usize;
    let n_raw = to_i32(le32_at(rec, 12));
    if n_raw < 0 {
        return Err(SdioError::ReservedFieldInvalid);
    }
    let n = n_raw as usize;
    if n > MAX_SECTIONS_PER_MANUF {
        return Err(
            SdioError::RecordCountExceeded {
                block: 1,
                count: n as u64,
                bound: MAX_SECTIONS_PER_MANUF as u64,
            },
        );
    }
    proof {
        assert(pool@.len() == pool.len());
    }
    if sections_off > pool.len() || 4 * n > pool.len() - sections_off {
        return Err(SdioError::BadBlockHeader(o));
    }
    let mut offs: Vec<u32> = Vec::new();
    let mut j: usize = 0;
    while j < n
        invariant
            j <= n,
            sections_off + 4 * n <= pool.len(),
            offs@ == section_offsets(pool@, sections_off as int, n as nat).take(j as int),
        decreases n - j,
    {
        let v = le32_at(pool, sections_off + 4 * j);
        offs.push(v);
        proof {
            assert(offs@ =~= section_offsets(pool@, sections_off as int, n as nat).take(j + 1));
        }
        j = j + 1;
    }
    proof {
        assert(offs@ =~= section_offsets(pool@, sections_off as int, n as nat));
    }
    let names = match pool_list(pool, offs.as_slice()) {
        Err(e) => {
            return Err(e);
        },
        Ok(t) => t,
    };
    let mut sections: Vec<String> = Vec::new();
    let mut k: usize = 0;
    while k < names.len()
        invariant
            k <= names@.len(),
            sections@.len() == k,
            forall|j: int| 0 <= j < k ==> (#[trigger] sections@[j])@ == opt_text(opt_view(names@[j])),
        decreases names.len() - k,
    {
        let t = text_or_empty(&names[k]);
        sections.push(t);
        k = k + 1;
    }
    proof {
        assert(str_views(sections@) =~= opt_views(names@).map_values(
            |x: Option<Seq<char>>| opt_text(x),
        ));
    }
    Ok(DataManuf { inffile_index, manufacturer, sections, sections_n: n as u32 })
}

fn range_ok(v: i32, lo: i32, hi: i32) -> (r: bool)
    ensures
        r == in_range(v, lo as int, hi as int),
{
    lo <= v && v <= hi
}

fn opt_slice(t: &Vec<Option<String>>, a: usize, b: usize) -> (r: Vec<Option<String>>)
    requires
        a <= b <= t@.len(),
    ensures
        opt_views(r@) == opt_views(t@).subrange(a as int, b as int),
{
    let mut r: Vec<Option<String>> = Vec::new();
    let mut i = a;
    while i < b
        invariant
            a <= i <= b <= t@.len(),
            r@.len() == i - a,
            forall|j: int| 0 <= j < i - a ==> #[trigger] r@[j] == t@[a + j],
        decreases b - i,
    {
        r.push(clone_opt(&t[i]));
        i = i + 1;
    }
    proof {
        assert(opt_views(r@) =~= opt_views(t@).subrange(a as int, b as int));
    }
    r
}

#[verifier::rlimit(30)]
pub fn decode_inf(rec: &[u8], pool: &[u8]) -> (r: Result<DataInfFile, SdioError>)
    requires
        rec@.len() == ELEM_INF,
    ensures
        match inf_record(rec@, pool@) {
            Ok(v) => r matches Ok(f) && f@ == v,
            Err(e) => r == Err::<DataInfFile, SdioError>(e),
        },
{
    let mut offs: Vec<u32> = Vec::new();
    let mut k: usize = 0;
    while k < 22
        invariant
            k <= 22,
            rec@.len() == ELEM_INF,
            offs@ == Seq::new(22, |j: int| le32(rec@, 4 * j)).take(k as int),
        decreases 22 - k,
    {
        offs.push(le32_at(rec, 4 * k));
        proof {
            assert(offs@ =~= Seq::new(22, |j: int| le32(rec@, 4 * j)).take(k + 1));
        }
        k = k + 1;
    }
    proof {
        assert(offs@ =~= Seq::new(22, |j: int| le32(rec@, 4 * j)));
    }
    let t = match pool_list(pool, offs.as_slice()) {
        Err(e) => {
            return Err(e);
        },
        Ok(t) => t,
    };
    let reserved_a = to_i32(le32_at(rec, 88));
    let reserved_b = to_i32(le32_at(rec, 92));
    let day = to_i32(le32_at(rec, 96));
    let month = to_i32(le32_at(rec, 100));
    let year = to_i32(le32_at(rec, 104));
    let v1 = to_i32(le32_at(rec, 108));
    let v2 = to_i32(le32_at(rec, 112));
    let v3 = to_i32(le32_at(rec, 116));
    let v4 = to_i32(le32_at(rec, 120));
    let infsize = to_i32(le32_at(rec, 124));
    let infcrc = le32_at(rec, 128);
    if infsize < 0 {
        return Err(SdioError::OutOfRange { field: RangeField::InfSize, value: infsize as i64 });
    }
    if !range_ok(v1, 0, 65535) {
        return Err(SdioError::OutOfRange { field: RangeField::VerV1, value: v1 as i64 });
    }
    if !range_ok(v2, 0, 65535) {
        return Err(SdioError::OutOfRange { field: RangeField::VerV2, value: v2 as i64 });
    }
    if !range_ok(v3, 0, 65535) {
        return Err(SdioError::OutOfRange { field: RangeField::VerV3, value: v3 as i64 });
    }
    if !range_ok(v4, 0, 65535) {
        return Err(SdioError::OutOfRange { field: RangeField::VerV4, value: v4 as i64 });
    }
    let no_date = year == 0 && month == 0 && day == 0;
    if !no_date && (!range_ok(year, 1, 65535) || !range_ok(month, 1, 12) || !range_ok(day, 1, 31)) {
        return Err(SdioError::OutOfRange { field: RangeField::DriverDate, value: year as i64 });
    }
    let date = if no_date {
        None
    } else {
        Some((year as u16, month as u8, day as u8))
    };
    let version = if v1 == 0 && v2 == 0 && v3 == 0 && v4 == 0 {
        None
    } else {
        Some((v1 as u16, v2 as u16, v3 as u16, v4 as u16))
    };
    let inf_path = text_or_empty(&t[0]);
    let inf_filename = text_or_empty(&t[1]);
    let fields = opt_slice(&t, 2, 12);
    let cats = opt_slice(&t, 12, 22);
    let f = DataInfFile {
        inf_path,
        inf_filename,
        fields,
        cats,
        date,
        version,
        infsize: Some(infsize as u32),
        infcrc: Some(infcrc),
        reserved_a,
        reserved_b,
    };
    proof {
        assert(f@.fields =~= opt_views(t@).subrange(2, 12));
        assert(f@.cats =~= opt_views(t@).subrange(12, 22));
    }
    Ok(f)
}

// ---------------------------------------------------------------------------
// Payload structure
// ---------------------------------------------------------------------------

/// A vector block header `[byte_count:u32][count:u32]` at `p`: the data
/// start, the record count and the position after the block.
pub open spec fn vector_header(b: Seq<u8>, p: int, elem: nat, max: nat, block: usize) -> Result<
    (int, nat, int),
    SdioError,
> {
    match rd32(b, p) {
        Err(e) => Err(e),
        Ok(bc) => match rd32(b, p + 4) {
            Err(e) => Err(e),
            Ok(cnt) => if cnt * elem > usize::MAX || cnt * elem != bc {
                Err(
                    SdioError::BlockSizeMismatch {
                        block,
                        count: cnt as u64,
                        elem_size: elem as usize,
                        byte_count: bc as u64,
                    },
                )
            } else if cnt > max {
                Err(SdioError::RecordCountExceeded { block, count: cnt as u64, bound: max as u64 })
            } else if p + 8 + bc > b.len() {
                Err(SdioError::BadBlockHeader(p as usize))
            } else {
                Ok((p + 8, cnt as nat, p + 8 + bc))
            },
        },
    }
}

/// Read a vector block header at `*p` and advance `*p` past the block.
pub fn read_vector_header(payload: &[u8], p: &mut usize, elem_size: usize, max_count: usize, block: usize) -> (r:
    Result<(usize, usize), SdioError>)
    requires
        *old(p) <= payload@.len(),
    ensures
        match vector_header(payload@, *old(p) as int, elem_size as nat, max_count as nat, block) {
            Err(e) => r == Err::<(usize, usize), SdioError>(e),
            Ok((ds, cnt, end)) => r == Ok::<(usize, usize), SdioError>((ds as usize, cnt as usize))
                && *final(p) as int == end && ds + cnt * elem_size <= payload@.len() && end
                <= payload@.len(),
        },
{
    proof {
        assert(payload@.len() == payload.len());
    }
    let byte_count = match r32(payload, *p) {
        Err(e) => {
            return Err(e);
        },
        Ok(v) => v as usize,
    };
    let count = match r32(payload, *p + 4) {
        Err(e) => {
            return Err(e);
        },
        Ok(v) => v as usize,
    };
    let mismatch = SdioError::BlockSizeMismatch {
        block,
        count: count as u64,
        elem_size,
        byte_count: byte_count as u64,
    };
    let expected = match count.checked_mul(elem_size) {
        None => {
            return Err(mismatch);
        },
        Some(x) => x,
    };
    if expected != byte_count {
        return Err(mismatch);
    }
    if count > max_count {
        return Err(
            SdioError::RecordCountExceeded {
                block,
                count: count as u64,
                bound: max_count as u64,
            },
        );
    }
    let data_start = *p + 8;
    if byte_count > payload.len() - data_start {
        return Err(SdioError::BadBlockHeader(*p));
    }
    *p = data_start + byte_count;
    Ok((data_start, count))
}

/// The hashtable block header `[capacity][used][count]` at `p`; yields the
/// position after the block (entries are validated for size, not used).
pub open spec fn hashtable_end(b: Seq<u8>, p: int) -> Result<int, SdioError> {
    match rd32(b, p) {
        Err(e) => Err(e),
        Ok(cap) => match rd32(b, p + 4) {
            Err(e) => Err(e),
            Ok(used) => match rd32(b, p + 8) {
                Err(e) => Err(e),
                Ok(cnt) => if cnt * ELEM_HASHITEM > usize::MAX || cnt * ELEM_HASHITEM != used {
                    Err(
                        SdioError::BlockSizeMismatch {
                            block: 5,
                            count: cnt as u64,
                            elem_size: ELEM_HASHITEM,
                            byte_count: used as u64,
                        },
                    )
                } else if p + 12 + used > usize::MAX {
                    Err(SdioError::BadBlockHeader(p as usize))
                } else if cap == 0 && cnt != 0 {
                    Err(SdioError::BadBlockHeader((p + 12 + used) as usize))
                } else {
                    Ok(p + 12 + used)
                },
            },
        },
    }
}

/// Read the hashtable header at `p` (no advance): capacity, used, count.
pub fn read_hashtable_header(payload: &[u8], p: usize) -> (r: Result<(u32, u32, u32), SdioError>)
    ensures
        match rd32(payload@, p as int) {
            Err(e) => r == Err::<(u32, u32, u32), SdioError>(e),
            Ok(cap) => match rd32(payload@, p + 4) {
                Err(e) => r == Err::<(u32, u32, u32), SdioError>(e),
                Ok(used) => match rd32(payload@, p + 8) {
                    Err(e) => r == Err::<(u32, u32, u32), SdioError>(e),
                    Ok(cnt) => if cnt * ELEM_HASHITEM > usize::MAX || cnt * ELEM_HASHITEM
                        != used {
                        r == Err::<(u32, u32, u32), SdioError>(
                            SdioError::BlockSizeMismatch {
                                block: 5,
                                count: cnt as u64,
                                elem_size: ELEM_HASHITEM,
                                byte_count: used as u64,
                            },
                        )
                    } else {
                        r == Ok::<(u32, u32, u32), SdioError>((cap, used, cnt))
                    },
                },
            },
        },
{
    proof {
        assert(payload@.len() == payload.len());
    }
    let cap = match r32(payload, p) {
        Err(e) => {
            return Err(e);
        },
        Ok(v) => v,
    };
    if p > usize::MAX - 8 {
        return Err(SdioError::BadBlockHeader(p + 4));
    }
    let used = match r32(payload, p + 4) {
        Err(e) => {
            return Err(e);
        },
        Ok(v) => v,
    };
    let count = match r32(payload, p + 8) {
        Err(e) => {
            return Err(e);
        },
        Ok(v) => v,
    };
    let mismatch = SdioError::BlockSizeMismatch {
        block: 5,
        count: count as u64,
        elem_size: ELEM_HASHITEM,
        byte_count: used as u64,
    };
    match (count as usize).checked_mul(ELEM_HASHITEM) {
        None => Err(mismatch),
        Some(x) => if x != used as usize {
            Err(mismatch)
        } else {
            Ok((cap, used, count))
        },
    }
}

/// Records `0..n`, decoded in order; the first refusal wins.
pub open spec fn records<T>(n: nat, f: spec_fn(int) -> Result<T, SdioError>) -> Result<
    Seq<T>,
    SdioError,
>
    decreases n,
{
    if n == 0 {
        Ok(Seq::empty())
    } else {
        match records((n - 1) as nat, f) {
            Err(e) => Err(e),
            Ok(v) => match f(n - 1) {
                Err(e) => Err(e),
                Ok(x) => Ok(v.push(x)),
            },
        }
    }
}

proof fn lemma_records_err<T>(k: nat, n: nat, f: spec_fn(int) -> Result<T, SdioError>)
    requires
        k <= n,
        records(k, f) is Err,
    ensures
        records(n, f) == records(k, f),
    decreases n - k,
{
    if k < n {
        lemma_records_err(k, (n - 1) as nat, f);
    }
}

/// Bytes of record `i` of a block of `elem`-byte records starting at `off`.
pub open spec fn rec_at(b: Seq<u8>, off: int, elem: int, i: int) -> Seq<u8> {
    b.subrange(off + elem * i, off + elem * i + elem)
}

pub open spec fn inf_views(v: Seq<DataInfFile>) -> Seq<InfView> {
    v.map_values(|f: DataInfFile| f@)
}

pub open spec fn manuf_views(v: Seq<DataManuf>) -> Seq<ManufView> {
    v.map_values(|m: DataManuf| m@)
}

pub open spec fn desc_views(v: Seq<DataDesc>) -> Seq<DescView> {
    v.map_values(|d: DataDesc| d@)
}

pub open spec fn hwid_views(v: Seq<DataHwid>) -> Seq<HwidView> {
    v.map_values(|h: DataHwid| h@)
}

#[verifier::loop_isolation(false)]
pub fn decode_infs(payload: &[u8], txt: &[u8], off: usize, cnt: usize) -> (r: Result<
    Vec<DataInfFile>,
    SdioError,
>)
    requires
        off + cnt * ELEM_INF <= payload.len(),
    ensures
        match records(cnt as nat, |i: int| inf_record(rec_at(payload@, off as int, 132, i), txt@)) {
            Ok(v) => r matches Ok(x) && inf_views(x@) == v,
            Err(e) => r == Err::<Vec<DataInfFile>, SdioError>(e),
        },
{
    let ghost f = |i: int| inf_record(rec_at(payload@, off as int, 132, i), txt@);
    let mut out: Vec<DataInfFile> = Vec::new();
    let mut i: usize = 0;
    proof {
        assert(inf_views(out@) =~= Seq::<InfView>::empty());
    }
    while i < cnt
        invariant
            i <= cnt,
            off + cnt * ELEM_INF <= payload.len(),
            records(i as nat, f) == Ok::<Seq<InfView>, SdioError>(inf_views(out@)),
        decreases cnt - i,
    {
        proof {
            assert(off + i * ELEM_INF + ELEM_INF <= off + cnt * ELEM_INF) by (nonlinear_arith)
                requires
                    i < cnt,
            ;
        }
        let a = off + i * ELEM_INF;
        let rec = slice_bytes(payload, a, a + ELEM_INF);
        proof {
            assert(rec@ =~= rec_at(payload@, off as int, 132, i as int));
            assert(f(i as int) == inf_record(rec@, txt@));
        }
        match decode_inf(rec.as_slice(), txt) {
            Err(e) => {
                proof {
                    lemma_records_err((i + 1) as nat, cnt as nat, f);
                }
                return Err(e);
            },
            Ok(x) => {
                let ghost prev = out@;
                out.push(x);
                proof {
                    assert(inf_views(out@) =~= inf_views(prev).push(x@));
                }
            },
        }
        i = i + 1;
    }
    Ok(out)
}

#[verifier::loop_isolation(false)]
pub fn decode_manufs(payload: &[u8], txt: &[u8], off: usize, cnt: usize) -> (r: Result<
    Vec<DataManuf>,
    SdioError,
>)
    requires
        off + cnt * ELEM_MANUF <= payload.len(),
    ensures
        match records(
            cnt as nat,
            |i: int| manuf_record(rec_at(payload@, off as int, 16, i), txt@, (off + 16 * i) as usize),
        ) {
            Ok(v) => r matches Ok(x) && manuf_views(x@) == v,
            Err(e) => r == Err::<Vec<DataManuf>, SdioError>(e),
        },
{
    let ghost f = |i: int|
        manuf_record(rec_at(payload@, off as int, 16, i), txt@, (off + 16 * i) as usize);
    let mut out: Vec<DataManuf> = Vec::new();
    let mut i: usize = 0;
    proof {
        assert(manuf_views(out@) =~= Seq::<ManufView>::empty());
    }
    while i < cnt
        invariant
            i <= cnt,
            off + cnt * ELEM_MANUF <= payload.len(),
            records(i as nat, f) == Ok::<Seq<ManufView>, SdioError>(manuf_views(out@)),
        decreases cnt - i,
    {
        proof {
            assert(off + i * ELEM_MANUF + ELEM_MANUF <= off + cnt * ELEM_MANUF) by (nonlinear_arith)
                requires
                    i < cnt,
            ;
        }
        let a = off + i * ELEM_MANUF;
        let rec = slice_bytes(payload, a, a + ELEM_MANUF);
        proof {
            assert(rec@ =~= rec_at(payload@, off as int, 16, i as int));
            assert(f(i as int) == manuf_record(rec@, txt@, a));
        }
        match decode_manuf(rec.as_slice(), txt, a) {
            Err(e) => {
                proof {
                    lemma_records_err((i + 1) as nat, cnt as nat, f);
                }
                return Err(e);
            },
            Ok(x) => {
                let ghost prev = out@;
                out.push(x);
                proof {
                    assert(manuf_views(out@) =~= manuf_views(prev).push(x@));
                }
            },
        }
        i = i + 1;
    }
    Ok(out)
}

#[verifier::loop_isolation(false)]
pub fn decode_descs(payload: &[u8], txt: &[u8], off: usize, cnt: usize) -> (r: Result<
    Vec<DataDesc>,
    SdioError,
>)
    requires
        off + cnt * ELEM_DESC <= payload.len(),
    ensures
        match records(cnt as nat, |i: int| desc_record(rec_at(payload@, off as int, 24, i), txt@)) {
            Ok(v) => r matches Ok(x) && desc_views(x@) == v,
            Err(e) => r == Err::<Vec<DataDesc>, SdioError>(e),
        },
{
    let ghost f = |i: int| desc_record(rec_at(payload@, off as int, 24, i), txt@);
    let mut out: Vec<DataDesc> = Vec::new();
    let mut i: usize = 0;
    proof {
        assert(desc_views(out@) =~= Seq::<DescView>::empty());
    }
    while i < cnt
        invariant
            i <= cnt,
            off + cnt * ELEM_DESC <= payload.len(),
            records(i as nat, f) == Ok::<Seq<DescView>, SdioError>(desc_views(out@)),
        decreases cnt - i,
    {
        proof {
            assert(off + i * ELEM_DESC + ELEM_DESC <= off + cnt * ELEM_DESC) by (nonlinear_arith)
                requires
                    i < cnt,
            ;
        }
        let a = off + i * ELEM_DESC;
        let rec = slice_bytes(payload, a, a + ELEM_DESC);
        proof {
            assert(rec@ =~= rec_at(payload@, off as int, 24, i as int));
            assert(f(i as int) == desc_record(rec@, txt@));
        }
        match decode_desc(rec.as_slice(), txt) {
            Err(e) => {
                proof {
                    lemma_records_err((i + 1) as nat, cnt as nat, f);
                }
                return Err(e);
            },
            Ok(x) => {
                let ghost prev = out@;
                out.push(x);
                proof {
                    assert(desc_views(out@) =~= desc_views(prev).push(x@));
                }
            },
        }
        i = i + 1;
    }
    Ok(out)
}

#[verifier::loop_isolation(false)]
pub fn decode_hwids(payload: &[u8], txt: &[u8], off: usize, cnt: usize) -> (r: Result<
    Vec<DataHwid>,
    SdioError,
>)
    requires
        off + cnt * ELEM_HWID <= payload.len(),
    ensures
        match records(cnt as nat, |i: int| hwid_record(rec_at(payload@, off as int, 12, i), txt@)) {
            Ok(v) => r matches Ok(x) && hwid_views(x@) == v,
            Err(e) => r == Err::<Vec<DataHwid>, SdioError>(e),
        },
{
    let ghost f = |i: int| hwid_record(rec_at(payload@, off as int, 12, i), txt@);
    let mut out: Vec<DataHwid> = Vec::new();
    let mut i: usize = 0;
    proof {
        assert(hwid_views(out@) =~= Seq::<HwidView>::empty());
    }
    while i < cnt
        invariant
            i <= cnt,
            off + cnt * ELEM_HWID <= payload.len(),
            records(i as nat, f) == Ok::<Seq<HwidView>, SdioError>(hwid_views(out@)),
        decreases cnt - i,
    {
        proof {
            assert(off + i * ELEM_HWID + ELEM_HWID <= off + cnt * ELEM_HWID) by (nonlinear_arith)
                requires
                    i < cnt,
            ;
        }
        let a = off + i * ELEM_HWID;
        let rec = slice_bytes(payload, a, a + ELEM_HWID);
        proof {
            assert(rec@ =~= rec_at(payload@, off as int, 12, i as int));
            assert(f(i as int) == hwid_record(rec@, txt@));
        }
        match decode_hwid(rec.as_slice(), txt) {
            Err(e) => {
                proof {
                    lemma_records_err((i + 1) as nat, cnt as nat, f);
                }
                return Err(e);
            },
            Ok(x) => {
                let ghost prev = out@;
                out.push(x);
                proof {
                    assert(hwid_views(out@) =~= hwid_views(prev).push(x@));
                }
            },
        }
        i = i + 1;
    }
    Ok(out)
}

/// The first index (in order) that is out of range for a block of `count`
/// records.
pub open spec fn first_bad_ref(idx: Seq<u32>, count: nat, kind: CrossRefKind) -> Option<SdioError>
    decreases idx.len(),
{
    if idx.len() == 0 {
        None
    } else {
        match first_bad_ref(idx.drop_last(), count, kind) {
            Some(e) => Some(e),
            None => if idx.last() >= count {
                Some(
                    SdioError::CrossRefInvalid {
                        kind,
                        index: idx.last() as u64,
                        count: count as u64,
                    },
                )
            } else {
                None
            },
        }
    }
}

/// No index of `idx` is refused exactly when every index is below `count`.
proof fn lemma_no_bad_ref(idx: Seq<u32>, count: nat, kind: CrossRefKind)
    ensures
        first_bad_ref(idx, count, kind) is None <==> forall|i: int| 0 <= i < idx.len() ==> #[trigger] idx[i] < count,
    decreases idx.len(),
{
    if idx.len() > 0 {
        lemma_no_bad_ref(idx.drop_last(), count, kind);
        if first_bad_ref(idx, count, kind) is None {
            assert forall|i: int| 0 <= i < idx.len() implies #[trigger] idx[i] < count by {
                if i < idx.len() - 1 {
                    assert(idx[i] == idx.drop_last()[i]);
                }
            }
        } else {
            if first_bad_ref(idx.drop_last(), count, kind) is Some {
                let j = choose|j: int| 0 <= j < idx.drop_last().len() && !(idx.drop_last()[j] < count);
                assert(idx[j] == idx.drop_last()[j]);
            }
        }
    }
}

/// A parsed catalog is consistent: every hardware-ID record's key is its
/// uppercased ID; every cross-reference is in range (hardware ID to model
/// row, model row to manufacturer, manufacturer to INF record), so every
/// record resolves to an INF record; and looking a record's own key up
/// finds it.
pub proof fn parsed_catalog_resolves_every_record(c: SdioCatalog, pack: Seq<char>, b: Seq<u8>)
    requires
        payload_spec(b) matches Ok(v) && c.holds(pack, v),
    ensures
        c.wf(),
        forall|i: int|
            0 <= i < c.manuf_records@.len() ==> (#[trigger] c.manuf_records@[i]).inffile_index
                < c.inf_records@.len(),
        forall|i: int|
            0 <= i < c.desc_records@.len() ==> (#[trigger] c.desc_records@[i]).manufacturer_index
                < c.manuf_records@.len(),
        forall|i: int|
            0 <= i < c.hwid_records@.len() ==> (#[trigger] c.hwid_records@[i]).desc_index
                < c.desc_records@.len(),
        forall|i: int| 0 <= i < c.hwid_records@.len() ==> #[trigger] c.resolvable(i),
        forall|i: int|
            0 <= i < c.hwid_records@.len() ==> #[trigger] c.hit(unicode_upper(c.hwid_records@[i].hwid@), i),
{
    let v = payload_spec(b)->Ok_0;
    let ms = v.manufs;
    let ds = v.descs;
    let hs = v.hwids;
    lemma_no_bad_ref(ms.map_values(|m: ManufView| m.inffile_index), v.infs.len(), CrossRefKind::InfFileIndex);
    lemma_no_bad_ref(ds.map_values(|d: DescView| d.manufacturer_index), ms.len(), CrossRefKind::ManufacturerIndex);
    lemma_no_bad_ref(hs.map_values(|h: HwidView| h.desc_index), ds.len(), CrossRefKind::DescIndex);
    assert forall|i: int| 0 <= i < c.manuf_records@.len() implies (#[trigger] c.manuf_records@[i]).inffile_index
        < c.inf_records@.len() by {
        assert(ms.map_values(|m: ManufView| m.inffile_index)[i] < v.infs.len());
        assert(ms[i] == c.manuf_records@[i]@);
    }
    assert forall|i: int| 0 <= i < c.desc_records@.len() implies (#[trigger] c.desc_records@[i]).manufacturer_index
        < c.manuf_records@.len() by {
        assert(ds.map_values(|d: DescView| d.manufacturer_index)[i] < ms.len());
        assert(ds[i] == c.desc_records@[i]@);
    }
    assert forall|i: int| 0 <= i < c.hwid_records@.len() implies (#[trigger] c.hwid_records@[i]).desc_index
        < c.desc_records@.len() by {
        assert(hs.map_values(|h: HwidView| h.desc_index)[i] < ds.len());
        assert(hs[i] == c.hwid_records@[i]@);
    }
    assert forall|i: int| 0 <= i < c.hwid_records@.len() implies #[trigger] c.resolvable(i) by {
        assert(hs.map_values(|h: HwidView| h.desc_index)[i] < ds.len());
        let di = c.hwid_records@[i].desc_index as int;
        assert(hs[i] == c.hwid_records@[i]@);
        assert(ds.map_values(|d: DescView| d.manufacturer_index)[di] < ms.len());
        assert(ds[di] == c.desc_records@[di]@);
        let mi = c.desc_records@[di].manufacturer_index as int;
        assert(ms.map_values(|m: ManufView| m.inffile_index)[mi] < v.infs.len());
        assert(ms[mi] == c.manuf_records@[mi]@);
        assert(v.infs.len() == c.inf_records@.len());
    }
}

proof fn lemma_first_bad_stable(idx: Seq<u32>, count: nat, kind: CrossRefKind, k: int)
    requires
        0 <= k <= idx.len(),
        first_bad_ref(idx.take(k), count, kind) is Some,
    ensures
        first_bad_ref(idx, count, kind) == first_bad_ref(idx.take(k), count, kind),
    decreases idx.len() - k,
{
    if k < idx.len() {
        assert(idx.drop_last().take(k) =~= idx.take(k));
        lemma_first_bad_stable(idx.drop_last(), count, kind, k);
    } else {
        assert(idx.take(k) =~= idx);
    }
}

/// The first out-of-range index among `idx`, as the refusal.
pub fn check_refs(idx: &[u32], count: usize, kind: CrossRefKind) -> (r: Result<(), SdioError>)
    ensures
        match first_bad_ref(idx@, count as nat, kind) {
            None => r is Ok,
            Some(e) => r == Err::<(), SdioError>(e),
        },
{
    let mut k: usize = 0;
    while k < idx.len()
        invariant
            k <= idx@.len(),
            first_bad_ref(idx@.take(k as int), count as nat, kind) is None,
        decreases idx.len() - k,
    {
        proof {
            assert(idx@.take(k + 1).drop_last() =~= idx@.take(k as int));
        }
        if idx[k] as usize >= count {
            proof {
                lemma_first_bad_stable(idx@, count as nat, kind, k + 1);
            }
            return Err(
                SdioError::CrossRefInvalid { kind, index: idx[k] as u64, count: count as u64 },
            );
        }
        k = k + 1;
    }
    proof {
        assert(idx@.take(k as int) =~= idx@);
    }
    Ok(())
}

/// Positions of the five vector blocks: `(data_start, count)` of each and
/// the position after the last one.
pub open spec fn payload_layout(b: Seq<u8>) -> Result<(Seq<(int, nat)>, int), SdioError> {
    match vector_header(b, 0, ELEM_INF as nat, MAX_INF_RECORDS as nat, 0) {
        Err(e) => Err(e),
        Ok((o0, c0, p1)) => match vector_header(b, p1, ELEM_MANUF as nat, MAX_MANUF_RECORDS as nat, 1) {
            Err(e) => Err(e),
            Ok((o1, c1, p2)) => match vector_header(b, p2, ELEM_DESC as nat, MAX_DESC_RECORDS as nat, 2) {
                Err(e) => Err(e),
                Ok((o2, c2, p3)) => match vector_header(
                    b,
                    p3,
                    ELEM_HWID as nat,
                    MAX_HWID_RECORDS as nat,
                    3,
                ) {
                    Err(e) => Err(e),
                    Ok((o3, c3, p4)) => match vector_header(b, p4, 1, MAX_TEXT_POOL_BYTES as nat, 4) {
                        Err(e) => Err(e),
                        Ok((o4, c4, p5)) => Ok(
                            (seq![(o0, c0), (o1, c1), (o2, c2), (o3, c3), (o4, c4)], p5),
                        ),
                    },
                },
            },
        },
    }
}

/// The decoded content of a payload: INF, manufacturer, model and
/// hardware-ID records plus the text pool.
pub struct PayloadView {
    pub infs: Seq<InfView>,
    pub manufs: Seq<ManufView>,
    pub descs: Seq<DescView>,
    pub hwids: Seq<HwidView>,
    pub text: Seq<u8>,
}

/// The decompressed index payload, decoded and validated: the five vector
/// blocks, every record (first refusal wins, block by block), the
/// cross-references, the hashtable block, and no trailing bytes.
pub open spec fn payload_spec(b: Seq<u8>) -> Result<PayloadView, SdioError> {
    match payload_layout(b) {
        Err(e) => Err(e),
        Ok((l, p5)) => {
            let txt = b.subrange(l[4].0, l[4].0 + l[4].1);
            match records(l[0].1, |i: int| inf_record(rec_at(b, l[0].0, 132, i), txt)) {
                Err(e) => Err(e),
                Ok(infs) => match records(
                    l[1].1,
                    |i: int| manuf_record(rec_at(b, l[1].0, 16, i), txt, (l[1].0 + 16 * i) as usize),
                ) {
                    Err(e) => Err(e),
                    Ok(ms) => match records(
                        l[2].1,
                        |i: int| desc_record(rec_at(b, l[2].0, 24, i), txt),
                    ) {
                        Err(e) => Err(e),
                        Ok(ds) => match records(
                            l[3].1,
                            |i: int| hwid_record(rec_at(b, l[3].0, 12, i), txt),
                        ) {
                            Err(e) => Err(e),
                            Ok(hs) => {
                                let r1 = first_bad_ref(
                                    ms.map_values(|m: ManufView| m.inffile_index),
                                    infs.len(),
                                    CrossRefKind::InfFileIndex,
                                );
                                let r2 = first_bad_ref(
                                    ds.map_values(|d: DescView| d.manufacturer_index),
                                    ms.len(),
                                    CrossRefKind::ManufacturerIndex,
                                );
                                let r3 = first_bad_ref(
                                    hs.map_values(|h: HwidView| h.desc_index),
                                    ds.len(),
                                    CrossRefKind::DescIndex,
                                );
                                if r1 is Some {
                                    Err(r1->0)
                                } else if r2 is Some {
                                    Err(r2->0)
                                } else if r3 is Some {
                                    Err(r3->0)
                                } else {
                                    match hashtable_end(b, p5) {
                                        Err(e) => Err(e),
                                        Ok(q) => if q != b.len() {
                                            Err(SdioError::BadBlockHeader(q as usize))
                                        } else {
                                            Ok(
                                                PayloadView {
                                                    infs,
                                                    manufs: ms,
                                                    descs: ds,
                                                    hwids: hs,
                                                    text: txt,
                                                },
                                            )
                                        },
                                    }
                                }
                            },
                        },
                    },
                },
            }
        },
    }
}

impl SdioCatalog {
    /// Index consistency: each hardware-ID record's lookup key is its
    /// uppercased ID.
    pub open spec fn wf(&self) -> bool {
        &&& self.hwid_keys@.len() == self.hwid_records@.len()
        &&& forall|i: int|
            0 <= i < self.hwid_keys@.len() ==> (#[trigger] self.hwid_keys@[i])@ == unicode_upper(
                self.hwid_records@[i].hwid@,
            )
    }

    /// The catalog holds exactly the decoded `v` under `pack_name`.
    pub open spec fn holds(&self, pack_name: Seq<char>, v: PayloadView) -> bool {
        &&& self.wf()
        &&& self.pack_name@ == pack_name
        &&& inf_views(self.inf_records@) == v.infs
        &&& manuf_views(self.manuf_records@) == v.manufs
        &&& desc_views(self.desc_records@) == v.descs
        &&& hwid_views(self.hwid_records@) == v.hwids
        &&& self.text_pool@ == v.text
    }
}

fn collect_u32<T>(v: &Vec<T>, get: impl Fn(&T) -> u32) -> (r: Vec<u32>)
    requires
        forall|t: &T| get.requires((t,)),
    ensures
        r@.len() == v@.len(),
        forall|i: int| 0 <= i < v@.len() ==> get.ensures((&v@[i],), #[trigger] r@[i]),
{
    let mut r: Vec<u32> = Vec::new();
    let mut i: usize = 0;
    while i < v.len()
        invariant
            i <= v@.len(),
            r@.len() == i,
            forall|t: &T| get.requires((t,)),
            forall|j: int| 0 <= j < i ==> get.ensures((&v@[j],), #[trigger] r@[j]),
        decreases v.len() - i,
    {
        r.push(get(&v[i]));
        i = i + 1;
    }
    r
}

/// Decode and validate a decompressed index payload for pack `pack_name`.
#[verifier::rlimit(40)]
pub fn parse_payload(payload: &[u8], pack_name: String) -> (r: Result<SdioCatalog, SdioError>)
    ensures
        match payload_spec(payload@) {
            Ok(v) => r matches Ok(c) && c.holds(pack_name@, v),
            Err(e) => r matches Err(x) && x == e,
        },
{
    proof {
        assert(payload@.len() == payload.len());
    }
    let mut p: usize = 0;
    let (inf_off, inf_cnt) = match read_vector_header(payload, &mut p, ELEM_INF, MAX_INF_RECORDS, 0) {
        Err(e) => {
            return Err(e);
        },
        Ok(x) => x,
    };
    let (man_off, man_cnt) = match read_vector_header(payload, &mut p, ELEM_MANUF, MAX_MANUF_RECORDS, 1) {
        Err(e) => {
            return Err(e);
        },
        Ok(x) => x,
    };
    let (desc_off, desc_cnt) = match read_vector_header(payload, &mut p, ELEM_DESC, MAX_DESC_RECORDS, 2) {
        Err(e) => {
            return Err(e);
        },
        Ok(x) => x,
    };
    let (hwid_off, hwid_cnt) = match read_vector_header(payload, &mut p, ELEM_HWID, MAX_HWID_RECORDS, 3) {
        Err(e) => {
            return Err(e);
        },
        Ok(x) => x,
    };
    let (txt_start, txt_len) = match read_vector_header(payload, &mut p, 1, MAX_TEXT_POOL_BYTES, 4) {
        Err(e) => {
            return Err(e);
        },
        Ok(x) => x,
    };
    let ghost l = seq![
        (inf_off as int, inf_cnt as nat),
        (man_off as int, man_cnt as nat),
        (desc_off as int, desc_cnt as nat),
        (hwid_off as int, hwid_cnt as nat),
        (txt_start as int, txt_len as nat),
    ];
    assert(payload_layout(payload@) == Ok::<(Seq<(int, nat)>, int), SdioError>((l, p as int)));
    let txt = slice_bytes(payload, txt_start, txt_start + txt_len);
    let infs = match decode_infs(payload, txt.as_slice(), inf_off, inf_cnt) {
        Err(e) => {
            return Err(e);
        },
        Ok(x) => x,
    };
    let manufs = match decode_manufs(payload, txt.as_slice(), man_off, man_cnt) {
        Err(e) => {
            return Err(e);
        },
        Ok(x) => x,
    };
    let descs = match decode_descs(payload, txt.as_slice(), desc_off, desc_cnt) {
        Err(e) => {
            return Err(e);
        },
        Ok(x) => x,
    };
    let hwids = match decode_hwids(payload, txt.as_slice(), hwid_off, hwid_cnt) {
        Err(e) => {
            return Err(e);
        },
        Ok(x) => x,
    };
    let m_idx = collect_u32(&manufs, |m: &DataManuf| -> (r: u32) ensures r == m.inffile_index { m.inffile_index });
    proof {
        assert(m_idx@ =~= manuf_views(manufs@).map_values(|m: ManufView| m.inffile_index));
    }
    match check_refs(m_idx.as_slice(), infs.len(), CrossRefKind::InfFileIndex) {
        Err(e) => {
            return Err(e);
        },
        Ok(()) => {},
    }
    let d_idx = collect_u32(&descs, |d: &DataDesc| -> (r: u32) ensures r == d.manufacturer_index { d.manufacturer_index });
    proof {
        assert(d_idx@ =~= desc_views(descs@).map_values(|d: DescView| d.manufacturer_index));
    }
    match check_refs(d_idx.as_slice(), manufs.len(), CrossRefKind::ManufacturerIndex) {
        Err(e) => {
            return Err(e);
        },
        Ok(()) => {},
    }
    let h_idx = collect_u32(&hwids, |h: &DataHwid| -> (r: u32) ensures r == h.desc_index { h.desc_index });
    proof {
        assert(h_idx@ =~= hwid_views(hwids@).map_values(|h: HwidView| h.desc_index));
    }
    match check_refs(h_idx.as_slice(), descs.len(), CrossRefKind::DescIndex) {
        Err(e) => {
            return Err(e);
        },
        Ok(()) => {},
    }
    let (cap, used, cnt) = match read_hashtable_header(payload, p) {
        Err(e) => {
            return Err(e);
        },
        Ok(x) => x,
    };
    if used as usize > usize::MAX - 12 || p > usize::MAX - 12 - used as usize {
        return Err(SdioError::BadBlockHeader(p));
    }
    let end = p + 12 + used as usize;
    if cap == 0 && cnt != 0 {
        return Err(SdioError::BadBlockHeader(end));
    }
    if end != payload.len() {
        return Err(SdioError::BadBlockHeader(end));
    }
    let keys = upper_keys(&hwids);
    let cat = SdioCatalog {
        pack_name,
        inf_records: infs,
        manuf_records: manufs,
        desc_records: descs,
        hwid_records: hwids,
        text_pool: txt,
        hwid_keys: keys,
    };
    Ok(cat)
}

/// The uppercased lookup key of every hardware-ID record.
fn upper_keys(hwids: &Vec<DataHwid>) -> (r: Vec<String>)
    ensures
        r@.len() == hwids@.len(),
        forall|i: int| 0 <= i < r@.len() ==> (#[trigger] r@[i])@ == unicode_upper(hwids@[i].hwid@),
{
    let mut keys: Vec<String> = Vec::new();
    let mut i: usize = 0;
    while i < hwids.len()
        invariant
            i <= hwids@.len(),
            keys@.len() == i,
            forall|j: int| 0 <= j < i ==> (#[trigger] keys@[j])@ == unicode_upper(hwids@[j].hwid@),
        decreases hwids.len() - i,
    {
        keys.push(to_upper(hwids[i].hwid.as_str()));
        i = i + 1;
    }
    keys
}

// ---------------------------------------------------------------------------
// Container and decompression
// ---------------------------------------------------------------------------

/// What LZMA-alone decoding of `input` yields through a sink that accepts
/// at most `cap` bytes: the decoded bytes, or the decoder's error text.
pub uninterp spec fn lzma_alone_decode(input: Seq<u8>, cap: nat) -> Result<Seq<u8>, Seq<char>>;

/// `lzma_rs::lzma_decompress` over `input`, writing into a sink that refuses
/// output beyond `cap` bytes; an error is returned as its display text.
#[verifier::external_body]
fn lzma_decode(input: &[u8], cap: usize) -> (r: Result<Vec<u8>, String>)
    ensures
        match lzma_alone_decode(input@, cap as nat) {
            Ok(v) => r matches Ok(x) && x@ == v,
            Err(m) => r matches Err(x) && x@ == m,
        },
{
    let mut reader = std::io::Cursor::new(input);
    let mut sink = CappedWriter { buf: Vec::new(), max: cap };
    match lzma_rs::lzma_decompress(&mut reader, &mut sink) {
        Ok(()) => Ok(sink.buf),
        Err(e) => Err(format!("{e}")),
    }
}

pub open spec fn le64(b: Seq<u8>, off: int) -> nat {
    le32(b, off) as nat + le32(b, off + 4) as nat * 0x1_0000_0000
}

/// LZMA-alone decompression of `input` (props, dictionary size, declared
/// unpacked size, stream), refusing a declared size above the cap before
/// decoding.
pub open spec fn decompress_spec(input: Seq<u8>) -> Result<Seq<u8>, Refusal> {
    if input.len() < LZMA_ALONE_HEADER_LEN {
        Err(Refusal::Error(SdioError::BadBlockHeader(0)))
    } else if le64(input, 5) != 0xFFFF_FFFF_FFFF_FFFF && le64(input, 5) > MAX_UNCOMPRESSED_BYTES {
        Err(Refusal::Error(SdioError::UncompressedTooLarge(le64(input, 5) as usize)))
    } else {
        match lzma_alone_decode(input, MAX_UNCOMPRESSED_BYTES as nat) {
            Err(m) => Err(Refusal::Decoder("lzma-rs: "@ + m)),
            Ok(v) => if v.len() > MAX_UNCOMPRESSED_BYTES {
                Err(Refusal::Error(SdioError::UncompressedTooLarge(v.len() as usize)))
            } else {
                Ok(v)
            },
        }
    }
}

/// A refusal: an error, or the decoder's error text (`Decompress`).
pub enum Refusal {
    Error(SdioError),
    Decoder(Seq<char>),
}

/// LZMA-alone decompression into a capped buffer.
pub fn decompress_alone(input: &[u8]) -> (r: Result<Vec<u8>, SdioError>)
    ensures
        input@.len() < LZMA_ALONE_HEADER_LEN ==> r == Err::<Vec<u8>, SdioError>(
            SdioError::BadBlockHeader(0),
        ),
        input@.len() >= LZMA_ALONE_HEADER_LEN && le64(input@, 5) != 0xFFFF_FFFF_FFFF_FFFF
            && le64(input@, 5) > MAX_UNCOMPRESSED_BYTES ==> r == Err::<Vec<u8>, SdioError>(
            SdioError::UncompressedTooLarge(le64(input@, 5) as usize),
        ),
        input@.len() >= LZMA_ALONE_HEADER_LEN && !(le64(input@, 5) != 0xFFFF_FFFF_FFFF_FFFF
            && le64(input@, 5) > MAX_UNCOMPRESSED_BYTES) ==> match lzma_alone_decode(
            input@,
            MAX_UNCOMPRESSED_BYTES as nat,
        ) {
            Err(m) => r matches Err(SdioError::Decompress(x)) && x@ == "lzma-rs: "@ + m,
            Ok(v) => if v.len() > MAX_UNCOMPRESSED_BYTES {
                r == Err::<Vec<u8>, SdioError>(SdioError::UncompressedTooLarge(v.len() as usize))
            } else {
                r matches Ok(x) && x@ == v
            },
        },
{
    if input.len() < LZMA_ALONE_HEADER_LEN {
        return Err(SdioError::BadBlockHeader(0));
    }
    let lo = le32_at(input, 5) as u64;
    let hi = le32_at(input, 9) as u64;
    let declared: u64 = lo + hi * 0x1_0000_0000;
    if declared != 0xFFFF_FFFF_FFFF_FFFF && declared > MAX_UNCOMPRESSED_BYTES as u64 {
        return Err(SdioError::UncompressedTooLarge(declared as usize));
    }
    match lzma_decode(input, MAX_UNCOMPRESSED_BYTES) {
        Err(m) => Err(SdioError::Decompress(concat2("lzma-rs: ", m.as_str()))),
        Ok(v) => {
            if v.len() > MAX_UNCOMPRESSED_BYTES {
                return Err(SdioError::UncompressedTooLarge(v.len()));
            }
            Ok(v)
        },
    }
}

pub open spec fn sdw_magic_ok(data: Seq<u8>) -> bool {
    data[0] == 0x53 && data[1] == 0x44 && data[2] == 0x57
}

/// The container checks before decompression: size cap, minimum length,
/// magic, version.
pub open spec fn container_refusal(data: Seq<u8>) -> Option<SdioError> {
    if data.len() > MAX_COMPRESSED_BYTES {
        Some(SdioError::TooLarge(data.len() as usize))
    } else if data.len() < CONTAINER_PREFIX_LEN + LZMA_ALONE_HEADER_LEN {
        Some(SdioError::BadBlockHeader(0))
    } else if !sdw_magic_ok(data) {
        Some(SdioError::BadMagic)
    } else if le32(data, 3) != FORMAT_VERSION {
        Some(SdioError::BadVersion(le32(data, 3)))
    } else {
        None
    }
}

impl SdioCatalog {
    /// Parse an in-memory SDW index buffer; `pack_name` is metadata only.
    /// A pack name over the length cap, a container refusal and a
    /// decompression refusal come first; then the payload is decoded.
    pub fn parse_bytes(data: &[u8], pack_name: String) -> (r: Result<SdioCatalog, SdioError>)
        ensures
            blen(pack_name@) > MAX_PACK_FILENAME_LEN ==> r == Err::<SdioCatalog, SdioError>(
                SdioError::StringTooLong(0, MAX_PACK_FILENAME_LEN),
            ),
            blen(pack_name@) <= MAX_PACK_FILENAME_LEN ==> match container_refusal(data@) {
                Some(e) => r == Err::<SdioCatalog, SdioError>(e),
                None => match decompress_spec(data@.skip(8)) {
                    Err(e) => r matches Err(x) && same_error(x, e),
                    Ok(payload) => match payload_spec(payload) {
                        Ok(v) => r matches Ok(c) && c.holds(pack_name@, v),
                        Err(e) => r matches Err(x) && x == e,
                    },
                },
            },
    {
        let name = chars_of(pack_name.as_str());
        if byte_len_exceeds(name.as_slice(), MAX_PACK_FILENAME_LEN) {
            return Err(SdioError::StringTooLong(0, MAX_PACK_FILENAME_LEN));
        }
        Self::parse_inner(data, pack_name)
    }

    fn parse_inner(data: &[u8], pack_name: String) -> (r: Result<SdioCatalog, SdioError>)
        ensures
            match container_refusal(data@) {
                Some(e) => r == Err::<SdioCatalog, SdioError>(e),
                None => match decompress_spec(data@.skip(8)) {
                    Err(e) => r matches Err(x) && same_error(x, e),
                    Ok(payload) => match payload_spec(payload) {
                        Ok(v) => r matches Ok(c) && c.holds(pack_name@, v),
                        Err(e) => r matches Err(x) && x == e,
                    },
                },
            },
    {
        if data.len() > MAX_COMPRESSED_BYTES {
            return Err(SdioError::TooLarge(data.len()));
        }
        if data.len() < CONTAINER_PREFIX_LEN + LZMA_ALONE_HEADER_LEN {
            return Err(SdioError::BadBlockHeader(0));
        }
        if !(data[0] == 0x53 && data[1] == 0x44 && data[2] == 0x57) {
            return Err(SdioError::BadMagic);
        }
        let version = le32_at(data, 3);
        if version != FORMAT_VERSION {
            return Err(SdioError::BadVersion(version));
        }
        let rest = slice_bytes(data, 8, data.len());
        proof {
            assert(rest@ =~= data@.skip(8));
        }
        let payload = match decompress_alone(rest.as_slice()) {
            Err(e) => {
                return Err(e);
            },
            Ok(p) => p,
        };
        parse_payload(payload.as_slice(), pack_name)
    }
}

/// The error `x` is the refusal `e`.
pub open spec fn same_error(x: SdioError, e: Refusal) -> bool {
    match e {
        Refusal::Error(err) => x == err,
        Refusal::Decoder(m) => x matches SdioError::Decompress(t) && t@ == m,
    }
}

// ---------------------------------------------------------------------------
// Lookup
// ---------------------------------------------------------------------------

/// Field slot `k` of an INF record (absent when the record holds fewer).
pub open spec fn field_at(fields: Seq<Option<String>>, k: int) -> Option<String> {
    if 0 <= k < fields.len() {
        fields[k]
    } else {
        None
    }
}

impl SdioCatalog {
    pub fn pack_name(&self) -> (r: &str)
        ensures
            r@ == self.pack_name@,
    {
        self.pack_name.as_str()
    }

    pub fn hwid_count(&self) -> (r: u32)
        ensures
            r == self.hwid_records@.len() as u32,
    {
        self.hwid_records.len() as u32
    }

    pub fn inf_count(&self) -> (r: u32)
        ensures
            r == self.inf_records@.len() as u32,
    {
        self.inf_records.len() as u32
    }

    pub fn manuf_count(&self) -> (r: u32)
        ensures
            r == self.manuf_records@.len() as u32,
    {
        self.manuf_records.len() as u32
    }

    pub fn desc_count(&self) -> (r: u32)
        ensures
            r == self.desc_records@.len() as u32,
    {
        self.desc_records.len() as u32
    }

    /// Hardware-ID record `i` resolves through its model row and manufacturer
    /// to an INF record.
    pub open spec fn resolvable(&self, i: int) -> bool {
        let h = self.hwid_records@[i];
        let di = h.desc_index as int;
        &&& di < self.desc_records@.len()
        &&& self.desc_records@[di].manufacturer_index < self.manuf_records@.len()
        &&& self.manuf_records@[self.desc_records@[di].manufacturer_index as int].inffile_index
            < self.inf_records@.len()
    }

    /// The candidate hardware-ID record `i` resolves to.
    pub open spec fn candidate_at(&self, i: int) -> Candidate {
        let h = self.hwid_records@[i];
        let d = self.desc_records@[h.desc_index as int];
        let m = self.manuf_records@[d.manufacturer_index as int];
        let f = self.inf_records@[m.inffile_index as int];
        Candidate {
            inf_path: f.inf_path,
            inf_filename: f.inf_filename,
            provider: field_at(f.fields@, FIELD_PROVIDER as int),
            class: field_at(f.fields@, FIELD_CLASS as int),
            class_guid: field_at(f.fields@, FIELD_CLASS_GUID as int),
            catalog_file: field_at(f.fields@, FIELD_CATALOG_FILE as int),
            version: f.version,
            date: f.date,
            install_section: d.install,
            picked_section: d.install_picked,
            sect_pos: d.sect_pos,
            models_section: if 0 <= d.sect_pos < m.sections@.len() {
                Some(m.sections@[d.sect_pos as int])
            } else {
                None
            },
            inf_pos: h.inf_pos,
        }
    }

    /// Whether record `i`'s key is `key` and it resolves to a candidate.
    pub open spec fn hit(&self, key: Seq<char>, i: int) -> bool {
        unicode_upper(self.hwid_records@[i].hwid@) == key && self.resolvable(i)
    }

    /// Number of records among the first `n` whose key is `key`.
    pub open spec fn bucket_size(&self, key: Seq<char>, n: int) -> nat
        decreases n,
    {
        if n <= 0 {
            0
        } else {
            self.bucket_size(key, n - 1) + (if unicode_upper(self.hwid_records@[n - 1].hwid@)
                == key {
                1nat
            } else {
                0nat
            })
        }
    }

    /// Candidates of the first `n` records whose key is `key`, in record order.
    pub open spec fn found(&self, key: Seq<char>, n: int) -> Seq<Candidate>
        decreases n,
    {
        if n <= 0 {
            Seq::empty()
        } else if self.hit(key, n - 1) {
            self.found(key, n - 1).push(self.candidate_at(n - 1))
        } else {
            self.found(key, n - 1)
        }
    }

    fn resolve_candidate(&self, i: usize) -> (r: Option<Candidate>)
        requires
            i < self.hwid_records@.len(),
        ensures
            self.resolvable(i as int) ==> r == Some(self.candidate_at(i as int)),
            !self.resolvable(i as int) ==> r is None,
    {
        let h = &self.hwid_records[i];
        let di = h.desc_index as usize;
        if di >= self.desc_records.len() {
            return None;
        }
        let d = &self.desc_records[di];
        let mi = d.manufacturer_index as usize;
        if mi >= self.manuf_records.len() {
            return None;
        }
        let m = &self.manuf_records[mi];
        let fi = m.inffile_index as usize;
        if fi >= self.inf_records.len() {
            return None;
        }
        let f = &self.inf_records[fi];
        let field = |k: usize| -> (r: Option<String>)
            ensures
                r == field_at(f.fields@, k as int),
            {
                if k < f.fields.len() {
                    clone_opt(&f.fields[k])
                } else {
                    None
                }
            };
        let models_section = if 0 <= d.sect_pos && (d.sect_pos as usize) < m.sections.len() {
            Some(m.sections[d.sect_pos as usize].clone())
        } else {
            None
        };
        let c = Candidate {
            inf_path: f.inf_path.clone(),
            inf_filename: f.inf_filename.clone(),
            provider: field(FIELD_PROVIDER),
            class: field(FIELD_CLASS),
            class_guid: field(FIELD_CLASS_GUID),
            catalog_file: field(FIELD_CATALOG_FILE),
            version: f.version,
            date: f.date,
            install_section: d.install.clone(),
            picked_section: d.install_picked.clone(),
            sect_pos: d.sect_pos,
            models_section,
            inf_pos: h.inf_pos,
        };
        Some(c)
    }

    /// Every candidate whose uppercased stored hardware ID equals the
    /// uppercased `id`, in record order; an unknown ID yields no candidate.
    pub fn find_by_hwid(&self, id: &str) -> (r: Vec<Candidate>)
        requires
            self.wf(),
        ensures
            r@ == self.found(unicode_upper(id@), self.hwid_records@.len() as int),
    {
        let key = to_upper(id);
        self.collect(&key)
    }

    fn collect(&self, key: &String) -> (r: Vec<Candidate>)
        requires
            self.wf(),
        ensures
            r@ == self.found(key@, self.hwid_records@.len() as int),
    {
        let mut out: Vec<Candidate> = Vec::new();
        let mut i: usize = 0;
        while i < self.hwid_keys.len()
            invariant
                self.wf(),
                i <= self.hwid_records@.len(),
                out@ == self.found(key@, i as int),
            decreases self.hwid_keys.len() - i,
        {
            if str_eq(self.hwid_keys[i].as_str(), key.as_str()) {
                match self.resolve_candidate(i) {
                    Some(c) => {
                        out.push(c);
                    },
                    None => {},
                }
            }
            i = i + 1;
        }
        out
    }

    /// Like [`Self::find_by_hwid`], but refuses (before building any result)
    /// when the exact-ID bucket holds more than `max` records.
    pub fn find_by_hwid_bounded(&self, id: &str, max: usize) -> (r: Result<Vec<Candidate>, SdioError>)
        requires
            self.wf(),
        ensures
            ({
                let key = unicode_upper(id@);
                let n = self.hwid_records@.len() as int;
                &&& self.bucket_size(key, n) > max ==> (r matches Err(
                    SdioError::LookupBucketTooLarge { id: x, bucket: b, max: m },
                ) && x@ == id@ && b == self.bucket_size(key, n) && m == max)
                &&& self.bucket_size(key, n) <= max ==> (r matches Ok(v) && v@ == self.found(
                    key,
                    n,
                ))
            }),
    {
        let key = to_upper(id);
        let mut bucket: usize = 0;
        let mut i: usize = 0;
        while i < self.hwid_keys.len()
            invariant
                self.wf(),
                i <= self.hwid_records@.len(),
                bucket == self.bucket_size(key@, i as int),
                bucket <= i,
            decreases self.hwid_keys.len() - i,
        {
            if str_eq(self.hwid_keys[i].as_str(), key.as_str()) {
                bucket = bucket + 1;
            }
            i = i + 1;
        }
        if bucket > max {
            return Err(SdioError::LookupBucketTooLarge { id: owned(id), bucket, max });
        }
        Ok(self.collect(&key))
    }
}

pub fn clone_opt(o: &Option<String>) -> (r: Option<String>)
    ensures
        r == *o,
{
    match o {
        Some(s) => Some(s.clone()),
        None => None,
    }
}

} // verus!
verus! {

/// `std::io::Error`, carried through the output sink opaquely.
#[verifier::external_type_specification]
#[verifier::external_body]
pub struct ExIoError(std::io::Error);

/// A sink that refuses to let a decoder emit more than `max` bytes.
pub struct CappedWriter {
    buf: Vec<u8>,
    max: usize,
}

impl CappedWriter {
    /// The bytes accepted so far.
    pub closed spec fn written(&self) -> Seq<u8> {
        self.buf@
    }

    /// The most bytes the sink accepts in all.
    pub closed spec fn cap(&self) -> nat {
        self.max as nat
    }
}

/// `std::io::Error::other` with the cap-exceeded message.
#[verifier::external_body]
fn cap_exceeded() -> std::io::Error {
    std::io::Error::other("uncompressed cap exceeded")
}

impl std::io::Write for CappedWriter {
    fn write(&mut self, b: &[u8]) -> (r: std::io::Result<usize>)
        ensures
            final(self).cap() == old(self).cap(),
            old(self).written().len() + b@.len() <= old(self).cap() ==> (r matches Ok(n) && n
                == b@.len() && final(self).written() == old(self).written() + b@),
            old(self).written().len() + b@.len() > old(self).cap() ==> (r is Err
                && final(self).written() == old(self).written()),
    {
        if b.len() > self.max || self.buf.len() > self.max - b.len() {
            return Err(cap_exceeded());
        }
        let mut i: usize = 0;
        while i < b.len()
            invariant
                i <= b@.len(),
                self.max == old(self).max,
                self.buf@ == old(self).buf@ + b@.take(i as int),
            decreases b.len() - i,
        {
            proof {
                assert(b@.take(i as int + 1) =~= b@.take(i as int).push(b@[i as int]));
            }
            self.buf.push(b[i]);
            i = i + 1;
        }
        proof {
            assert(b@.take(b@.len() as int) =~= b@);
        }
        Ok(b.len())
    }

    fn flush(&mut self) -> (r: std::io::Result<()>)
        ensures
            r is Ok,
            *final(self) == *old(self),
    {
        Ok(())
    }
}

} // verus!
