//! Temporary-file cleanup: the catalogue of cleanup targets, the decisions
//! taken on a cleanup request, and the texts reported for each target.
//!
//! Reading and deleting directory trees is I/O and happens outside the
//! library, driven step by step by the walk in [`crate::cleanup_walk`]; the
//! measurement or cleaning outcome of each target is handed to the
//! functions here.
use vstd::prelude::*;
use crate::text::{append_str, chars_of, dec, dec_u64, is_ascii_alpha, owned, str_eq, string_of, upper};

verus! {

/// A cleanup target as a scan reports it.
pub struct CleanupTarget {
    pub id: String,
    pub name: String,
    pub path: String,
    pub size_bytes: u64,
    pub file_count: u64,
    pub safety: String,
    pub scan_error: Option<String>,
    pub scan_warning: Option<String>,
}

/// What cleaning one requested target came to.
pub struct CleanupResult {
    pub id: String,
    pub success: bool,
    pub partial: bool,
    pub message: String,
    pub freed_bytes: u64,
    pub deleted_files: u64,
    pub skipped_items: u64,
}

/// A target of the catalogue with its directory resolved on this machine.
pub struct CleanupTargetSpec {
    pub id: String,
    pub name: String,
    pub path: String,
    pub safety: String,
}

/// What cleaning one directory tree did.
pub struct CleanOutcome {
    pub freed_bytes: u64,
    pub deleted_files: u64,
    pub skipped_items: u64,
    /// The directory did not exist, so there was nothing to clean.
    pub root_missing: bool,
}

/// What measuring one directory tree found.
pub struct DirectoryMeasurement {
    pub size_bytes: u64,
    pub file_count: u64,
    pub skipped_items: u64,
}

/// The directory a catalogue entry lives under.
#[derive(Clone, Copy, PartialEq, Eq, Structural)]
pub enum TargetBase {
    /// The user's local application-data directory.
    LocalData,
    /// The Windows directory.
    Windows,
}

/// Number of entries in the cleanup catalogue.
pub const CATALOG_LEN: usize = 7;

/// Catalogue entry `i`: id, display name, base directory, path below the
/// base, safety level.
pub open spec fn catalog_entry(i: int) -> (Seq<char>, Seq<char>, TargetBase, Seq<char>, Seq<char>) {
    if i == 0 {
        ("clean.user_temp"@, "User Temp Files"@, TargetBase::LocalData, "Temp"@, "green"@)
    } else if i == 1 {
        ("clean.system_temp"@, "System Temp Files"@, TargetBase::Windows, "Temp"@, "green"@)
    } else if i == 2 {
        ("clean.prefetch"@, "Prefetch Cache"@, TargetBase::Windows, "Prefetch"@, "green"@)
    } else if i == 3 {
        (
            "clean.thumbnails"@,
            "Thumbnail Cache"@,
            TargetBase::LocalData,
            "Microsoft\\Windows\\Explorer"@,
            "green"@,
        )
    } else if i == 4 {
        (
            "clean.error_reports"@,
            "Error Reports"@,
            TargetBase::LocalData,
            "Microsoft\\Windows\\WER"@,
            "green"@,
        )
    } else if i == 5 {
        (
            "clean.wu_cache"@,
            "Windows Update Cache"@,
            TargetBase::Windows,
            "SoftwareDistribution\\Download"@,
            "yellow"@,
        )
    } else {
        (
            "clean.delivery_opt"@,
            "Delivery Optimization"@,
            TargetBase::Windows,
            "SoftwareDistribution\\DeliveryOptimization"@,
            "yellow"@,
        )
    }
}

/// Catalogue entry `i`.
pub fn catalog_entry_at(i: usize) -> (r: (&'static str, &'static str, TargetBase, &'static str, &'static str))
    requires
        i < CATALOG_LEN,
    ensures
        (r.0@, r.1@, r.2, r.3@, r.4@) == catalog_entry(i as int),
{
    match i {
        0 => ("clean.user_temp", "User Temp Files", TargetBase::LocalData, "Temp", "green"),
        1 => ("clean.system_temp", "System Temp Files", TargetBase::Windows, "Temp", "green"),
        2 => ("clean.prefetch", "Prefetch Cache", TargetBase::Windows, "Prefetch", "green"),
        3 => (
            "clean.thumbnails",
            "Thumbnail Cache",
            TargetBase::LocalData,
            "Microsoft\\Windows\\Explorer",
            "green",
        ),
        4 => (
            "clean.error_reports",
            "Error Reports",
            TargetBase::LocalData,
            "Microsoft\\Windows\\WER",
            "green",
        ),
        5 => (
            "clean.wu_cache",
            "Windows Update Cache",
            TargetBase::Windows,
            "SoftwareDistribution\\Download",
            "yellow",
        ),
        _ => (
            "clean.delivery_opt",
            "Delivery Optimization",
            TargetBase::Windows,
            "SoftwareDistribution\\DeliveryOptimization",
            "yellow",
        ),
    }
}

/// The target of catalogue entry `i`, at the directory `path` resolved for it.
pub fn target_spec(i: usize, path: String) -> (r: CleanupTargetSpec)
    requires
        i < CATALOG_LEN,
    ensures
        r.id@ == catalog_entry(i as int).0,
        r.name@ == catalog_entry(i as int).1,
        r.path == path,
        r.safety@ == catalog_entry(i as int).4,
{
    let (id, name, _, _, safety) = catalog_entry_at(i);
    CleanupTargetSpec { id: owned(id), name: owned(name), path, safety: owned(safety) }
}

// ---------------------------------------------------------------------------
// Byte counts as text
// ---------------------------------------------------------------------------

pub open spec fn kib() -> nat {
    1024
}

pub open spec fn mib() -> nat {
    1024 * 1024
}

pub open spec fn gib() -> nat {
    1024 * 1024 * 1024
}

/// `n / d` rounded to the nearest integer, ties to the even one.
pub open spec fn div_round_even(n: nat, d: nat) -> nat {
    let q = n / d;
    let r = n % d;
    if 2 * r > d || (2 * r == d && q % 2 == 1) {
        q + 1
    } else {
        q
    }
}

/// The spacing of the binary64 values around `b` (for `b` below 2^64).
pub open spec fn f64_ulp(b: nat) -> nat {
    let p: nat = 0x20_0000_0000_0000;
    if b < p {
        1
    } else if b < 2 * p {
        2
    } else if b < 4 * p {
        4
    } else if b < 8 * p {
        8
    } else if b < 16 * p {
        16
    } else if b < 32 * p {
        32
    } else if b < 64 * p {
        64
    } else if b < 128 * p {
        128
    } else if b < 256 * p {
        256
    } else if b < 512 * p {
        512
    } else if b < 1024 * p {
        1024
    } else {
        2048
    }
}

/// `b` converted to the nearest binary64 value (ties to even), as the
/// integer that value equals.
pub open spec fn as_f64(b: nat) -> nat {
    div_round_even(b, f64_ulp(b)) * f64_ulp(b)
}

/// `b` bytes in GiB to one decimal place, counted in tenths: the binary64
/// value of `b`, divided by 2^30, rounded half to even as `{:.1}` does.
pub open spec fn gib_tenths(b: nat) -> nat {
    div_round_even(as_f64(b) * 10, gib())
}

/// `format_cleanup_bytes`: GiB with one decimal, else whole MiB, whole KiB,
/// `0 MB` for nothing, or the count of bytes.
pub open spec fn cleanup_bytes_text(b: nat) -> Seq<char> {
    if b >= gib() {
        dec(gib_tenths(b) / 10) + seq!['.'] + dec(gib_tenths(b) % 10) + " GB"@
    } else if b >= mib() {
        dec(b / mib()) + " MB"@
    } else if b >= kib() {
        dec(b / kib()) + " KB"@
    } else if b == 0 {
        "0 MB"@
    } else {
        dec(b) + " bytes"@
    }
}

fn ulp_of(b: u128) -> (u: u128)
    requires
        b < 0x1_0000_0000_0000_0000,
    ensures
        u == f64_ulp(b as nat),
        1 <= u <= 2048,
{
    let p: u128 = 0x20_0000_0000_0000;
    if b < p {
        1
    } else if b < 2 * p {
        2
    } else if b < 4 * p {
        4
    } else if b < 8 * p {
        8
    } else if b < 16 * p {
        16
    } else if b < 32 * p {
        32
    } else if b < 64 * p {
        64
    } else if b < 128 * p {
        128
    } else if b < 256 * p {
        256
    } else if b < 512 * p {
        512
    } else if b < 1024 * p {
        1024
    } else {
        2048
    }
}

fn round_even_div(n: u128, d: u128) -> (q: u128)
    requires
        0 < d <= 0x4000_0000,
        n < 0x1_0000_0000_0000_0000_0000_0000,
    ensures
        q == div_round_even(n as nat, d as nat),
        q <= n / d + 1,
{
    let q = n / d;
    let r = n % d;
    if 2 * r > d || (2 * r == d && q % 2 == 1) {
        q + 1
    } else {
        q
    }
}

/// A byte count as cleanup messages show it: `1.5 GB`, `3 MB`, `2 KB`,
/// `0 MB`, `512 bytes`.
pub fn format_cleanup_bytes(bytes: u64) -> (r: String)
    ensures
        r@ == cleanup_bytes_text(bytes as nat),
{
    let mut v: Vec<char> = Vec::new();
    if bytes >= 1024 * 1024 * 1024 {
        let b = bytes as u128;
        let u = ulp_of(b);
        let q = round_even_div(b, u);
        proof {
            vstd::arithmetic::div_mod::lemma_fundamental_div_mod(b as int, u as int);
            assert(q * u <= b + u) by (nonlinear_arith)
                requires
                    q <= b / u + 1,
                    b == u * (b / u) + b % u,
                    b % u >= 0,
                    u >= 1,
            ;
        }
        let m = q * u;
        let t = round_even_div(m * 10, 1024 * 1024 * 1024);
        proof {
            assert(t <= 0x10_0000_0000_0000) by (nonlinear_arith)
                requires
                    t <= (m * 10) as int / 1073741824int + 1,
                    m <= 0x1_0000_0000_0000_0000 + 2048,
            ;
        }
        let whole = dec_u64((t / 10) as u64);
        let frac = dec_u64((t % 10) as u64);
        append_str(&mut v, whole.as_str());
        v.push('.');
        append_str(&mut v, frac.as_str());
        append_str(&mut v, " GB");
    } else if bytes >= 1024 * 1024 {
        let d = dec_u64(bytes / (1024 * 1024));
        append_str(&mut v, d.as_str());
        append_str(&mut v, " MB");
    } else if bytes >= 1024 {
        let d = dec_u64(bytes / 1024);
        append_str(&mut v, d.as_str());
        append_str(&mut v, " KB");
    } else if bytes == 0 {
        append_str(&mut v, "0 MB");
    } else {
        let d = dec_u64(bytes);
        append_str(&mut v, d.as_str());
        append_str(&mut v, " bytes");
    }
    proof {
        assert(v@ =~= cleanup_bytes_text(bytes as nat));
    }
    string_of(v.as_slice())
}

// ---------------------------------------------------------------------------
// Messages and results
// ---------------------------------------------------------------------------

/// The message of a cleaning outcome.
pub open spec fn outcome_message(o: CleanOutcome) -> Seq<char> {
    if o.root_missing {
        "Already clean (folder does not exist)."@
    } else if o.skipped_items == 0 {
        "Cleaned "@ + cleanup_bytes_text(o.freed_bytes as nat)
    } else {
        "Cleaned "@ + cleanup_bytes_text(o.freed_bytes as nat) + "; skipped "@ + dec(
            o.skipped_items as nat,
        ) + " in-use, protected, or linked "@ + (if o.skipped_items == 1 {
            "item"@
        } else {
            "items"@
        }) + "."@
    }
}

impl CleanOutcome {
    /// What the user is told of this outcome: nothing to clean, the amount
    /// freed, and how many items were left alone.
    pub fn message(&self) -> (r: String)
        ensures
            r@ == outcome_message(*self),
    {
        if self.root_missing {
            return owned("Already clean (folder does not exist).");
        }
        let cleaned = format_cleanup_bytes(self.freed_bytes);
        let mut v: Vec<char> = Vec::new();
        append_str(&mut v, "Cleaned ");
        append_str(&mut v, cleaned.as_str());
        if self.skipped_items == 0 {
            return string_of(v.as_slice());
        }
        append_str(&mut v, "; skipped ");
        let n = dec_u64(self.skipped_items);
        append_str(&mut v, n.as_str());
        append_str(&mut v, " in-use, protected, or linked ");
        if self.skipped_items == 1 {
            append_str(&mut v, "item");
        } else {
            append_str(&mut v, "items");
        }
        append_str(&mut v, ".");
        proof {
            assert(v@ =~= outcome_message(*self));
        }
        string_of(v.as_slice())
    }
}

/// `r` reports cleaning target `id`: `None` when the id is not in the
/// catalogue, else what cleaning its directory came to.
pub open spec fn cleanup_result_is(
    r: CleanupResult,
    id: Seq<char>,
    outcome: Option<Result<CleanOutcome, String>>,
) -> bool {
    &&& r.id@ == id
    &&& match outcome {
        None => {
            &&& !r.success
            &&& !r.partial
            &&& r.message@ == "Unknown cleanup target."@
            &&& r.freed_bytes == 0 && r.deleted_files == 0 && r.skipped_items == 0
        },
        Some(Ok(o)) => {
            &&& r.success
            &&& r.partial == (o.skipped_items > 0)
            &&& r.message@ == outcome_message(o)
            &&& r.freed_bytes == o.freed_bytes
            &&& r.deleted_files == o.deleted_files
            &&& r.skipped_items == o.skipped_items
        },
        Some(Err(e)) => {
            &&& !r.success
            &&& !r.partial
            &&& r.message@ == e@
            &&& r.freed_bytes == 0 && r.deleted_files == 0 && r.skipped_items == 0
        },
    }
}

/// The answer for an id that is not in the catalogue; nothing is scanned.
pub fn unknown_target_result(id: &str) -> (r: CleanupResult)
    ensures
        cleanup_result_is(r, id@, None),
{
    CleanupResult {
        id: owned(id),
        success: false,
        partial: false,
        message: owned("Unknown cleanup target."),
        freed_bytes: 0,
        deleted_files: 0,
        skipped_items: 0,
    }
}

/// The answer for a target from what cleaning its directory came to.
pub fn cleaned_target_result(id: &str, outcome: &Result<CleanOutcome, String>) -> (r: CleanupResult)
    ensures
        cleanup_result_is(r, id@, Some(*outcome)),
{
    match outcome {
        Ok(o) => CleanupResult {
            id: owned(id),
            success: true,
            partial: o.skipped_items > 0,
            message: o.message(),
            freed_bytes: o.freed_bytes,
            deleted_files: o.deleted_files,
            skipped_items: o.skipped_items,
        },
        Err(e) => CleanupResult {
            id: owned(id),
            success: false,
            partial: false,
            message: owned(e.as_str()),
            freed_bytes: 0,
            deleted_files: 0,
            skipped_items: 0,
        },
    }
}

/// Whether `id` names a target of `specs`.
pub open spec fn is_known(specs: Seq<CleanupTargetSpec>, id: Seq<char>) -> bool {
    exists|k: int| 0 <= k < specs.len() && #[trigger] specs[k].id@ == id
}

/// The first target of `specs` with id `id`.
pub fn find_target(specs: &[CleanupTargetSpec], id: &str) -> (r: Option<usize>)
    ensures
        r matches Some(k) ==> k < specs@.len() && specs@[k as int].id@ == id@,
        r is None <==> !is_known(specs@, id@),
{
    let mut k: usize = 0;
    while k < specs.len()
        invariant
            k <= specs@.len(),
            forall|j: int| 0 <= j < k ==> #[trigger] specs@[j].id@ != id@,
        decreases specs.len() - k,
    {
        if str_eq(specs[k].id.as_str(), id) {
            return Some(k);
        }
        k = k + 1;
    }
    None
}

/// How many of `ids` name a target of `specs`.
pub open spec fn known_count(ids: Seq<String>, specs: Seq<CleanupTargetSpec>) -> nat
    decreases ids.len(),
{
    if ids.len() == 0 {
        0
    } else {
        known_count(ids.drop_last(), specs) + if is_known(specs, ids.last()@) {
            1nat
        } else {
            0nat
        }
    }
}

/// For each requested id, in order, the index of its target in `specs`, or
/// `None` when it names none; the targets named are the ones to clean.
pub fn plan_cleanup(ids: &[String], specs: &[CleanupTargetSpec]) -> (r: Vec<Option<usize>>)
    ensures
        r@.len() == ids@.len(),
        forall|i: int|
            0 <= i < ids@.len() ==> match #[trigger] r@[i] {
                Some(k) => k < specs@.len() && specs@[k as int].id@ == ids@[i]@,
                None => !is_known(specs@, ids@[i]@),
            },
{
    let mut out: Vec<Option<usize>> = Vec::new();
    let mut i: usize = 0;
    while i < ids.len()
        invariant
            i <= ids@.len(),
            out@.len() == i,
            forall|j: int|
                0 <= j < i ==> match #[trigger] out@[j] {
                    Some(k) => k < specs@.len() && specs@[k as int].id@ == ids@[j]@,
                    None => !is_known(specs@, ids@[j]@),
                },
        decreases ids.len() - i,
    {
        out.push(find_target(specs, ids[i].as_str()));
        i = i + 1;
    }
    out
}

/// The answers to a cleanup request for `ids`, in order. `outcomes` holds,
/// in order, what cleaning came to for each id that names a target of
/// `specs`; an id that names none is answered as unknown without scanning.
pub fn clean_targets(
    ids: &[String],
    specs: &[CleanupTargetSpec],
    outcomes: &[Result<CleanOutcome, String>],
) -> (r: Vec<CleanupResult>)
    requires
        outcomes@.len() == known_count(ids@, specs@),
    ensures
        r@.len() == ids@.len(),
        forall|i: int|
            0 <= i < ids@.len() ==> cleanup_result_is(
                #[trigger] r@[i],
                ids@[i]@,
                if is_known(specs@, ids@[i]@) {
                    Some(outcomes@[known_count(ids@.take(i), specs@) as int])
                } else {
                    None
                },
            ),
{
    let mut out: Vec<CleanupResult> = Vec::new();
    let mut used: usize = 0;
    let mut i: usize = 0;
    proof {
        lemma_known_count_prefix(ids@, specs@, ids@.len() as int);
    }
    while i < ids.len()
        invariant
            i <= ids@.len(),
            out@.len() == i,
            used == known_count(ids@.take(i as int), specs@),
            outcomes@.len() == known_count(ids@, specs@),
            forall|j: int|
                0 <= j < i ==> cleanup_result_is(
                    #[trigger] out@[j],
                    ids@[j]@,
                    if is_known(specs@, ids@[j]@) {
                        Some(outcomes@[known_count(ids@.take(j), specs@) as int])
                    } else {
                        None
                    },
                ),
        decreases ids.len() - i,
    {
        proof {
            assert(ids@.take(i + 1).drop_last() =~= ids@.take(i as int));
            lemma_known_count_prefix(ids@, specs@, i + 1);
        }
        match find_target(specs, ids[i].as_str()) {
            Some(_) => {
                out.push(cleaned_target_result(ids[i].as_str(), &outcomes[used]));
                used = used + 1;
            },
            None => {
                out.push(unknown_target_result(ids[i].as_str()));
            },
        }
        i = i + 1;
    }
    out
}

/// Counting over a prefix never exceeds counting over the whole.
proof fn lemma_known_count_prefix(ids: Seq<String>, specs: Seq<CleanupTargetSpec>, n: int)
    requires
        0 <= n <= ids.len(),
    ensures
        known_count(ids.take(n), specs) <= known_count(ids, specs),
    decreases ids.len() - n,
{
    if n < ids.len() {
        lemma_known_count_prefix(ids, specs, n + 1);
        assert(ids.take(n + 1).drop_last() =~= ids.take(n));
    } else {
        assert(ids.take(n) =~= ids);
    }
}

// ---------------------------------------------------------------------------
// Scans
// ---------------------------------------------------------------------------

/// `t` reports target `s` from what measuring its directory found.
pub open spec fn scanned_target_is(
    t: CleanupTarget,
    s: CleanupTargetSpec,
    m: Result<DirectoryMeasurement, String>,
) -> bool {
    &&& t.id@ == s.id@
    &&& t.name@ == s.name@
    &&& t.path@ == s.path@
    &&& t.safety@ == s.safety@
    &&& match m {
        Ok(d) => {
            &&& t.size_bytes == d.size_bytes
            &&& t.file_count == d.file_count
            &&& t.scan_error is None
            &&& if d.skipped_items > 0 {
                t.scan_warning matches Some(w) && w@ == "Size estimate is partial; "@ + dec(
                    d.skipped_items as nat,
                ) + " inaccessible or linked item(s) were skipped."@
            } else {
                t.scan_warning is None
            }
        },
        Err(e) => {
            &&& t.size_bytes == 0 && t.file_count == 0
            &&& t.scan_error matches Some(x) && x@ == e@
            &&& t.scan_warning is None
        },
    }
}

/// Target `s` as a scan reports it, from what measuring its directory found.
pub fn scanned_target(s: &CleanupTargetSpec, m: &Result<DirectoryMeasurement, String>) -> (r:
    CleanupTarget)
    ensures
        scanned_target_is(r, *s, *m),
{
    let (size, count, scan_error, scan_warning) = match m {
        Ok(d) => {
            let warning = if d.skipped_items > 0 {
                let mut v: Vec<char> = Vec::new();
                append_str(&mut v, "Size estimate is partial; ");
                let n = dec_u64(d.skipped_items);
                append_str(&mut v, n.as_str());
                append_str(&mut v, " inaccessible or linked item(s) were skipped.");
                Some(string_of(v.as_slice()))
            } else {
                None
            };
            (d.size_bytes, d.file_count, None, warning)
        },
        Err(e) => (0, 0, Some(owned(e.as_str())), None),
    };
    CleanupTarget {
        id: owned(s.id.as_str()),
        name: owned(s.name.as_str()),
        path: owned(s.path.as_str()),
        size_bytes: size,
        file_count: count,
        safety: owned(s.safety.as_str()),
        scan_error,
        scan_warning,
    }
}

/// Every target of `specs`, in order, from the measurement of its directory.
pub fn scan_targets(
    specs: &[CleanupTargetSpec],
    measurements: &[Result<DirectoryMeasurement, String>],
) -> (r: Vec<CleanupTarget>)
    requires
        measurements@.len() == specs@.len(),
    ensures
        r@.len() == specs@.len(),
        forall|i: int|
            0 <= i < specs@.len() ==> scanned_target_is(
                #[trigger] r@[i],
                specs@[i],
                measurements@[i],
            ),
{
    let mut out: Vec<CleanupTarget> = Vec::new();
    let mut i: usize = 0;
    while i < specs.len()
        invariant
            i <= specs@.len(),
            measurements@.len() == specs@.len(),
            out@.len() == i,
            forall|j: int|
                0 <= j < i ==> scanned_target_is(#[trigger] out@[j], specs@[j], measurements@[j]),
        decreases specs.len() - i,
    {
        out.push(scanned_target(&specs[i], &measurements[i]));
        i = i + 1;
    }
    out
}

// ---------------------------------------------------------------------------
// Directory entry names
// ---------------------------------------------------------------------------

/// The UTF-16 names `.` and `..`.
pub open spec fn is_dot_name(name: Seq<u16>) -> bool {
    name == seq![46u16] || name == seq![46u16, 46u16]
}

/// Whether a directory entry name is `.` or `..`.
pub fn is_dot_entry(name: &[u16]) -> (r: bool)
    ensures
        r == is_dot_name(name@),
{
    proof {
        if name@.len() == 1 {
            assert(name@ =~= seq![name@[0]]);
        }
        if name@.len() == 2 {
            assert(name@ =~= seq![name@[0], name@[1]]);
        }
    }
    (name.len() == 1 && name[0] == 46) || (name.len() == 2 && name[0] == 46 && name[1] == 46)
}

/// A name that may be opened below a directory: not empty, not `.` or `..`,
/// with no NUL, `/`, `:` or `\`.
pub open spec fn safe_child_name(name: Seq<u16>) -> bool {
    &&& name.len() > 0
    &&& !is_dot_name(name)
    &&& forall|i: int|
        0 <= i < name.len() ==> {
            let u = #[trigger] name[i];
            u != 0 && u != 47 && u != 58 && u != 92
        }
}

/// Whether a directory entry name is one the cleaner may open below its
/// parent.
pub fn is_safe_child_name(name: &[u16]) -> (r: bool)
    ensures
        r == safe_child_name(name@),
{
    if name.len() == 0 || is_dot_entry(name) {
        return false;
    }
    let mut i: usize = 0;
    while i < name.len()
        invariant
            i <= name@.len(),
            forall|k: int|
                0 <= k < i ==> {
                    let u = #[trigger] name@[k];
                    u != 0 && u != 47 && u != 58 && u != 92
                },
        decreases name.len() - i,
    {
        let u = name[i];
        if u == 0 || u == 47 || u == 58 || u == 92 {
            return false;
        }
        i = i + 1;
    }
    true
}


// ---------------------------------------------------------------------------
// Walking a cleanup tree
// ---------------------------------------------------------------------------

/// Directories a walk keeps waiting at once; one more is skipped.
pub const MAX_PENDING_DIRECTORIES: usize = 8_192;
/// The directory bit of a Windows file-attribute word.
pub const FILE_ATTRIBUTE_DIRECTORY: u32 = 0x10;
/// The reparse-point (link) bit of a Windows file-attribute word.
pub const FILE_ATTRIBUTE_REPARSE_POINT: u32 = 0x400;

/// What a walk does with one directory entry.
#[derive(Debug, Clone, Copy, PartialEq, Eq, Structural)]
pub enum EntryClass {
    /// `.` or `..`: not an entry of the tree.
    Ignore,
    /// An unsafe name or a link: left alone and counted as skipped.
    Skip,
    Directory,
    File,
}

pub open spec fn entry_class(name: Seq<u16>, attributes: u32) -> EntryClass {
    if is_dot_name(name) {
        EntryClass::Ignore
    } else if !safe_child_name(name) || attributes & FILE_ATTRIBUTE_REPARSE_POINT != 0 {
        EntryClass::Skip
    } else if attributes & FILE_ATTRIBUTE_DIRECTORY != 0 {
        EntryClass::Directory
    } else {
        EntryClass::File
    }
}

/// A link is never walked into or deleted through: an entry that carries
/// the reparse-point bit is passed over or skipped, never read as a
/// directory or a file.
pub proof fn links_are_never_followed(name: Seq<u16>, attributes: u32)
    requires
        attributes & FILE_ATTRIBUTE_REPARSE_POINT != 0,
    ensures
        entry_class(name, attributes) == EntryClass::Ignore || entry_class(name, attributes)
            == EntryClass::Skip,
{
}

/// How a walk treats a directory entry with this name and attribute word.
pub fn classify_entry(name: &[u16], attributes: u32) -> (r: EntryClass)
    ensures
        r == entry_class(name@, attributes),
{
    if is_dot_entry(name) {
        EntryClass::Ignore
    } else if !is_safe_child_name(name) || attributes & FILE_ATTRIBUTE_REPARSE_POINT != 0 {
        EntryClass::Skip
    } else if attributes & FILE_ATTRIBUTE_DIRECTORY != 0 {
        EntryClass::Directory
    } else {
        EntryClass::File
    }
}

/// A directory enumeration failed: on the root before any entry it ends the
/// walk with this message, elsewhere (`None`) the directory is counted as
/// skipped and the walk goes on.
pub fn enumeration_failure(is_root: bool, enumerated_any: bool, error: &str) -> (r: Option<String>)
    ensures
        is_root && !enumerated_any ==> (r matches Some(m) && m@
            == "Could not enumerate cleanup folder: "@ + error@),
        !(is_root && !enumerated_any) ==> r is None,
{
    if is_root && !enumerated_any {
        let mut v: Vec<char> = Vec::new();
        append_str(&mut v, "Could not enumerate cleanup folder: ");
        append_str(&mut v, error);
        Some(string_of(v.as_slice()))
    } else {
        None
    }
}

/// Whether a further child directory may wait, with `pending` directories
/// already waiting and `queued` found in the directory being read.
pub fn admits_directory(pending: usize, queued: usize) -> (r: bool)
    ensures
        r == (pending + queued < MAX_PENDING_DIRECTORIES),
{
    pending.saturating_add(queued) < MAX_PENDING_DIRECTORIES
}

pub open spec fn sat_add(a: u64, b: u64) -> u64 {
    if a + b > u64::MAX {
        u64::MAX
    } else {
        (a + b) as u64
    }
}

impl DirectoryMeasurement {
    /// Nothing measured yet.
    pub fn empty() -> (r: DirectoryMeasurement)
        ensures
            r.size_bytes == 0 && r.file_count == 0 && r.skipped_items == 0,
    {
        DirectoryMeasurement { size_bytes: 0, file_count: 0, skipped_items: 0 }
    }

    /// One more file of `length` bytes (totals saturate).
    pub fn add_file(&mut self, length: u64)
        ensures
            final(self).size_bytes == sat_add(old(self).size_bytes, length),
            final(self).file_count == sat_add(old(self).file_count, 1),
            final(self).skipped_items == old(self).skipped_items,
    {
        self.size_bytes = self.size_bytes.saturating_add(length);
        self.file_count = self.file_count.saturating_add(1);
    }

    /// One more item left alone (the count saturates).
    pub fn add_skipped(&mut self)
        ensures
            final(self).size_bytes == old(self).size_bytes,
            final(self).file_count == old(self).file_count,
            final(self).skipped_items == sat_add(old(self).skipped_items, 1),
    {
        self.skipped_items = self.skipped_items.saturating_add(1);
    }
}

impl CleanOutcome {
    /// Nothing cleaned yet; `root_missing` when the directory does not exist.
    pub fn empty(root_missing: bool) -> (r: CleanOutcome)
        ensures
            r.freed_bytes == 0 && r.deleted_files == 0 && r.skipped_items == 0,
            r.root_missing == root_missing,
    {
        CleanOutcome { freed_bytes: 0, deleted_files: 0, skipped_items: 0, root_missing }
    }

    /// One more deleted file of `length` bytes (totals saturate).
    pub fn add_deleted(&mut self, length: u64)
        ensures
            final(self).freed_bytes == sat_add(old(self).freed_bytes, length),
            final(self).deleted_files == sat_add(old(self).deleted_files, 1),
            final(self).skipped_items == old(self).skipped_items,
            final(self).root_missing == old(self).root_missing,
    {
        self.freed_bytes = self.freed_bytes.saturating_add(length);
        self.deleted_files = self.deleted_files.saturating_add(1);
    }

    /// One more item left alone (the count saturates).
    pub fn add_skipped(&mut self)
        ensures
            final(self).freed_bytes == old(self).freed_bytes,
            final(self).deleted_files == old(self).deleted_files,
            final(self).skipped_items == sat_add(old(self).skipped_items, 1),
            final(self).root_missing == old(self).root_missing,
    {
        self.skipped_items = self.skipped_items.saturating_add(1);
    }
}


// ---------------------------------------------------------------------------
// The target folder's path
// ---------------------------------------------------------------------------

pub open spec fn is_path_sep(c: char) -> bool {
    c == '\\' || c == '/'
}

/// A path component that is kept: not empty and not `.`.
pub open spec fn kept_component(x: Seq<char>) -> bool {
    x.len() > 0 && x != seq!['.']
}

/// The components read so far and the one being read, over `p`.
pub open spec fn components_acc(p: Seq<char>) -> (Seq<Seq<char>>, Seq<char>)
    decreases p.len(),
{
    if p.len() == 0 {
        (Seq::empty(), Seq::empty())
    } else {
        let (done, cur) = components_acc(p.drop_last());
        if is_path_sep(p.last()) {
            (if kept_component(cur) {
                done.push(cur)
            } else {
                done
            }, Seq::empty())
        } else {
            (done, cur.push(p.last()))
        }
    }
}

/// The components of the path text after a drive root, as a Windows path
/// reads them: separated by `\` or `/`, repeated separators and `.`
/// components dropped.
pub open spec fn path_components(p: Seq<char>) -> Seq<Seq<char>> {
    let (done, cur) = components_acc(p);
    if kept_component(cur) {
        done.push(cur)
    } else {
        done
    }
}

/// A component that names a child of its folder (as [`safe_child_name`]
/// says of its UTF-16 form).
pub open spec fn safe_component(x: Seq<char>) -> bool {
    &&& x.len() > 0
    &&& x != seq!['.'] && x != seq!['.', '.']
    &&& forall|i: int| 0 <= i < x.len() ==> {
        let c = #[trigger] x[i];
        c != '\0' && c != '/' && c != ':' && c != '\\'
    }
}

/// A cleanup target's path taken apart: the drive letter (upper case) and
/// the folder names below the drive root. Only an absolute path on a local
/// drive (`X:\...`) whose every component names a child is accepted, and
/// never a drive root itself.
pub open spec fn root_parts(p: Seq<char>) -> Result<(char, Seq<Seq<char>>), Seq<char>> {
    if !(p.len() >= 3 && is_ascii_alpha(p[0]) && p[1] == ':' && is_path_sep(p[2])) {
        Err("Cleanup target must be an absolute local drive path."@)
    } else {
        let cs = path_components(p.skip(3));
        if exists|i: int| 0 <= i < cs.len() && !safe_component(#[trigger] cs[i]) {
            Err("Cleanup target contains an unsafe path component."@)
        } else if cs.len() == 0 {
            Err("Refusing to clean a drive root."@)
        } else {
            Ok((upper(p[0]), cs))
        }
    }
}

fn is_path_sep_char(c: char) -> (r: bool)
    ensures
        r == is_path_sep(c),
{
    c == '\\' || c == '/'
}

fn kept(x: &Vec<char>) -> (r: bool)
    ensures
        r == kept_component(x@),
{
    if x.len() == 0 {
        return false;
    }
    if x.len() == 1 && x[0] == '.' {
        proof {
            assert(x@ =~= seq!['.']);
        }
        return false;
    }
    proof {
        if x@ == seq!['.'] {
            assert(x@.len() == 1 && x@[0] == '.');
        }
    }
    true
}

fn component_is_safe(x: &Vec<char>) -> (r: bool)
    ensures
        r == safe_component(x@),
{
    if x.len() == 0 {
        return false;
    }
    if (x.len() == 1 && x[0] == '.') || (x.len() == 2 && x[0] == '.' && x[1] == '.') {
        proof {
            if x.len() == 1 {
                assert(x@ =~= seq!['.']);
            } else {
                assert(x@ =~= seq!['.', '.']);
            }
        }
        return false;
    }
    let mut i: usize = 0;
    while i < x.len()
        invariant
            i <= x@.len(),
            forall|k: int| 0 <= k < i ==> {
                let c = #[trigger] x@[k];
                c != '\0' && c != '/' && c != ':' && c != '\\'
            },
        decreases x.len() - i,
    {
        let c = x[i];
        if c == '\0' || c == '/' || c == ':' || c == '\\' {
            return false;
        }
        i = i + 1;
    }
    proof {
        if x@ == seq!['.'] {
            assert(x@.len() == 1 && x@[0] == '.');
        }
        if x@ == seq!['.', '.'] {
            assert(x@.len() == 2 && x@[0] == '.' && x@[1] == '.');
        }
    }
    true
}

pub open spec fn char_seqs(v: Seq<Vec<char>>) -> Seq<Seq<char>> {
    v.map_values(|x: Vec<char>| x@)
}

/// Take a cleanup target's path apart into its drive letter and the folder
/// names below the drive root (see [`root_parts`]).
pub fn cleanup_root_parts(path: &str) -> (r: Result<(char, Vec<Vec<char>>), String>)
    ensures
        match root_parts(path@) {
            Ok((d, cs)) => r matches Ok((dd, v)) && dd == d && char_seqs(v@) == cs,
            Err(m) => r matches Err(x) && x@ == m,
        },
{
    let p = chars_of(path);
    if !(p.len() >= 3 && (('a' <= p[0] && p[0] <= 'z') || ('A' <= p[0] && p[0] <= 'Z')) && p[1]
        == ':' && is_path_sep_char(p[2])) {
        return Err(owned("Cleanup target must be an absolute local drive path."));
    }
    let ghost rest = p@.skip(3);
    let mut done: Vec<Vec<char>> = Vec::new();
    let mut cur: Vec<char> = Vec::new();
    let mut i: usize = 3;
    while i < p.len()
        invariant
            3 <= i <= p@.len(),
            rest == p@.skip(3),
            (char_seqs(done@), cur@) == components_acc(rest.take(i - 3)),
        decreases p.len() - i,
    {
        let c = p[i];
        proof {
            assert(rest.take(i + 1 - 3).drop_last() =~= rest.take(i - 3));
            assert(rest.take(i + 1 - 3).last() == c);
        }
        if is_path_sep_char(c) {
            if kept(&cur) {
                let ghost before = char_seqs(done@);
                done.push(cur);
                proof {
                    assert(char_seqs(done@) =~= before.push(done@.last()@));
                }
            }
            cur = Vec::new();
            proof {
                assert(cur@ =~= Seq::<char>::empty());
            }
        } else {
            cur.push(c);
        }
        i = i + 1;
    }
    proof {
        assert(rest.take(i - 3) =~= rest);
    }
    if kept(&cur) {
        let ghost before = char_seqs(done@);
        done.push(cur);
        proof {
            assert(char_seqs(done@) =~= before.push(done@.last()@));
        }
    }
    let ghost cs = path_components(rest);
    let mut k: usize = 0;
    while k < done.len()
        invariant
            k <= done@.len(),
            char_seqs(done@) == cs,
            cs == path_components(rest),
            rest == p@.skip(3),
            p@ == path@,
            p@.len() >= 3 && is_ascii_alpha(p@[0]) && p@[1] == ':' && is_path_sep(p@[2]),
            forall|j: int| 0 <= j < k ==> safe_component(#[trigger] cs[j]),
        decreases done.len() - k,
    {
        if !component_is_safe(&done[k]) {
            proof {
                assert(!safe_component(cs[k as int]));
            }
            return Err(owned("Cleanup target contains an unsafe path component."));
        }
        k = k + 1;
    }
    if done.len() == 0 {
        return Err(owned("Refusing to clean a drive root."));
    }
    let d = p[0];
    let letter = if 'a' <= d && d <= 'z' {
        ((d as u32) - 32) as u8 as char
    } else {
        d
    };
    Ok((letter, done))
}

} // verus!
