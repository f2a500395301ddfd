//! Driver identity domain types and normalization helpers.
//!
//! Pure: the identity contracts every later driver slice consumes, plus the
//! bounds that constrain the PnPUtil parser.
use vstd::prelude::*;
use crate::text::{chars_of, opt_str_view, eq_ic, lead_ws, lemma_lead_ws_bound, lemma_trail_ws_bound, lemma_trim_idem, lower, str_eq_ignore_case, substring, trail_ws, trim, trim_range, trim_start};

verus! {

/// Maximum bytes of decoded console output the PnPUtil parser accepts.
pub const MAX_OUTPUT_BYTES: usize = 16_777_216;
/// Maximum number of device instances in one enumeration.
pub const MAX_DEVICES: usize = 4_096;
/// Maximum hardware IDs retained for one device instance.
pub const MAX_HARDWARE_IDS_PER_DEVICE: usize = 64;
/// Maximum compatible IDs retained for one device instance.
pub const MAX_COMPATIBLE_IDS_PER_DEVICE: usize = 256;
/// Maximum matching-driver entries retained for one device instance.
pub const MAX_MATCHING_DRIVERS_PER_DEVICE: usize = 128;
/// Maximum character length of any single scalar field value.
pub const MAX_FIELD_LENGTH: usize = 1_024;
/// Maximum character length of a device-instance identifier.
pub const MAX_INSTANCE_ID_LENGTH: usize = 1_024;

/// A single Windows device instance and its exact identity fields.
#[derive(Debug, Clone, PartialEq, Eq)]
pub struct DeviceIdentity {
    /// Device-instance primary key. Never replaced by the first hardware ID.
    pub instance_id: String,
    /// Ordered, most-specific-first hardware IDs (original display casing).
    pub hardware_ids: Vec<String>,
    /// Ordered compatible IDs, kept separate from hardware IDs.
    pub compatible_ids: Vec<String>,
    pub class_guid: Option<String>,
    pub class_name: Option<String>,
    pub description: Option<String>,
    pub manufacturer: Option<String>,
    /// Windows PnP problem code, when the source exposes one (0 is valid).
    pub problem_code: Option<u32>,
    /// The installed driver, when deterministically marked by Windows output.
    pub installed: Option<InstalledDriver>,
    /// All matching-driver entries in Windows-reported order.
    pub matching: Vec<MatchingDriver>,
}

/// Windows-reported information for the installed (current) driver.
#[derive(Debug, Clone, PartialEq, Eq)]
pub struct InstalledDriver {
    pub inf_name: String,
    pub original_inf_name: Option<String>,
    pub provider: Option<String>,
    pub class: Option<String>,
    pub driver_date: Option<String>,
    pub driver_version: Option<String>,
    pub signer: Option<String>,
    /// Windows-reported matching rank. Lower is better.
    pub rank: Option<u32>,
}

/// A single matching-driver candidate (installed or outranked alternative).
#[derive(Debug, Clone, PartialEq, Eq)]
pub struct MatchingDriver {
    pub inf_name: String,
    pub provider: Option<String>,
    pub driver_date: Option<String>,
    pub driver_version: Option<String>,
    pub rank: Option<u32>,
}

/// An [`InstalledDriver`] as plain values.
#[verifier::ext_equal]
pub struct InstalledDriverView {
    pub inf_name: Seq<char>,
    pub original_inf_name: Option<Seq<char>>,
    pub provider: Option<Seq<char>>,
    pub class: Option<Seq<char>>,
    pub driver_date: Option<Seq<char>>,
    pub driver_version: Option<Seq<char>>,
    pub signer: Option<Seq<char>>,
    pub rank: Option<u32>,
}

impl View for InstalledDriver {
    type V = InstalledDriverView;

    open spec fn view(&self) -> InstalledDriverView {
        InstalledDriverView {
            inf_name: self.inf_name@,
            original_inf_name: opt_str_view(self.original_inf_name),
            provider: opt_str_view(self.provider),
            class: opt_str_view(self.class),
            driver_date: opt_str_view(self.driver_date),
            driver_version: opt_str_view(self.driver_version),
            signer: opt_str_view(self.signer),
            rank: self.rank,
        }
    }
}

/// A [`MatchingDriver`] as plain values.
#[verifier::ext_equal]
pub struct MatchingDriverView {
    pub inf_name: Seq<char>,
    pub provider: Option<Seq<char>>,
    pub driver_date: Option<Seq<char>>,
    pub driver_version: Option<Seq<char>>,
    pub rank: Option<u32>,
}

impl View for MatchingDriver {
    type V = MatchingDriverView;

    open spec fn view(&self) -> MatchingDriverView {
        MatchingDriverView {
            inf_name: self.inf_name@,
            provider: opt_str_view(self.provider),
            driver_date: opt_str_view(self.driver_date),
            driver_version: opt_str_view(self.driver_version),
            rank: self.rank,
        }
    }
}

/// A [`DeviceIdentity`] as plain values.
#[verifier::ext_equal]
pub struct DeviceIdentityView {
    pub instance_id: Seq<char>,
    pub hardware_ids: Seq<Seq<char>>,
    pub compatible_ids: Seq<Seq<char>>,
    pub class_guid: Option<Seq<char>>,
    pub class_name: Option<Seq<char>>,
    pub description: Option<Seq<char>>,
    pub manufacturer: Option<Seq<char>>,
    pub problem_code: Option<u32>,
    pub installed: Option<InstalledDriverView>,
    pub matching: Seq<MatchingDriverView>,
}

pub open spec fn texts_view(v: Seq<String>) -> Seq<Seq<char>> {
    v.map_values(|s: String| s@)
}

impl View for DeviceIdentity {
    type V = DeviceIdentityView;

    open spec fn view(&self) -> DeviceIdentityView {
        DeviceIdentityView {
            instance_id: self.instance_id@,
            hardware_ids: texts_view(self.hardware_ids@),
            compatible_ids: texts_view(self.compatible_ids@),
            class_guid: opt_str_view(self.class_guid),
            class_name: opt_str_view(self.class_name),
            description: opt_str_view(self.description),
            manufacturer: opt_str_view(self.manufacturer),
            problem_code: self.problem_code,
            installed: match self.installed {
                Some(i) => Some(i@),
                None => None,
            },
            matching: self.matching@.map_values(|m: MatchingDriver| m@),
        }
    }
}

/// The devices of an enumeration as plain values.
pub open spec fn identities_view(v: Seq<DeviceIdentity>) -> Seq<DeviceIdentityView> {
    v.map_values(|d: DeviceIdentity| d@)
}

/// Deterministic local machine facts needed by later slices.
#[derive(Debug, Clone, PartialEq, Eq)]
pub struct MachineContext {
    pub arch: String,
    pub os_build: String,
    pub os_version: String,
}

/// The identity-inventory result.
#[derive(Debug, Clone, PartialEq, Eq)]
pub struct DriverIdentityReport {
    pub complete: bool,
    pub degraded: bool,
    pub error: Option<String>,
    pub machine: MachineContext,
    pub devices: Vec<DeviceIdentity>,
}

/// Trim surrounding (Unicode) whitespace only; internal backslashes, `&`,
/// `_`, order and casing are preserved. `None` for an empty result.
pub fn normalize_id(raw: &str) -> (r: Option<String>)
    ensures
        trim(raw@).len() == 0 ==> r is None,
        trim(raw@).len() > 0 ==> (r matches Some(s) && s@ == trim(raw@)),
{
    let v = chars_of(raw);
    let (a, b) = trim_range(v.as_slice());
    if a == b {
        None
    } else {
        Some(substring(v.as_slice(), a, b))
    }
}

/// ASCII case-insensitive equality of two device IDs.
pub fn ids_equal_ci(a: &str, b: &str) -> (r: bool)
    ensures
        r == eq_ic(a@, b@),
{
    str_eq_ignore_case(a, b)
}

/// Normalizing is idempotent: an ID that `normalize_id` produced normalizes
/// to itself, and the internal text of an ID is never changed.
pub proof fn normalize_id_is_idempotent(raw: Seq<char>)
    ensures
        trim(trim(raw)) == trim(raw),
        trim(raw).len() > 0 ==> exists|a: int, b: int|
            0 <= a <= b <= raw.len() && trim(raw) == raw.subrange(a, b),
{
    lemma_trim_idem(raw);
    lemma_lead_ws_bound(raw);
    lemma_trail_ws_bound(trim_start(raw));
    let a = lead_ws(raw) as int;
    let u = trim_start(raw);
    let b = a + u.len() - trail_ws(u);
    assert(trim(raw) =~= raw.subrange(a, b));
}

/// Case-insensitive ID equality is an equivalence: reflexive, symmetric and
/// transitive, so grouping IDs by it is well defined.
pub proof fn ids_equal_ci_is_equivalence(a: Seq<char>, b: Seq<char>, c: Seq<char>)
    ensures
        eq_ic(a, a),
        eq_ic(a, b) ==> eq_ic(b, a),
        eq_ic(a, b) && eq_ic(b, c) ==> eq_ic(a, c),
{
    if eq_ic(a, b) && eq_ic(b, c) {
        assert forall|i: int| 0 <= i < a.len() implies lower(#[trigger] a[i]) == lower(c[i]) by {
            assert(lower(a[i]) == lower(b[i]));
        }
    }
}

} // verus!
