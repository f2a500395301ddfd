//! The `/enum-devices` text as a state machine over plain values: what one
//! line does to the parse state, and what a whole output parses to. The
//! parser in [`crate::drivers::pnputil`] is proved to compute exactly this.
use vstd::prelude::*;
use crate::text::{blen, contains_seq, lines, lower_seq, parse_u32_spec, starts_with, trim};
use crate::drivers::identity::{DeviceIdentityView, InstalledDriverView, MatchingDriverView, MAX_COMPATIBLE_IDS_PER_DEVICE, MAX_DEVICES, MAX_FIELD_LENGTH, MAX_HARDWARE_IDS_PER_DEVICE, MAX_INSTANCE_ID_LENGTH, MAX_MATCHING_DRIVERS_PER_DEVICE, MAX_OUTPUT_BYTES};
use crate::drivers::pnputil::{driver_version_spec, first_token, has_ci, is_unknown, label_of, EnumMode, ParseErrorView, Section};

verus! {

/// A matching-driver entry being assembled, as plain values.
#[verifier::ext_equal]
pub struct MatchingEntry {
    pub inf_name: Option<Seq<char>>,
    pub original_inf_name: Option<Seq<char>>,
    pub provider: Option<Seq<char>>,
    pub class: Option<Seq<char>>,
    pub driver_date: Option<Seq<char>>,
    pub driver_version: Option<Seq<char>>,
    pub signer: Option<Seq<char>>,
    pub rank: Option<u32>,
    pub status: Option<Seq<char>>,
}

/// A device block being assembled, as plain values.
#[verifier::ext_equal]
pub struct DeviceBlock {
    pub instance_id: Seq<char>,
    pub hardware_ids: Seq<Seq<char>>,
    pub compatible_ids: Seq<Seq<char>>,
    pub class_guid: Option<Seq<char>>,
    pub class_name: Option<Seq<char>>,
    pub description: Option<Seq<char>>,
    pub manufacturer: Option<Seq<char>>,
    pub problem_code: Option<u32>,
    pub top_level_driver_name: Option<Seq<char>>,
    pub matching: Seq<MatchingEntry>,
    pub saw_properties: bool,
    /// Whether the properties section holds at least one value line.
    pub has_property_value: bool,
}

/// Everything the parser carries from one line to the next.
#[verifier::ext_equal]
pub struct ParseState {
    pub devices: Seq<DeviceIdentityView>,
    pub current: Option<DeviceBlock>,
    pub section: Section,
    pub pending: Option<MatchingEntry>,
    pub pending_problem_value: bool,
    pub saw_any_property_header: bool,
    pub awaiting_property_value: bool,
    pub all_complete: bool,
    pub saw_properties_any: bool,
    pub saw_instance_label: bool,
}

pub open spec fn malformed(m: Seq<char>) -> ParseErrorView {
    ParseErrorView::Malformed(m)
}

// ---------------------------------------------------------------------------
// Fields
// ---------------------------------------------------------------------------

/// A trimmed scalar within the field bound; empty is absent.
pub open spec fn scalar_checked(raw: Seq<char>) -> Result<Option<Seq<char>>, ParseErrorView> {
    let t = trim(raw);
    if t.len() == 0 {
        Ok(None)
    } else if blen(t) > MAX_FIELD_LENGTH {
        Err(ParseErrorView::FieldTooLong)
    } else {
        Ok(Some(t))
    }
}

/// Like [`scalar_checked`], with `Unknown` (any ASCII case) read as absent.
pub open spec fn optional_scalar(raw: Seq<char>) -> Result<Option<Seq<char>>, ParseErrorView> {
    let t = trim(raw);
    if t.len() == 0 || is_unknown(t) {
        Ok(None)
    } else if blen(t) > MAX_FIELD_LENGTH {
        Err(ParseErrorView::FieldTooLong)
    } else {
        Ok(Some(t))
    }
}

/// A required non-empty trimmed field within the instance-ID bound.
pub open spec fn required_field(raw: Seq<char>, missing: ParseErrorView) -> Result<
    Seq<char>,
    ParseErrorView,
> {
    let t = trim(raw);
    if t.len() == 0 {
        Err(missing)
    } else if blen(t) > MAX_INSTANCE_ID_LENGTH {
        Err(ParseErrorView::FieldTooLong)
    } else {
        Ok(t)
    }
}

/// An ID list after one raw ID: empty IDs and case-insensitive repeats are
/// skipped, an over-long ID or a full list is refused.
pub open spec fn id_list_push(list: Seq<Seq<char>>, raw: Seq<char>, cap: nat, full: ParseErrorView) -> Result<
    Seq<Seq<char>>,
    ParseErrorView,
> {
    let id = trim(raw);
    if id.len() == 0 {
        Ok(list)
    } else if blen(id) > MAX_FIELD_LENGTH {
        Err(ParseErrorView::FieldTooLong)
    } else if has_ci(list, id) {
        Ok(list)
    } else if list.len() >= cap {
        Err(full)
    } else {
        Ok(list.push(id))
    }
}

/// A `Driver Version` value split into date and version.
pub open spec fn version_parts(value: Seq<char>) -> Result<
    (Option<Seq<char>>, Option<Seq<char>>),
    ParseErrorView,
> {
    match driver_version_spec(value) {
        Ok(p) => Ok(p),
        Err(None) => Err(ParseErrorView::FieldTooLong),
        Err(Some(tok)) => Err(malformed("invalid Driver Version date: "@ + tok)),
    }
}

/// A `Driver Rank` value: bare hexadecimal.
pub open spec fn rank_value(value: Seq<char>) -> Result<u32, ParseErrorView> {
    match parse_u32_spec(trim(value), 16) {
        Some(n) => Ok(n),
        None => Err(malformed("invalid driver rank: "@ + trim(value))),
    }
}

/// A numeric value: its first token, `0x`/`0X` hexadecimal or decimal.
pub open spec fn numeric_value(value: Seq<char>) -> Result<u32, ParseErrorView> {
    match first_token(value) {
        None => Err(malformed("missing numeric value"@)),
        Some(t) => if t.len() >= 2 && t[0] == '0' && (t[1] == 'x' || t[1] == 'X') {
            match parse_u32_spec(t.skip(2), 16) {
                Some(n) => Ok(n),
                None => Err(malformed("invalid hex value: "@ + t)),
            }
        } else {
            match parse_u32_spec(t, 10) {
                Some(n) => Ok(n),
                None => Err(malformed("invalid decimal value: "@ + t)),
            }
        },
    }
}

/// One `label: value` line applied to a matching-driver entry.
pub open spec fn apply_field(e: MatchingEntry, label: Seq<char>, value: Seq<char>) -> Result<
    MatchingEntry,
    ParseErrorView,
> {
    if label == "Original Name"@ {
        match scalar_checked(value) {
            Ok(x) => Ok(MatchingEntry { original_inf_name: x, ..e }),
            Err(err) => Err(err),
        }
    } else if label == "Provider Name"@ {
        match scalar_checked(value) {
            Ok(x) => Ok(MatchingEntry { provider: x, ..e }),
            Err(err) => Err(err),
        }
    } else if label == "Class Name"@ {
        match optional_scalar(value) {
            Ok(x) => Ok(MatchingEntry { class: x, ..e }),
            Err(err) => Err(err),
        }
    } else if label == "Class GUID"@ || label == "Matching Device ID"@ || label
        == "Extension ID"@ {
        if blen(trim(value)) > MAX_FIELD_LENGTH {
            Err(ParseErrorView::FieldTooLong)
        } else {
            Ok(e)
        }
    } else if label == "Driver Version"@ {
        match version_parts(value) {
            Ok((d, v)) => Ok(MatchingEntry { driver_date: d, driver_version: v, ..e }),
            Err(err) => Err(err),
        }
    } else if label == "Signer Name"@ {
        match scalar_checked(value) {
            Ok(x) => Ok(MatchingEntry { signer: x, ..e }),
            Err(err) => Err(err),
        }
    } else if label == "Driver Rank"@ {
        match rank_value(value) {
            Ok(n) => Ok(MatchingEntry { rank: Some(n), ..e }),
            Err(err) => Err(err),
        }
    } else if label == "Driver Status"@ {
        match scalar_checked(value) {
            Ok(x) => Ok(MatchingEntry { status: x, ..e }),
            Err(err) => Err(err),
        }
    } else if blen(value) > MAX_FIELD_LENGTH {
        Err(ParseErrorView::FieldTooLong)
    } else {
        Ok(e)
    }
}

// ---------------------------------------------------------------------------
// Closing a device block
// ---------------------------------------------------------------------------

pub open spec fn has_identity_content(b: DeviceBlock) -> bool {
    b.hardware_ids.len() > 0 || b.compatible_ids.len() > 0 || b.problem_code is Some
        || b.description is Some || b.class_name is Some || b.top_level_driver_name is Some
        || b.has_property_value
}

/// The complaint about the first incomplete matching entry from `i` on.
pub open spec fn incomplete_entry(ms: Seq<MatchingEntry>, i: int) -> Option<Seq<char>>
    decreases ms.len() - i,
{
    if i < 0 || i >= ms.len() {
        None
    } else if ms[i].inf_name is None {
        Some("matching driver is missing a name"@)
    } else if ms[i].rank is None {
        Some("matching driver is missing a rank"@)
    } else if ms[i].status is None {
        Some("matching driver is missing a status"@)
    } else {
        incomplete_entry(ms, i + 1)
    }
}

pub open spec fn says_installed(e: MatchingEntry) -> bool {
    e.status matches Some(t) && contains_seq(lower_seq(t), "installed"@)
}

pub open spec fn says_extension(e: MatchingEntry) -> bool {
    e.status matches Some(t) && contains_seq(lower_seq(t), "extension"@)
}

/// Index of the first entry from `i` on that says installed (and, when
/// `base`, is not an extension driver).
pub open spec fn first_installed(ms: Seq<MatchingEntry>, base: bool, i: int) -> Option<int>
    decreases ms.len() - i,
{
    if i < 0 || i >= ms.len() {
        None
    } else if says_installed(ms[i]) && (!base || !says_extension(ms[i])) {
        Some(i)
    } else {
        first_installed(ms, base, i + 1)
    }
}

pub open spec fn installed_view(e: MatchingEntry) -> InstalledDriverView {
    InstalledDriverView {
        inf_name: match e.inf_name {
            Some(n) => n,
            None => Seq::empty(),
        },
        original_inf_name: e.original_inf_name,
        provider: e.provider,
        class: e.class,
        driver_date: e.driver_date,
        driver_version: e.driver_version,
        signer: e.signer,
        rank: e.rank,
    }
}

/// The installed driver of a block: the first entry that says installed
/// and is no extension, else the first that says installed; without
/// matching entries, the top-level driver name.
pub open spec fn installed_of_block(b: DeviceBlock) -> Option<InstalledDriverView> {
    if b.matching.len() == 0 {
        match b.top_level_driver_name {
            Some(n) => Some(
                InstalledDriverView {
                    inf_name: n,
                    original_inf_name: None,
                    provider: None,
                    class: None,
                    driver_date: None,
                    driver_version: None,
                    signer: None,
                    rank: None,
                },
            ),
            None => None,
        }
    } else {
        match first_installed(b.matching, true, 0) {
            Some(j) => Some(installed_view(b.matching[j])),
            None => match first_installed(b.matching, false, 0) {
                Some(j) => Some(installed_view(b.matching[j])),
                None => None,
            },
        }
    }
}

pub open spec fn driver_of_entry(e: MatchingEntry) -> MatchingDriverView {
    MatchingDriverView {
        inf_name: match e.inf_name {
            Some(n) => n,
            None => Seq::empty(),
        },
        provider: e.provider,
        driver_date: e.driver_date,
        driver_version: e.driver_version,
        rank: e.rank,
    }
}

/// A closed device block: the device and whether it held a properties
/// section.
pub open spec fn close_block(b: DeviceBlock) -> Result<(DeviceIdentityView, bool), ParseErrorView> {
    if !has_identity_content(b) {
        Err(malformed("device block is truncated before any identity content"@))
    } else if b.saw_properties && !b.has_property_value {
        Err(malformed("device block is truncated inside its properties section"@))
    } else {
        match incomplete_entry(b.matching, 0) {
            Some(m) => Err(malformed(m)),
            None => Ok(
                (
                    DeviceIdentityView {
                        instance_id: b.instance_id,
                        hardware_ids: b.hardware_ids,
                        compatible_ids: b.compatible_ids,
                        class_guid: b.class_guid,
                        class_name: b.class_name,
                        description: b.description,
                        manufacturer: b.manufacturer,
                        problem_code: b.problem_code,
                        installed: installed_of_block(b),
                        matching: b.matching.map_values(|e: MatchingEntry| driver_of_entry(e)),
                    },
                    b.saw_properties,
                ),
            ),
        }
    }
}

// ---------------------------------------------------------------------------
// Lines
// ---------------------------------------------------------------------------

pub open spec fn initial_state() -> ParseState {
    ParseState {
        devices: Seq::empty(),
        current: None,
        section: Section::Header,
        pending: None,
        pending_problem_value: false,
        saw_any_property_header: false,
        awaiting_property_value: false,
        all_complete: true,
        saw_properties_any: false,
        saw_instance_label: false,
    }
}

pub open spec fn new_block(instance_id: Seq<char>) -> DeviceBlock {
    DeviceBlock {
        instance_id,
        hardware_ids: Seq::empty(),
        compatible_ids: Seq::empty(),
        class_guid: None,
        class_name: None,
        description: None,
        manufacturer: None,
        problem_code: None,
        top_level_driver_name: None,
        matching: Seq::empty(),
        saw_properties: false,
        has_property_value: false,
    }
}

pub open spec fn new_entry(inf_name: Option<Seq<char>>) -> MatchingEntry {
    MatchingEntry {
        inf_name,
        original_inf_name: None,
        provider: None,
        class: None,
        driver_date: None,
        driver_version: None,
        signer: None,
        rank: None,
        status: None,
    }
}

/// The pending matching entry moved into the current device (dropped when
/// there is none).
pub open spec fn flush(s: ParseState) -> Result<ParseState, ParseErrorView> {
    match (s.pending, s.current) {
        (Some(e), Some(b)) => if b.matching.len() >= MAX_MATCHING_DRIVERS_PER_DEVICE {
            Err(ParseErrorView::MatchingDriversExceeded)
        } else {
            Ok(
                ParseState {
                    pending: None,
                    current: Some(DeviceBlock { matching: b.matching.push(e), ..b }),
                    ..s
                },
            )
        },
        _ => Ok(ParseState { pending: None, ..s }),
    }
}

/// The current device closed and appended to the devices.
pub open spec fn close_current(s: ParseState) -> Result<ParseState, ParseErrorView> {
    match s.current {
        None => Ok(s),
        Some(b) => match close_block(b) {
            Err(e) => Err(e),
            Ok((d, complete)) => Ok(
                ParseState {
                    current: None,
                    all_complete: s.all_complete && complete,
                    devices: s.devices.push(d),
                    ..s
                },
            ),
        },
    }
}

/// An `Instance ID` line: the previous device is closed and a new one opened.
pub open spec fn start_device(s: ParseState, value: Seq<char>) -> Result<ParseState, ParseErrorView> {
    match close_current(s) {
        Err(e) => Err(e),
        Ok(s1) => if s1.devices.len() >= MAX_DEVICES {
            Err(ParseErrorView::DeviceCountExceeded)
        } else {
            match required_field(value, ParseErrorView::MissingInstanceId) {
                Err(e) => Err(e),
                Ok(id) => Ok(
                    ParseState {
                        saw_instance_label: true,
                        current: Some(new_block(id)),
                        section: Section::Device,
                        ..s1
                    },
                ),
            }
        },
    }
}

/// A scalar device field (`Device Description`, `Class Name`, `Class GUID`,
/// `Manufacturer Name`).
pub open spec fn device_field(s: ParseState, label: Seq<char>, value: Seq<char>, outside: Seq<char>) -> Result<
    ParseState,
    ParseErrorView,
> {
    match optional_scalar(value) {
        Err(e) => Err(e),
        Ok(x) => match s.current {
            None => Err(malformed(outside)),
            Some(b) => {
                let nb = if label == "Device Description"@ {
                    DeviceBlock { description: x, ..b }
                } else if label == "Class Name"@ {
                    DeviceBlock { class_name: x, ..b }
                } else if label == "Class GUID"@ {
                    DeviceBlock { class_guid: x, ..b }
                } else {
                    DeviceBlock { manufacturer: x, ..b }
                };
                Ok(ParseState { current: Some(nb), section: Section::Device, ..s })
            },
        },
    }
}

/// An ID line (top-level or continuation) added to the current device.
pub open spec fn push_device_id(s: ParseState, hardware: bool, raw: Seq<char>, outside: Seq<char>) -> Result<
    ParseState,
    ParseErrorView,
> {
    match s.current {
        None => Err(malformed(outside)),
        Some(b) => if hardware {
            match id_list_push(
                b.hardware_ids,
                raw,
                MAX_HARDWARE_IDS_PER_DEVICE as nat,
                ParseErrorView::IdsPerDeviceExceeded,
            ) {
                Err(e) => Err(e),
                Ok(l) => Ok(
                    ParseState { current: Some(DeviceBlock { hardware_ids: l, ..b }), ..s },
                ),
            }
        } else {
            match id_list_push(
                b.compatible_ids,
                raw,
                MAX_COMPATIBLE_IDS_PER_DEVICE as nat,
                ParseErrorView::IdsPerDeviceExceeded,
            ) {
                Err(e) => Err(e),
                Ok(l) => Ok(
                    ParseState { current: Some(DeviceBlock { compatible_ids: l, ..b }), ..s },
                ),
            }
        },
    }
}

/// A column-0 line once its label and value are split off.
pub open spec fn label_step(s: ParseState, label: Seq<char>, value: Seq<char>) -> Result<
    ParseState,
    ParseErrorView,
> {
    if label == "Microsoft PnP Utility"@ {
        Ok(ParseState { section: Section::Header, ..s })
    } else if label == "Instance ID"@ {
        start_device(s, value)
    } else if label == "Device Description"@ {
        device_field(s, label, value, "description outside a device"@)
    } else if label == "Class Name"@ {
        device_field(s, label, value, "class name outside a device"@)
    } else if label == "Class GUID"@ {
        device_field(s, label, value, "class GUID outside a device"@)
    } else if label == "Manufacturer Name"@ {
        device_field(s, label, value, "manufacturer outside a device"@)
    } else if label == "Driver Name"@ {
        match scalar_checked(value) {
            Err(e) => Err(e),
            Ok(x) => match s.current {
                None => Err(malformed("driver name outside a device"@)),
                Some(b) => Ok(
                    ParseState {
                        current: Some(DeviceBlock { top_level_driver_name: x, ..b }),
                        section: Section::Device,
                        ..s
                    },
                ),
            },
        }
    } else if label == "Extension Driver Names"@ {
        if s.current is None {
            Err(malformed("extension driver names outside a device"@))
        } else {
            Ok(ParseState { section: Section::ExtensionDriverNames, ..s })
        }
    } else if label == "Status"@ || label == "Problem Status"@ {
        if blen(value) > MAX_FIELD_LENGTH {
            Err(ParseErrorView::FieldTooLong)
        } else {
            Ok(ParseState { section: Section::Device, ..s })
        }
    } else if label == "Problem Code"@ {
        match s.current {
            None => Err(malformed("problem code outside a device"@)),
            Some(b) => match numeric_value(value) {
                Err(e) => Err(e),
                Ok(n) => Ok(
                    ParseState {
                        current: Some(DeviceBlock { problem_code: Some(n), ..b }),
                        section: Section::Device,
                        ..s
                    },
                ),
            },
        }
    } else if label == "Hardware IDs"@ {
        match push_device_id(s, true, value, "hardware IDs outside a device"@) {
            Err(e) => Err(e),
            Ok(s1) => Ok(ParseState { section: Section::HardwareIds, ..s1 }),
        }
    } else if label == "Compatible IDs"@ {
        match push_device_id(s, false, value, "compatible IDs outside a device"@) {
            Err(e) => Err(e),
            Ok(s1) => Ok(ParseState { section: Section::CompatibleIds, ..s1 }),
        }
    } else if label == "Matching Drivers"@ {
        if s.current is None {
            Err(malformed("matching drivers outside a device"@))
        } else {
            Ok(ParseState { section: Section::MatchingDrivers, ..s })
        }
    } else if label == "Properties"@ {
        match s.current {
            None => Err(malformed("properties outside a device"@)),
            Some(b) => Ok(
                ParseState {
                    current: Some(DeviceBlock { saw_properties: true, ..b }),
                    section: Section::Properties,
                    saw_properties_any: true,
                    ..s
                },
            ),
        }
    } else {
        Err(malformed("unexpected top-level label: "@ + label))
    }
}

/// A non-blank line that starts in column 0.
pub open spec fn top_step(s: ParseState, line: Seq<char>) -> Result<ParseState, ParseErrorView> {
    match flush(s) {
        Err(e) => Err(e),
        Ok(s1) => if s1.pending_problem_value || s1.awaiting_property_value {
            Err(malformed("property header is missing its value"@))
        } else {
            label_step(
                ParseState { saw_any_property_header: false, ..s1 },
                label_of(line).0,
                label_of(line).1,
            )
        },
    }
}

/// A trimmed continuation line inside `Matching Drivers`.
pub open spec fn matching_step(s: ParseState, lt: Seq<char>) -> Result<ParseState, ParseErrorView> {
    let label = label_of(lt).0;
    let value = label_of(lt).1;
    if label == "Driver Name"@ {
        match flush(s) {
            Err(e) => Err(e),
            Ok(s1) => match scalar_checked(value) {
                Err(e) => Err(e),
                Ok(name) => Ok(ParseState { pending: Some(new_entry(name)), ..s1 }),
            },
        }
    } else {
        match s.pending {
            None => Err(malformed("matching-driver field appears without a driver name"@)),
            Some(e) => match apply_field(e, label, value) {
                Err(err) => Err(err),
                Ok(e2) => Ok(ParseState { pending: Some(e2), ..s }),
            },
        }
    }
}

pub open spec fn is_property_header(lt: Seq<char>) -> bool {
    contains_seq(lt, "]:"@) && (starts_with(lt, "DEVPKEY_"@) || (lt.len() > 0 && lt[0] == '{'))
}

/// A trimmed continuation line inside `Properties`.
pub open spec fn property_step(s: ParseState, lt: Seq<char>) -> Result<ParseState, ParseErrorView> {
    if is_property_header(lt) {
        Ok(
            ParseState {
                pending_problem_value: starts_with(lt, "DEVPKEY_Device_ProblemCode"@),
                awaiting_property_value: true,
                saw_any_property_header: true,
                ..s
            },
        )
    } else if !s.saw_any_property_header {
        Err(malformed("property value without a preceding header"@))
    } else if blen(lt) > MAX_FIELD_LENGTH {
        Err(ParseErrorView::FieldTooLong)
    } else if s.pending_problem_value {
        match s.current {
            None => Err(malformed("problem code without a device"@)),
            Some(b) => match numeric_value(lt) {
                Err(e) => Err(e),
                Ok(n) => Ok(
                    ParseState {
                        awaiting_property_value: false,
                        pending_problem_value: false,
                        current: Some(
                            DeviceBlock { problem_code: Some(n), has_property_value: true, ..b },
                        ),
                        ..s
                    },
                ),
            },
        }
    } else {
        Ok(
            ParseState {
                awaiting_property_value: false,
                current: match s.current {
                    Some(b) => Some(DeviceBlock { has_property_value: true, ..b }),
                    None => None,
                },
                ..s
            },
        )
    }
}

/// A trimmed continuation (indented) line, read by the active section.
pub open spec fn indented_step(s: ParseState, lt: Seq<char>) -> Result<ParseState, ParseErrorView> {
    match s.section {
        Section::HardwareIds => push_device_id(s, true, lt, "hardware ID without a device"@),
        Section::CompatibleIds => push_device_id(s, false, lt, "compatible ID without a device"@),
        Section::ExtensionDriverNames => if blen(lt) > MAX_FIELD_LENGTH {
            Err(ParseErrorView::FieldTooLong)
        } else {
            Ok(s)
        },
        Section::MatchingDrivers => matching_step(s, lt),
        Section::Properties => property_step(s, lt),
        _ => Err(malformed("indented line outside an ID/matching/properties section"@)),
    }
}

pub open spec fn is_column0(line: Seq<char>) -> bool {
    !(line.len() > 0 && (line[0] == ' ' || line[0] == '\t'))
}

/// One line of the output.
#[verifier::opaque]
pub open spec fn line_step(s: ParseState, line: Seq<char>) -> Result<ParseState, ParseErrorView> {
    if trim(line).len() == 0 {
        Ok(s)
    } else if is_column0(line) {
        top_step(s, line)
    } else {
        indented_step(s, trim(line))
    }
}

/// The state after the given lines.
pub open spec fn run_lines(ls: Seq<Seq<char>>) -> Result<ParseState, ParseErrorView>
    decreases ls.len(),
{
    if ls.len() == 0 {
        Ok(initial_state())
    } else {
        match run_lines(ls.drop_last()) {
            Err(e) => Err(e),
            Ok(s) => line_step(s, ls.last()),
        }
    }
}

/// One more line read: the run over the first `k + 1` lines is the run
/// over the first `k` followed by line `k`.
pub proof fn lemma_run_lines_step(ls: Seq<Seq<char>>, k: int)
    requires
        0 <= k < ls.len(),
    ensures
        run_lines(ls.take(k + 1)) == match run_lines(ls.take(k)) {
            Err(e) => Err(e),
            Ok(s) => line_step(s, ls[k]),
        },
{
    assert(ls.take(k + 1).drop_last() =~= ls.take(k));
}

/// An error in the lines read so far is the error of the whole run.
pub proof fn lemma_run_lines_err(ls: Seq<Seq<char>>, k: int, e: ParseErrorView)
    requires
        0 <= k <= ls.len(),
        run_lines(ls.take(k)) == Err::<ParseState, ParseErrorView>(e),
    ensures
        run_lines(ls) == Err::<ParseState, ParseErrorView>(e),
    decreases ls.len() - k,
{
    if k == ls.len() {
        assert(ls.take(k) =~= ls);
    } else {
        lemma_run_lines_step(ls, k);
        lemma_run_lines_err(ls, k + 1, e);
    }
}

/// The end of the output: the last entry and device are closed and the
/// whole is judged complete or reduced.
pub open spec fn end_of_output(s: ParseState, mode: EnumMode) -> Result<
    (bool, Seq<DeviceIdentityView>),
    ParseErrorView,
> {
    match flush(s) {
        Err(e) => Err(e),
        Ok(s1) => if s1.pending_problem_value || s1.awaiting_property_value {
            Err(malformed("property header is missing its value"@))
        } else {
            match close_current(s1) {
                Err(e) => Err(e),
                Ok(s2) => if !s2.saw_instance_label || s2.devices.len() == 0 {
                    Err(malformed("no device instances found in non-empty output"@))
                } else {
                    let complete = s2.saw_properties_any && s2.all_complete;
                    if mode == EnumMode::Full && !complete {
                        Err(malformed("full enumeration output is missing properties sections"@))
                    } else {
                        Ok((complete, s2.devices))
                    }
                },
            }
        },
    }
}

/// What `/enum-devices` output parses to: whether it was the complete
/// (properties) shape, and the devices.
pub open spec fn enumeration_of(input: Seq<char>, mode: EnumMode) -> Result<
    (bool, Seq<DeviceIdentityView>),
    ParseErrorView,
> {
    if blen(input) > MAX_OUTPUT_BYTES {
        Err(ParseErrorView::OutputTooLarge)
    } else if trim(input).len() == 0 {
        Err(ParseErrorView::EmptyInput)
    } else {
        match run_lines(lines(trim(input))) {
            Err(e) => Err(e),
            Ok(s) => end_of_output(s, mode),
        }
    }
}


/// Each matching-driver field is stored under its own label: a
/// `Provider Name:` line with a non-empty value (within the field bound)
/// sets the provider to the trimmed value and leaves every other field as
/// it was, and likewise a `Signer Name:` line sets the signer, an
/// `Original Name:` line the original name and a `Driver Status:` line the
/// status; no line changes another label's field, and none changes the
/// driver's name. The installed and matching
/// drivers reported for an entry carry its provider (and the installed one
/// its signer) unchanged.
pub proof fn each_driver_field_comes_from_its_own_label(e: MatchingEntry, label: Seq<char>, value: Seq<char>)
    ensures
        (trim(value).len() > 0 && blen(trim(value)) <= MAX_FIELD_LENGTH) ==> (apply_field(
            e,
            "Provider Name"@,
            value,
        ) matches Ok(r) && r.provider == Some(trim(value)) && r.signer == e.signer && r.inf_name
            == e.inf_name && r.original_inf_name == e.original_inf_name && r.class == e.class
            && r.driver_date == e.driver_date && r.driver_version == e.driver_version && r.rank
            == e.rank && r.status == e.status),
        (trim(value).len() > 0 && blen(trim(value)) <= MAX_FIELD_LENGTH) ==> (apply_field(
            e,
            "Signer Name"@,
            value,
        ) matches Ok(r) && r.signer == Some(trim(value)) && r.provider == e.provider && r.inf_name
            == e.inf_name && r.original_inf_name == e.original_inf_name && r.class == e.class
            && r.driver_date == e.driver_date && r.driver_version == e.driver_version && r.rank
            == e.rank && r.status == e.status),
        (label != "Provider Name"@ && apply_field(e, label, value) is Ok) ==> apply_field(
            e,
            label,
            value,
        )->Ok_0.provider == e.provider,
        (label != "Signer Name"@ && apply_field(e, label, value) is Ok) ==> apply_field(
            e,
            label,
            value,
        )->Ok_0.signer == e.signer,
        (trim(value).len() > 0 && blen(trim(value)) <= MAX_FIELD_LENGTH) ==> (apply_field(
            e,
            "Original Name"@,
            value,
        ) == Ok::<MatchingEntry, ParseErrorView>(
            MatchingEntry { original_inf_name: Some(trim(value)), ..e },
        )),
        (trim(value).len() > 0 && blen(trim(value)) <= MAX_FIELD_LENGTH) ==> (apply_field(
            e,
            "Driver Status"@,
            value,
        ) == Ok::<MatchingEntry, ParseErrorView>(MatchingEntry { status: Some(trim(value)), ..e })),
        (label != "Driver Status"@ && apply_field(e, label, value) is Ok) ==> apply_field(
            e,
            label,
            value,
        )->Ok_0.status == e.status,
        (label != "Driver Rank"@ && apply_field(e, label, value) is Ok) ==> apply_field(
            e,
            label,
            value,
        )->Ok_0.rank == e.rank,
        (label != "Class Name"@ && apply_field(e, label, value) is Ok) ==> apply_field(
            e,
            label,
            value,
        )->Ok_0.class == e.class,
        (label != "Original Name"@ && apply_field(e, label, value) is Ok) ==> apply_field(
            e,
            label,
            value,
        )->Ok_0.original_inf_name == e.original_inf_name,
        (label != "Driver Version"@ && apply_field(e, label, value) is Ok) ==> apply_field(
            e,
            label,
            value,
        )->Ok_0.driver_date == e.driver_date && apply_field(e, label, value)->Ok_0.driver_version
            == e.driver_version,
        apply_field(e, label, value) is Ok ==> apply_field(e, label, value)->Ok_0.inf_name
            == e.inf_name,
        installed_view(e).provider == e.provider,
        installed_view(e).signer == e.signer,
        driver_of_entry(e).provider == e.provider,
{
    reveal_strlit("Original Name");
    reveal_strlit("Provider Name");
    reveal_strlit("Class Name");
    reveal_strlit("Class GUID");
    reveal_strlit("Matching Device ID");
    reveal_strlit("Extension ID");
    reveal_strlit("Driver Version");
    reveal_strlit("Signer Name");
    assert("Provider Name"@[0] != "Original Name"@[0]);
    assert("Signer Name"@[0] != "Original Name"@[0]);
    assert("Signer Name"@[0] != "Provider Name"@[0]);
    assert("Signer Name"@[0] != "Class Name"@[0]);
    assert("Signer Name"@[0] != "Class GUID"@[0]);
    assert("Signer Name"@[0] != "Matching Device ID"@[0]);
    assert("Signer Name"@[0] != "Extension ID"@[0]);
    assert("Signer Name"@[0] != "Driver Version"@[0]);
    reveal_strlit("Driver Rank");
    reveal_strlit("Driver Status");
    assert("Driver Status"@[0] == 'D' && "Driver Status"@[7] == 'S');
    assert("Driver Version"@[7] == 'V' && "Driver Rank"@[7] == 'R');
    assert("Driver Status"@[0] != "Original Name"@[0]);
    assert("Driver Status"@[0] != "Provider Name"@[0]);
    assert("Driver Status"@[0] != "Class Name"@[0]);
    assert("Driver Status"@[0] != "Class GUID"@[0]);
    assert("Driver Status"@[0] != "Matching Device ID"@[0]);
    assert("Driver Status"@[0] != "Extension ID"@[0]);
    assert("Driver Status"@[0] != "Signer Name"@[0]);
}

} // verus!
