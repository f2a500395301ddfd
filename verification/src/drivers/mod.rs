//! Driver inventory: the signed-driver audit summary, device identity
//! enumeration over PnPUtil, and the SDIO driver-pack catalogue.
//!
//! Running PowerShell and PnPUtil is I/O and happens outside the library;
//! what they return is handed to the functions here.
pub mod enum_devices;
pub mod identity;
pub mod pnputil;
pub mod sdio;

use vstd::prelude::*;
use crate::text::{concat2, owned};
use crate::drivers::identity::{DriverIdentityReport, MachineContext};
use crate::drivers::pnputil::{EnumMode, ParsedEnumeration, PnputilParseError, parse_error_text};



verus! {

/// One installed driver as the audit reports it.
pub struct DriverEntry {
    pub name: String,
    pub device: String,
    pub version: String,
    pub date: String,
    pub signed: Option<bool>,
    pub status: String,
}

/// The signed-driver audit.
pub struct DriverReport {
    pub complete: bool,
    pub error: Option<String>,
    pub total: usize,
    pub unsigned: usize,
    pub outdated: Option<usize>,
    pub problematic: Vec<DriverEntry>,
    pub healthy: Vec<DriverEntry>,
}

/// One item of the signed-driver inventory, each field as the inventory
/// gave it (absent where it had none).
pub struct DriverInventoryItem {
    pub name: Option<String>,
    pub device: Option<String>,
    pub version: Option<String>,
    pub date: Option<String>,
    pub signed: Option<bool>,
}

/// `DriverEntry` with its strings taken as character sequences.
pub struct DriverEntryView {
    pub name: Seq<char>,
    pub device: Seq<char>,
    pub version: Seq<char>,
    pub date: Seq<char>,
    pub signed: Option<bool>,
    pub status: Seq<char>,
}

impl View for DriverEntry {
    type V = DriverEntryView;

    open spec fn view(&self) -> DriverEntryView {
        DriverEntryView {
            name: self.name@,
            device: self.device@,
            version: self.version@,
            date: self.date@,
            signed: self.signed,
            status: self.status@,
        }
    }
}

/// The status of a driver: `unsigned` when known unsigned, `unknown` when
/// the signature state is not known, `ok` when signed.
pub open spec fn status_spec(signed: Option<bool>) -> Seq<char> {
    match signed {
        Some(false) => "unsigned"@,
        None => "unknown"@,
        Some(true) => "ok"@,
    }
}

pub open spec fn or_default(o: Option<String>, d: Seq<char>) -> Seq<char> {
    match o {
        Some(s) => s@,
        None => d,
    }
}

/// The entry for an inventory item: absent fields take their defaults.
pub open spec fn entry_spec(item: DriverInventoryItem) -> DriverEntryView {
    DriverEntryView {
        name: or_default(item.name, "Unknown device"@),
        device: or_default(item.device, "Other"@),
        version: or_default(item.version, "Unknown"@),
        date: or_default(item.date, "unknown"@),
        signed: item.signed,
        status: status_spec(item.signed),
    }
}

pub open spec fn entry_views(v: Seq<DriverEntry>) -> Seq<DriverEntryView> {
    v.map_values(|e: DriverEntry| e@)
}

pub open spec fn is_signed(e: DriverEntryView) -> bool {
    e.signed == Some(true)
}

pub open spec fn not_signed(e: DriverEntryView) -> bool {
    e.signed != Some(true)
}

/// The status text of a driver with the given signature state.
pub fn driver_status(signed: Option<bool>) -> (r: String)
    ensures
        r@ == status_spec(signed),
{
    match signed {
        Some(false) => owned("unsigned"),
        None => owned("unknown"),
        Some(true) => owned("ok"),
    }
}

fn text_or(o: &Option<String>, d: &str) -> (r: String)
    ensures
        r@ == or_default(*o, d@),
{
    match o {
        Some(s) => owned(s.as_str()),
        None => owned(d),
    }
}

/// The audit entry for one inventory item.
pub fn driver_entry(item: &DriverInventoryItem) -> (r: DriverEntry)
    ensures
        r@ == entry_spec(*item),
{
    DriverEntry {
        name: text_or(&item.name, "Unknown device"),
        device: text_or(&item.device, "Other"),
        version: text_or(&item.version, "Unknown"),
        date: text_or(&item.date, "unknown"),
        signed: item.signed,
        status: driver_status(item.signed),
    }
}

/// Number of healthy drivers a report lists.
pub const HEALTHY_SHOWN: usize = 10;

/// The audit of an inventory: every item counted, the unsigned ones
/// counted, every driver that is not known signed listed as problematic,
/// and the first ten signed ones listed as healthy, in inventory order.
pub fn summarize_drivers(complete: bool, error: Option<String>, items: &[DriverInventoryItem]) -> (r:
    DriverReport)
    ensures
        r.complete == complete,
        r.error == error,
        r.total == items@.len(),
        r.unsigned == items@.filter(|it: DriverInventoryItem| it.signed == Some(false)).len(),
        r.outdated is None,
        entry_views(r.problematic@) == items@.map_values(|it: DriverInventoryItem| entry_spec(it)).filter(
            |e: DriverEntryView| not_signed(e),
        ),
        entry_views(r.healthy@) == items@.map_values(|it: DriverInventoryItem| entry_spec(it)).filter(
            |e: DriverEntryView| is_signed(e),
        ).take(
            if items@.map_values(|it: DriverInventoryItem| entry_spec(it)).filter(
                |e: DriverEntryView| is_signed(e),
            ).len() < 10 {
                items@.map_values(|it: DriverInventoryItem| entry_spec(it)).filter(
                    |e: DriverEntryView| is_signed(e),
                ).len() as int
            } else {
                10
            },
        ),
{
    let ghost es = items@.map_values(|it: DriverInventoryItem| entry_spec(it));
    let ghost fu = |it: DriverInventoryItem| it.signed == Some(false);
    let ghost fp = |e: DriverEntryView| not_signed(e);
    let ghost fh = |e: DriverEntryView| is_signed(e);
    let mut unsigned: usize = 0;
    let mut problematic: Vec<DriverEntry> = Vec::new();
    let mut healthy: Vec<DriverEntry> = Vec::new();
    let mut i: usize = 0;
    while i < items.len()
        invariant
            i <= items@.len(),
            es == items@.map_values(|it: DriverInventoryItem| entry_spec(it)),
            fu == (|it: DriverInventoryItem| it.signed == Some(false)),
            fp == (|e: DriverEntryView| not_signed(e)),
            fh == (|e: DriverEntryView| is_signed(e)),
            unsigned == items@.take(i as int).filter(fu).len(),
            entry_views(problematic@) == es.take(i as int).filter(fp),
            entry_views(healthy@) == es.take(i as int).filter(fh).take(
                if es.take(i as int).filter(fh).len() < 10 {
                    es.take(i as int).filter(fh).len() as int
                } else {
                    10
                },
            ),
            unsigned <= i,
        decreases items.len() - i,
    {
        let ghost tk = items@.take(i as int);
        let ghost te = es.take(i as int);
        proof {
            reveal(Seq::filter);
            assert(items@.take(i + 1).drop_last() =~= tk);
            assert(es.take(i + 1).drop_last() =~= te);
            assert(items@.take(i + 1).last() == items@[i as int]);
            assert(es.take(i + 1).last() == entry_spec(items@[i as int]));
        }
        let e = driver_entry(&items[i]);
        if items[i].signed == Some(false) {
            unsigned = unsigned + 1;
        }
        if items[i].signed == Some(true) {
            if healthy.len() < HEALTHY_SHOWN {
                let ghost before = entry_views(healthy@);
                healthy.push(e);
                proof {
                    assert(entry_views(healthy@) =~= before.push(e@));
                    assert(es.take(i + 1).filter(fh) == te.filter(fh).push(e@));
                    assert(te.filter(fh).take(te.filter(fh).len() as int) =~= te.filter(fh));
                    assert(es.take(i + 1).filter(fh).take(
                        es.take(i + 1).filter(fh).len() as int,
                    ) =~= es.take(i + 1).filter(fh));
                }
            } else {
                proof {
                    assert(entry_views(healthy@).len() == healthy@.len());
                    assert(te.filter(fh).len() >= 10);
                    assert(es.take(i + 1).filter(fh) == te.filter(fh).push(e@));
                    assert(te.filter(fh).push(e@).take(10) =~= te.filter(fh).take(10));
                }
            }
            proof {
                assert(es.take(i + 1).filter(fp) == te.filter(fp));
            }
        } else {
            let ghost before = entry_views(problematic@);
            problematic.push(e);
            proof {
                assert(entry_views(problematic@) =~= before.push(e@));
                assert(es.take(i + 1).filter(fp) == te.filter(fp).push(e@));
                assert(es.take(i + 1).filter(fh) == te.filter(fh));
            }
        }
        i = i + 1;
    }
    proof {
        assert(items@.take(i as int) =~= items@);
        assert(es.take(i as int) =~= es);
    }
    DriverReport {
        complete,
        error,
        total: items.len(),
        unsigned,
        outdated: None,
        problematic,
        healthy,
    }
}

/// What `audit_drivers` gives where no signed-driver inventory can be read.
pub fn audit_drivers() -> (r: DriverReport)
    ensures
        !r.complete,
        r.error matches Some(e) && e@ == "Driver inventory is unavailable on this platform."@,
        r.total == 0,
        r.unsigned == 0,
        r.outdated is None,
        r.problematic@.len() == 0,
        r.healthy@.len() == 0,
{
    DriverReport {
        complete: false,
        error: Some(owned("Driver inventory is unavailable on this platform.")),
        total: 0,
        unsigned: 0,
        outdated: None,
        problematic: Vec::new(),
        healthy: Vec::new(),
    }
}

// ---------------------------------------------------------------------------
// Device identity scan
// ---------------------------------------------------------------------------

/// The device identity report for `machine` from the outcome of the
/// PnPUtil enumeration: its devices and fidelity, or its error with no
/// devices.
pub fn scan_device_identity(
    machine: MachineContext,
    enumeration: Result<ParsedEnumeration, PnputilParseError>,
) -> (r: DriverIdentityReport)
    ensures
        r.machine == machine,
        match enumeration {
            Ok(p) => {
                &&& r.complete == p.complete
                &&& r.degraded == p.degraded
                &&& r.error is None
                &&& r.devices == p.devices
            },
            Err(e) => {
                &&& !r.complete
                &&& !r.degraded
                &&& r.error matches Some(m) && m@ == parse_error_text(e)
                &&& r.devices@.len() == 0
            },
        },
{
    match enumeration {
        Ok(parsed) => DriverIdentityReport {
            complete: parsed.complete,
            degraded: parsed.degraded,
            error: None,
            machine,
            devices: parsed.devices,
        },
        Err(error) => DriverIdentityReport {
            complete: false,
            degraded: false,
            error: Some(error.message()),
            machine,
            devices: Vec::new(),
        },
    }
}

/// The enumeration outcome where PnPUtil does not exist.
pub fn enumeration_unavailable() -> (r: Result<ParsedEnumeration, PnputilParseError>)
    ensures
        r matches Err(PnputilParseError::Malformed(d)) && d@
            == "driver identity inventory is unavailable on this platform"@,
{
    Err(PnputilParseError::Malformed(owned("driver identity inventory is unavailable on this platform")))
}

/// The PnPUtil invocations tried in turn, richest first.
#[derive(Clone, Copy, PartialEq, Eq, Structural)]
pub enum EnumAttempt {
    /// `/enum-devices /connected /deviceids /drivers /properties`.
    Full,
    /// `/enum-devices /connected /deviceids`, for hosts that reject the rest.
    IdentityOnly,
    /// `/enum-devices /connected`, for hosts older than those switches.
    Degraded,
}

/// What to do after an attempt exited.
pub enum EnumNext {
    /// Parse the attempt's output in this mode.
    Parse(EnumMode),
    /// Run the next attempt.
    Retry(EnumAttempt),
    /// Give up with this error.
    Fail(PnputilParseError),
}

/// The next step after `attempt` exited with or without success: parse its
/// output in the matching mode, or fall back to the next attempt; when the
/// last fails, the enumeration failed.
pub fn next_enumeration_step(attempt: EnumAttempt, succeeded: bool) -> (r: EnumNext)
    ensures
        succeeded ==> r == EnumNext::Parse(
            match attempt {
                EnumAttempt::Full => EnumMode::Full,
                EnumAttempt::IdentityOnly => EnumMode::IdentityOnly,
                EnumAttempt::Degraded => EnumMode::Degraded,
            },
        ),
        !succeeded && attempt == EnumAttempt::Full ==> r == EnumNext::Retry(EnumAttempt::IdentityOnly),
        !succeeded && attempt == EnumAttempt::IdentityOnly ==> r == EnumNext::Retry(
            EnumAttempt::Degraded,
        ),
        !succeeded && attempt == EnumAttempt::Degraded ==> (r matches EnumNext::Fail(
            PnputilParseError::Malformed(d),
        ) && d@ == "pnputil enumeration failed"@),
{
    if succeeded {
        match attempt {
            EnumAttempt::Full => EnumNext::Parse(EnumMode::Full),
            EnumAttempt::IdentityOnly => EnumNext::Parse(EnumMode::IdentityOnly),
            EnumAttempt::Degraded => EnumNext::Parse(EnumMode::Degraded),
        }
    } else {
        match attempt {
            EnumAttempt::Full => EnumNext::Retry(EnumAttempt::IdentityOnly),
            EnumAttempt::IdentityOnly => EnumNext::Retry(EnumAttempt::Degraded),
            EnumAttempt::Degraded => EnumNext::Fail(
                PnputilParseError::Malformed(owned("pnputil enumeration failed")),
            ),
        }
    }
}

/// The error when an attempt could not be started; `error` is the launch
/// error's text.
pub fn enumeration_launch_error(attempt: EnumAttempt, error: &str) -> (r: PnputilParseError)
    ensures
        r matches PnputilParseError::Malformed(d) && d@ == (match attempt {
            EnumAttempt::Full => "could not start pnputil: "@,
            EnumAttempt::IdentityOnly => "could not start pnputil identity fallback: "@,
            EnumAttempt::Degraded => "could not start pnputil degraded fallback: "@,
        }) + error@,
{
    let prefix = match attempt {
        EnumAttempt::Full => "could not start pnputil: ",
        EnumAttempt::IdentityOnly => "could not start pnputil identity fallback: ",
        EnumAttempt::Degraded => "could not start pnputil degraded fallback: ",
    };
    PnputilParseError::Malformed(concat2(prefix, error))
}

// ---------------------------------------------------------------------------
// Laws
// ---------------------------------------------------------------------------

/// Every audited driver is either problematic or signed, never both, and
/// every unsigned driver is problematic: the problematic list and the signed
/// drivers partition the inventory, and the unsigned count never exceeds the
/// problematic list.
pub proof fn audit_partitions_the_inventory(items: Seq<DriverInventoryItem>)
    ensures
        items.map_values(|it: DriverInventoryItem| entry_spec(it)).filter(
            |e: DriverEntryView| not_signed(e),
        ).len() + items.map_values(|it: DriverInventoryItem| entry_spec(it)).filter(
            |e: DriverEntryView| is_signed(e),
        ).len() == items.len(),
        items.filter(|it: DriverInventoryItem| it.signed == Some(false)).len()
            <= items.map_values(|it: DriverInventoryItem| entry_spec(it)).filter(
            |e: DriverEntryView| not_signed(e),
        ).len(),
    decreases items.len(),
{
    reveal(Seq::filter);
    if items.len() > 0 {
        let init = items.drop_last();
        audit_partitions_the_inventory(init);
        let es = items.map_values(|it: DriverInventoryItem| entry_spec(it));
        let ei = init.map_values(|it: DriverInventoryItem| entry_spec(it));
        assert(es.drop_last() =~= ei);
        assert(es.last() == entry_spec(items.last()));
    } else {
        assert(items.map_values(|it: DriverInventoryItem| entry_spec(it)) =~= Seq::<
            DriverEntryView,
        >::empty());
    }
}


/// Each field of an audit entry comes from the same field of its inventory
/// item, or its default when the item lacks it: the name ("Unknown
/// device"), the device class ("Other"), the version ("Unknown") and the
/// date ("unknown"); the signature state is the item's, and the status says
/// it. An entry is listed as healthy exactly when its item is known signed,
/// and as problematic otherwise.
pub proof fn entry_fields_come_from_their_item(item: DriverInventoryItem)
    ensures
        entry_spec(item).name == (match item.name {
            Some(s) => s@,
            None => "Unknown device"@,
        }),
        entry_spec(item).device == (match item.device {
            Some(s) => s@,
            None => "Other"@,
        }),
        entry_spec(item).version == (match item.version {
            Some(s) => s@,
            None => "Unknown"@,
        }),
        entry_spec(item).date == (match item.date {
            Some(s) => s@,
            None => "unknown"@,
        }),
        entry_spec(item).signed == item.signed,
        item.signed == Some(true) ==> entry_spec(item).status == "ok"@,
        item.signed == Some(false) ==> entry_spec(item).status == "unsigned"@,
        item.signed is None ==> entry_spec(item).status == "unknown"@,
        is_signed(entry_spec(item)) <==> item.signed == Some(true),
        not_signed(entry_spec(item)) <==> item.signed != Some(true),
{
}

} // verus!
