//! Disk health: drive-letter validation, the `chkdsk` decision table, the
//! reading of the last `chkdsk` event record, and the reports returned where
//! no Windows storage stack is present.
//!
//! Querying PowerShell, WMI and the event log is I/O and happens outside the
//! library; what comes back is handed to the functions here as text.
use vstd::prelude::*;
use crate::text::{append_str, before_first, chars_eq, chars_of, concat2, contains_chars, contains_seq, dec, dec_u64, eq_ic, eq_ignore_case, find_char, first_idx, is_ascii_alpha, is_ascii_char, is_ws, lemma_first_idx, lemma_trim_bounds, lines, lines_vec, opt_str_view, owned, parse_decimal_u32, parse_u32_spec, pieces, slice_vec, split_char, split_vec, starts_with, starts_with_at, str_eq_ignore_case, string_of, substring, trim, trim_range, upper};


verus! {

/// One of the largest files found on a drive.
pub struct LargeFile {
    pub path: String,
    pub name: String,
    pub extension: String,
    pub size_bytes: u64,
}

/// Space on a drive and its largest files.
pub struct DiskSpaceReport {
    pub drive: String,
    pub complete: bool,
    pub errors: Vec<String>,
    pub total_bytes: Option<u64>,
    pub free_bytes: Option<u64>,
    pub largest_files: Vec<LargeFile>,
}

/// What a `chkdsk` request came to.
pub struct ChkdskResult {
    pub success: bool,
    pub mode: String,
    pub scheduled_reboot: bool,
    pub message: String,
    pub output: String,
}

/// The most recent `chkdsk` record and the volume's dirty bit.
pub struct LastChkdskInfo {
    pub complete: bool,
    pub error: Option<String>,
    pub found: bool,
    pub timestamp: Option<String>,
    pub result_text: Option<String>,
    pub dirty_bit: bool,
    pub dirty_bit_known: bool,
}

// ---------------------------------------------------------------------------
// Drive letters
// ---------------------------------------------------------------------------

/// A drive given as `X` or `X:` (surrounding whitespace ignored), `X` an
/// ASCII letter, names drive `X` in upper case; anything else names none.
pub open spec fn drive_letter_spec(s: Seq<char>) -> Option<char> {
    let t = trim(s);
    if (t.len() == 1 || (t.len() == 2 && t[1] == ':')) && is_ascii_alpha(t[0]) {
        Some(upper(t[0]))
    } else {
        None
    }
}

/// The drive letter named by `value`, upper-cased, or `None` when `value`
/// is not exactly one ASCII letter with an optional colon.
pub fn valid_drive_letter(value: &str) -> (r: Option<char>)
    ensures
        r == drive_letter_spec(value@),
{
    let v = chars_of(value);
    let (a, b) = trim_range(v.as_slice());
    let n = b - a;
    if !(n == 1 || (n == 2 && v[a + 1] == ':')) {
        return None;
    }
    let c = v[a];
    if !(('a' <= c && c <= 'z') || ('A' <= c && c <= 'Z')) {
        return None;
    }
    if 'a' <= c && c <= 'z' {
        let u = ((c as u32) - 32) as u8;
        Some(u as char)
    } else {
        Some(c)
    }
}

/// The system drive named by the first two characters of the Windows
/// directory, or `C` when they do not name one.
pub open spec fn system_drive_spec(windows_directory: Seq<char>) -> Seq<char> {
    let s = windows_directory;
    if s.len() >= 2 && is_ascii_char(s[0]) && is_ascii_char(s[1]) && drive_letter_spec(
        s.take(2),
    ) is Some {
        seq![drive_letter_spec(s.take(2))->0]
    } else {
        seq!['C']
    }
}

/// The letter of the system drive, read from the path of the Windows
/// directory (`C` when that path does not start with a drive).
pub fn system_drive(windows_directory: &str) -> (r: String)
    ensures
        r@ == system_drive_spec(windows_directory@),
{
    let v = chars_of(windows_directory);
    if v.len() >= 2 && (v[0] as u32) < 128 && (v[1] as u32) < 128 {
        let head = substring(v.as_slice(), 0, 2);
        proof {
            assert(v@.subrange(0, 2) =~= v@.take(2));
        }
        if let Some(letter) = valid_drive_letter(head.as_str()) {
            let one = vec![letter];
            return string_of(one.as_slice());
        }
    }
    let c = vec!['C'];
    string_of(c.as_slice())
}

// ---------------------------------------------------------------------------
// chkdsk
// ---------------------------------------------------------------------------

/// What a `chkdsk` request asks to be run.
pub enum ChkdskPlan {
    /// The drive does not name a local drive letter.
    InvalidDrive,
    /// `chkdsk X: /scan`.
    Scan { drive_arg: String },
    /// The WMI `Chkdsk` method with fixing on; `recover` asks for bad-sector
    /// recovery.
    Repair { drive_arg: String, recover: bool },
    /// A mode other than `scan`, `f` and `r`.
    UnknownMode,
}

pub open spec fn drive_arg_spec(letter: char) -> Seq<char> {
    seq![letter, ':']
}

/// The drive is checked first; then `scan`, `f` and `r` are the modes known.
pub open spec fn chkdsk_plan_spec(mode: Seq<char>, drive: Seq<char>) -> ChkdskPlanView {
    match drive_letter_spec(drive) {
        None => ChkdskPlanView::InvalidDrive,
        Some(l) => if mode == seq!['s', 'c', 'a', 'n'] {
            ChkdskPlanView::Scan(drive_arg_spec(l))
        } else if mode == seq!['f'] {
            ChkdskPlanView::Repair(drive_arg_spec(l), false)
        } else if mode == seq!['r'] {
            ChkdskPlanView::Repair(drive_arg_spec(l), true)
        } else {
            ChkdskPlanView::UnknownMode
        },
    }
}

/// `ChkdskPlan` with its strings taken as character sequences.
pub enum ChkdskPlanView {
    InvalidDrive,
    Scan(Seq<char>),
    Repair(Seq<char>, bool),
    UnknownMode,
}

impl View for ChkdskPlan {
    type V = ChkdskPlanView;

    open spec fn view(&self) -> ChkdskPlanView {
        match self {
            ChkdskPlan::InvalidDrive => ChkdskPlanView::InvalidDrive,
            ChkdskPlan::Scan { drive_arg } => ChkdskPlanView::Scan(drive_arg@),
            ChkdskPlan::Repair { drive_arg, recover } => ChkdskPlanView::Repair(
                drive_arg@,
                *recover,
            ),
            ChkdskPlan::UnknownMode => ChkdskPlanView::UnknownMode,
        }
    }
}

/// Decide what a `chkdsk` request for `mode` on `drive` runs.
pub fn plan_chkdsk(mode: &str, drive: &str) -> (r: ChkdskPlan)
    ensures
        r@ == chkdsk_plan_spec(mode@, drive@),
{
    let letter = match valid_drive_letter(drive) {
        None => return ChkdskPlan::InvalidDrive,
        Some(l) => l,
    };
    let arg = vec![letter, ':'];
    let drive_arg = string_of(arg.as_slice());
    let m = chars_of(mode);
    let scan = vec!['s', 'c', 'a', 'n'];
    let f = vec!['f'];
    let rr = vec!['r'];
    proof {
        assert(scan@ == seq!['s', 'c', 'a', 'n']);
        assert(f@ == seq!['f']);
        assert(rr@ == seq!['r']);
        assert(arg@ == drive_arg_spec(letter));
    }
    if chars_eq(m.as_slice(), scan.as_slice()) {
        ChkdskPlan::Scan { drive_arg }
    } else if chars_eq(m.as_slice(), f.as_slice()) {
        ChkdskPlan::Repair { drive_arg, recover: false }
    } else if chars_eq(m.as_slice(), rr.as_slice()) {
        ChkdskPlan::Repair { drive_arg, recover: true }
    } else {
        ChkdskPlan::UnknownMode
    }
}

/// The result of a request whose drive is not a local drive letter.
pub fn chkdsk_invalid_drive(mode: &str) -> (r: ChkdskResult)
    ensures
        !r.success,
        r.mode@ == mode@,
        !r.scheduled_reboot,
        r.message@ == "Invalid drive. Select a local drive letter."@,
        r.output@ == Seq::<char>::empty(),
{
    ChkdskResult {
        success: false,
        mode: owned(mode),
        scheduled_reboot: false,
        message: owned("Invalid drive. Select a local drive letter."),
        output: String::new(),
    }
}

/// The result of a request for a mode that is not known.
pub fn chkdsk_unknown_mode(mode: &str) -> (r: ChkdskResult)
    ensures
        !r.success,
        r.mode@ == mode@,
        !r.scheduled_reboot,
        r.message@ == "Unknown chkdsk mode: "@ + mode@,
        r.output@ == Seq::<char>::empty(),
{
    ChkdskResult {
        success: false,
        mode: owned(mode),
        scheduled_reboot: false,
        message: concat2("Unknown chkdsk mode: ", mode),
        output: String::new(),
    }
}

/// The result when `chkdsk` could not be started; `error` is the launch
/// error's text.
pub fn chkdsk_launch_failure(mode: &str, error: &str) -> (r: ChkdskResult)
    ensures
        !r.success,
        r.mode@ == mode@,
        !r.scheduled_reboot,
        r.message@ == "Failed to run chkdsk: "@ + error@,
        r.output@ == Seq::<char>::empty(),
{
    ChkdskResult {
        success: false,
        mode: owned(mode),
        scheduled_reboot: false,
        message: concat2("Failed to run chkdsk: ", error),
        output: String::new(),
    }
}

/// The message for an online scan's exit code.
pub open spec fn scan_message(code: int) -> Seq<char> {
    if code == 0 {
        "Online scan completed; no errors were found."@
    } else if code == 1 {
        "Online scan completed; errors were found and fixed."@
    } else if code == 2 {
        "Online scan completed, but some cleanup was not performed."@
    } else {
        "The disk could not be checked or errors could not be fixed."@
    }
}

/// The result of `chkdsk X: /scan` from its exit code (`None` when the
/// process had none, which counts as code 3) and its console output.
pub fn chkdsk_scan_result(code: Option<i32>, stdout: &str, stderr: &str) -> (r: ChkdskResult)
    ensures
        ({
            let c: int = match code {
                Some(c) => c as int,
                None => 3,
            };
            &&& r.success == (0 <= c <= 2)
            &&& r.message@ == scan_message(c)
        }),
        r.mode@ == "scan"@,
        !r.scheduled_reboot,
        r.output@ == (if stderr@.len() == 0 {
            stdout@
        } else {
            stdout@ + seq!['\n'] + stderr@
        }),
{
    let c: i32 = match code {
        Some(c) => c,
        None => 3,
    };
    let err = chars_of(stderr);
    let output = if err.len() == 0 {
        owned(stdout)
    } else {
        let mut v: Vec<char> = Vec::new();
        append_str(&mut v, stdout);
        v.push('\n');
        append_str(&mut v, stderr);
        proof {
            assert(v@ =~= stdout@ + seq!['\n'] + stderr@);
        }
        string_of(v.as_slice())
    };
    let message = if c == 0 {
        owned("Online scan completed; no errors were found.")
    } else if c == 1 {
        owned("Online scan completed; errors were found and fixed.")
    } else if c == 2 {
        owned("Online scan completed, but some cleanup was not performed.")
    } else {
        owned("The disk could not be checked or errors could not be fixed.")
    };
    ChkdskResult {
        success: 0 <= c && c <= 2,
        mode: owned("scan"),
        scheduled_reboot: false,
        message,
        output,
    }
}

/// The WMI return code: the last line of the trimmed output, trimmed and
/// read as an unsigned decimal number.
pub open spec fn repair_code(out: Seq<char>) -> Option<u32> {
    let ls = lines(out);
    if ls.len() == 0 {
        None
    } else {
        parse_u32_spec(trim(ls.last()), 10)
    }
}

/// The message of a fixing run for `mode` and its WMI return code.
pub open spec fn repair_message(mode: Seq<char>, code: Option<u32>) -> Seq<char> {
    if code == Some(1u32) {
        "chkdsk /"@ + mode + " scheduled for next reboot."@
    } else if code == Some(0u32) {
        "chkdsk /"@ + mode + " completed."@
    } else {
        "chkdsk /"@ + mode + " failed (WMI result "@ + (match code {
            Some(c) => dec(c as nat),
            None => "unknown"@,
        }) + ")."@
    }
}

/// The result of a fixing run (`f`, or `r` with bad-sector recovery) from
/// the output of the WMI call, already trimmed.
pub fn chkdsk_repair_result(mode: &str, output: &str) -> (r: ChkdskResult)
    ensures
        r.success == (repair_code(output@) == Some(0u32) || repair_code(output@) == Some(1u32)),
        r.scheduled_reboot == (repair_code(output@) == Some(1u32)),
        r.mode@ == mode@,
        r.message@ == repair_message(mode@, repair_code(output@)),
        r.output@ == output@,
{
    let v = chars_of(output);
    let ls = lines_vec(v.as_slice());
    let code: Option<u32> = if ls.len() == 0 {
        None
    } else {
        let last = &ls[ls.len() - 1];
        proof {
            assert(last@ == lines(output@).last());
        }
        let (a, b) = trim_range(last.as_slice());
        let t = slice_vec(last.as_slice(), a, b);
        parse_decimal_u32(t.as_slice())
    };
    let mut msg: Vec<char> = Vec::new();
    append_str(&mut msg, "chkdsk /");
    append_str(&mut msg, mode);
    if code == Some(1u32) {
        append_str(&mut msg, " scheduled for next reboot.");
    } else if code == Some(0u32) {
        append_str(&mut msg, " completed.");
    } else {
        append_str(&mut msg, " failed (WMI result ");
        match code {
            Some(c) => {
                let d = dec_u64(c as u64);
                append_str(&mut msg, d.as_str());
            },
            None => {
                append_str(&mut msg, "unknown");
            },
        }
        append_str(&mut msg, ").");
    }
    ChkdskResult {
        success: code == Some(0u32) || code == Some(1u32),
        mode: owned(mode),
        scheduled_reboot: code == Some(1u32),
        message: string_of(msg.as_slice()),
        output: owned(output),
    }
}

/// What `run_chkdsk` gives where the Windows storage stack is absent: a
/// successful placeholder that names the mode it would have run.
pub fn run_chkdsk(mode: &str, _drive: &str) -> (r: ChkdskResult)
    ensures
        r.success,
        r.mode@ == mode@,
        !r.scheduled_reboot,
        r.message@ == "[stub] Would run chkdsk /"@ + mode@,
        r.output@ == Seq::<char>::empty(),
{
    ChkdskResult {
        success: true,
        mode: owned(mode),
        scheduled_reboot: false,
        message: concat2("[stub] Would run chkdsk /", mode),
        output: String::new(),
    }
}

// ---------------------------------------------------------------------------
// Last chkdsk record
// ---------------------------------------------------------------------------

/// `LastChkdskInfo` with its strings taken as character sequences.
pub struct LastChkdskView {
    pub complete: bool,
    pub error: Option<Seq<char>>,
    pub found: bool,
    pub timestamp: Option<Seq<char>>,
    pub result_text: Option<Seq<char>>,
    pub dirty_bit: bool,
    pub dirty_bit_known: bool,
}

impl View for LastChkdskInfo {
    type V = LastChkdskView;

    open spec fn view(&self) -> LastChkdskView {
        LastChkdskView {
            complete: self.complete,
            error: opt_str_view(self.error),
            found: self.found,
            timestamp: opt_str_view(self.timestamp),
            result_text: opt_str_view(self.result_text),
            dirty_bit: self.dirty_bit,
            dirty_bit_known: self.dirty_bit_known,
        }
    }
}

pub open spec fn found_tag() -> Seq<char> {
    seq!['F', 'O', 'U', 'N', 'D', '|']
}

pub open spec fn dirty_tag() -> Seq<char> {
    seq!['D', 'I', 'R', 'T', 'Y', '|']
}

pub open spec fn err_tag() -> Seq<char> {
    seq!['E', 'R', 'R', '|']
}

pub open spec fn true_word() -> Seq<char> {
    seq!['t', 'r', 'u', 'e']
}

/// Nothing read yet: complete, nothing found, dirty bit unknown.
pub open spec fn chkdsk_start() -> LastChkdskView {
    LastChkdskView {
        complete: true,
        error: None,
        found: false,
        timestamp: None,
        result_text: None,
        dirty_bit: false,
        dirty_bit_known: false,
    }
}

/// One line of the event query's output:
/// `FOUND|time|text` records the event (the text may hold `|`),
/// `DIRTY|a|b` sets the dirty bit and whether it is known (each `true` in
/// any case), `ERR|message` marks the report incomplete with that message.
pub open spec fn chkdsk_line_step(info: LastChkdskView, line: Seq<char>) -> LastChkdskView {
    if starts_with(line, found_tag()) {
        let rest = line.skip(6);
        if rest.contains('|') {
            LastChkdskView {
                complete: info.complete,
                error: info.error,
                found: true,
                timestamp: Some(before_first(rest, '|')),
                result_text: Some(rest.skip(first_idx(rest, '|') + 1 as int)),
                dirty_bit: info.dirty_bit,
                dirty_bit_known: info.dirty_bit_known,
            }
        } else {
            info
        }
    } else if starts_with(line, dirty_tag()) {
        let parts = split_char(line, '|');
        LastChkdskView {
            complete: info.complete,
            error: info.error,
            found: info.found,
            timestamp: info.timestamp,
            result_text: info.result_text,
            dirty_bit: parts.len() > 1 && eq_ic(parts[1], true_word()),
            dirty_bit_known: parts.len() > 2 && eq_ic(parts[2], true_word()),
        }
    } else if starts_with(line, err_tag()) {
        LastChkdskView {
            complete: false,
            error: Some(line.skip(4)),
            found: info.found,
            timestamp: info.timestamp,
            result_text: info.result_text,
            dirty_bit: info.dirty_bit,
            dirty_bit_known: info.dirty_bit_known,
        }
    } else {
        info
    }
}

/// The lines read in order, from `chkdsk_start`.
pub open spec fn chkdsk_fold(ls: Seq<Seq<char>>) -> LastChkdskView
    decreases ls.len(),
{
    if ls.len() == 0 {
        chkdsk_start()
    } else {
        chkdsk_line_step(chkdsk_fold(ls.drop_last()), ls.last())
    }
}

/// Apply one output line to `info`.
fn read_chkdsk_line(info: &mut LastChkdskInfo, line: &[char])
    ensures
        final(info)@ == chkdsk_line_step(old(info)@, line@),
{
    let found = vec!['F', 'O', 'U', 'N', 'D', '|'];
    let dirty = vec!['D', 'I', 'R', 'T', 'Y', '|'];
    let err = vec!['E', 'R', 'R', '|'];
    let word = vec!['t', 'r', 'u', 'e'];
    proof {
        assert(found@ == found_tag());
        assert(dirty@ == dirty_tag());
        assert(err@ == err_tag());
        assert(word@ == true_word());
    }
    if starts_with_at(line, found.as_slice()) {
        let rest = slice_vec(line, 6, line.len());
        proof {
            assert(rest@ =~= line@.skip(6));
        }
        if let Some(k) = find_char(rest.as_slice(), '|') {
            proof {
                lemma_first_idx(rest@, '|', k as int);
                assert(rest@.contains('|'));
            }
            info.found = true;
            info.timestamp = Some(substring(rest.as_slice(), 0, k));
            info.result_text = Some(substring(rest.as_slice(), k + 1, rest.len()));
            proof {
                assert(rest@.subrange(0, k as int) =~= before_first(rest@, '|'));
                assert(rest@.subrange(k + 1, rest@.len() as int) =~= rest@.skip(k + 1));
            }
        }
    } else if starts_with_at(line, dirty.as_slice()) {
        let parts = split_vec(line, '|');
        proof {
            assert(pieces(parts@).len() == parts@.len());
        }
        let d = parts.len() > 1 && eq_ignore_case(parts[1].as_slice(), word.as_slice());
        let k = parts.len() > 2 && eq_ignore_case(parts[2].as_slice(), word.as_slice());
        proof {
            if parts.len() > 1 {
                assert(pieces(parts@)[1] == parts@[1]@);
            }
            if parts.len() > 2 {
                assert(pieces(parts@)[2] == parts@[2]@);
            }
        }
        info.dirty_bit = d;
        info.dirty_bit_known = k;
    } else if starts_with_at(line, err.as_slice()) {
        info.complete = false;
        info.error = Some(substring(line, 4, line.len()));
        proof {
            assert(line@.subrange(4, line@.len() as int) =~= line@.skip(4));
        }
    }
}

/// Read the event query's output: the lines in order, each as
/// `chkdsk_line_step` says; lines of any other shape are ignored.
pub fn parse_last_chkdsk(stdout: &str) -> (r: LastChkdskInfo)
    ensures
        r@ == chkdsk_fold(lines(stdout@)),
{
    let v = chars_of(stdout);
    let ls = lines_vec(v.as_slice());
    let mut info = LastChkdskInfo {
        complete: true,
        error: None,
        found: false,
        timestamp: None,
        result_text: None,
        dirty_bit: false,
        dirty_bit_known: false,
    };
    let ghost all = lines(stdout@);
    let mut i: usize = 0;
    while i < ls.len()
        invariant
            pieces(ls@) == all,
            i <= ls@.len(),
            info@ == chkdsk_fold(all.take(i as int)),
        decreases ls.len() - i,
    {
        proof {
            assert(all.take(i + 1).drop_last() =~= all.take(i as int));
            assert(ls@[i as int]@ == all[i as int]);
        }
        read_chkdsk_line(&mut info, ls[i].as_slice());
        i = i + 1;
    }
    proof {
        assert(all.take(i as int) =~= all);
    }
    info
}

/// What `get_last_chkdsk` gives where no event log can be read: a fixed
/// clean record.
pub fn get_last_chkdsk() -> (r: LastChkdskInfo)
    ensures
        r.complete,
        r.error is None,
        r.found,
        opt_str_view(r.timestamp) == Some("2026-06-01T03:15:00-05:00"@),
        opt_str_view(r.result_text) == Some(
            "Checking file system on C:. Windows has checked the file system and found no problems."@,
        ),
        !r.dirty_bit,
        r.dirty_bit_known,
{
    LastChkdskInfo {
        complete: true,
        error: None,
        found: true,
        timestamp: Some(owned("2026-06-01T03:15:00-05:00")),
        result_text: Some(
            owned(
                "Checking file system on C:. Windows has checked the file system and found no problems.",
            ),
        ),
        dirty_bit: false,
        dirty_bit_known: true,
    }
}

// ---------------------------------------------------------------------------
// Drive health rating and TRIM
// ---------------------------------------------------------------------------

/// Where a drive's wear percentage falls; the reading itself is a
/// floating-point value and is classified before it reaches the library.
#[derive(Clone, Copy, PartialEq, Eq, Structural)]
pub enum WearBand {
    /// No wear reading.
    Unknown,
    /// Below 70 %.
    Low,
    /// At least 70 % and below 90 %.
    Worn,
    /// At least 90 %.
    Critical,
}

pub open spec fn health_rating_spec(
    status: Seq<char>,
    wear: WearBand,
    read_errors: Option<u64>,
    write_errors: Option<u64>,
    temperature_c: Option<i32>,
) -> Seq<char> {
    let errors: int = match read_errors {
        Some(e) => e as int,
        None => 0,
    } + match write_errors {
        Some(e) => e as int,
        None => 0,
    };
    let capped: int = if errors > u64::MAX { u64::MAX as int } else { errors };
    if eq_ic(status, "Unknown"@) || status.len() == 0 {
        "Unknown"@
    } else if !eq_ic(status, "Healthy"@) {
        "Critical"@
    } else if wear == WearBand::Critical {
        "Critical"@
    } else if wear == WearBand::Worn {
        "Warning"@
    } else if capped > 100 {
        "Warning"@
    } else if temperature_c matches Some(t) && t >= 70 {
        "Warning"@
    } else {
        "Good"@
    }
}

/// The health rating of a drive: `Unknown` without a status, `Critical`
/// unless the status is `Healthy` (in any case) or when wear reaches 90 %,
/// `Warning` from 70 % wear, above 100 read and write errors together, or
/// from 70 °C, and `Good` otherwise.
pub fn health_rating(
    status: &str,
    wear: WearBand,
    read_errors: Option<u64>,
    write_errors: Option<u64>,
    temperature_c: Option<i32>,
) -> (r: String)
    ensures
        r@ == health_rating_spec(status@, wear, read_errors, write_errors, temperature_c),
{
    let unknown = "Unknown";
    let healthy = "Healthy";
    if str_eq_ignore_case(status, unknown) || chars_of(status).len() == 0 {
        return owned("Unknown");
    }
    if !str_eq_ignore_case(status, healthy) {
        return owned("Critical");
    }
    if wear == WearBand::Critical {
        return owned("Critical");
    }
    if wear == WearBand::Worn {
        return owned("Warning");
    }
    let r: u64 = match read_errors {
        Some(e) => e,
        None => 0,
    };
    let w: u64 = match write_errors {
        Some(e) => e,
        None => 0,
    };
    let total = r.saturating_add(w);
    if total > 100 {
        return owned("Warning");
    }
    if let Some(t) = temperature_c {
        if t >= 70 {
            return owned("Warning");
        }
    }
    owned("Good")
}

/// TRIM state read from `fsutil behavior query DisableDeleteNotify`:
/// enabled when the output holds `= 0`; known when the query succeeded and
/// the output holds `= 0` or `= 1`.
pub fn trim_status(stdout: &str, success: bool) -> (r: (bool, bool))
    ensures
        r.0 == contains_seq(stdout@, seq!['=', ' ', '0']),
        r.1 == (success && (contains_seq(stdout@, seq!['=', ' ', '0']) || contains_seq(
            stdout@,
            seq!['=', ' ', '1'],
        ))),
{
    let v = chars_of(stdout);
    let zero = vec!['=', ' ', '0'];
    let one = vec!['=', ' ', '1'];
    proof {
        assert(zero@ == seq!['=', ' ', '0']);
        assert(one@ == seq!['=', ' ', '1']);
    }
    let enabled = contains_chars(v.as_slice(), zero.as_slice());
    let known = success && (enabled || contains_chars(v.as_slice(), one.as_slice()));
    (enabled, known)
}

/// Whether the TRIM state applies to a drive: solid-state media or an NVMe
/// bus.
pub fn trim_applies(media_type: &str, interface_type: &str) -> (r: bool)
    ensures
        r == (contains_seq(media_type@, seq!['S', 'S', 'D']) || contains_seq(
            interface_type@,
            seq!['N', 'V', 'M', 'e'],
        )),
{
    let m = chars_of(media_type);
    let i = chars_of(interface_type);
    let ssd = vec!['S', 'S', 'D'];
    let nvme = vec!['N', 'V', 'M', 'e'];
    proof {
        assert(ssd@ == seq!['S', 'S', 'D']);
        assert(nvme@ == seq!['N', 'V', 'M', 'e']);
    }
    contains_chars(m.as_slice(), ssd.as_slice()) || contains_chars(i.as_slice(), nvme.as_slice())
}

// ---------------------------------------------------------------------------
// Disk space
// ---------------------------------------------------------------------------

/// The report of a disk-space query that failed with `error`.
pub fn disk_space_failure(drive: &str, error: &str) -> (r: DiskSpaceReport)
    ensures
        r.drive@ == drive@,
        !r.complete,
        r.errors@.len() == 1 && r.errors@[0]@ == error@,
        r.total_bytes is None,
        r.free_bytes is None,
        r.largest_files@.len() == 0,
{
    let mut errors: Vec<String> = Vec::new();
    errors.push(owned(error));
    DiskSpaceReport {
        drive: owned(drive),
        complete: false,
        errors,
        total_bytes: None,
        free_bytes: None,
        largest_files: Vec::new(),
    }
}

/// The report for a drive that does not name a local drive letter.
pub fn invalid_drive_report(drive_letter: &str) -> (r: DiskSpaceReport)
    ensures
        r.drive@ == drive_letter@,
        !r.complete,
        r.errors@.len() == 1 && r.errors@[0]@ == "Invalid drive. Select a local drive letter."@,
        r.total_bytes is None,
        r.free_bytes is None,
        r.largest_files@.len() == 0,
{
    disk_space_failure(drive_letter, "Invalid drive. Select a local drive letter.")
}

fn sample_file(drive: &str, folder: &str, name: &str, extension: &str, size_bytes: u64) -> (r:
    LargeFile)
    ensures
        r.path@ == drive@ + folder@ + name@,
        r.name@ == name@,
        r.extension@ == extension@,
        r.size_bytes == size_bytes,
{
    let mut p: Vec<char> = Vec::new();
    append_str(&mut p, drive);
    append_str(&mut p, folder);
    append_str(&mut p, name);
    proof {
        assert(p@ =~= drive@ + folder@ + name@);
    }
    LargeFile {
        path: string_of(p.as_slice()),
        name: owned(name),
        extension: owned(extension),
        size_bytes,
    }
}

/// What `get_largest_files` gives where no drive can be queried: a fixed
/// sample of five files under the given drive, largest first.
pub fn get_largest_files(drive_letter: &str) -> (r: DiskSpaceReport)
    ensures
        r.drive@ == drive_letter@,
        r.complete,
        r.errors@.len() == 0,
        r.total_bytes == Some(500_000_000_000u64),
        r.free_bytes == Some(185_000_000_000u64),
        r.largest_files@.len() == 5,
        forall|i: int|
            0 <= i < 5 ==> (#[trigger] r.largest_files@[i]).path@.take(drive_letter@.len() as int)
                == drive_letter@,
        r.largest_files@[0].size_bytes == 6_200_000_000u64,
        r.largest_files@[1].size_bytes == 4_800_000_000u64,
        r.largest_files@[2].size_bytes == 3_100_000_000u64,
        r.largest_files@[3].size_bytes == 1_800_000_000u64,
        r.largest_files@[4].size_bytes == 950_000_000u64,
{
    let mut files: Vec<LargeFile> = Vec::new();
    files.push(
        sample_file(
            drive_letter,
            "\\Users\\CS\\Downloads\\",
            "Win11_23H2_English_x64.iso",
            "ISO",
            6_200_000_000,
        ),
    );
    files.push(
        sample_file(
            drive_letter,
            "\\Users\\CS\\Documents\\Backups\\",
            "backup-2026-05.vhdx",
            "VHDX",
            4_800_000_000,
        ),
    );
    files.push(
        sample_file(
            drive_letter,
            "\\Users\\CS\\Videos\\Captures\\",
            "gameplay-recording.mp4",
            "MP4",
            3_100_000_000,
        ),
    );
    files.push(
        sample_file(
            drive_letter,
            "\\Users\\CS\\Downloads\\",
            "node_modules.tar.gz",
            "GZ",
            1_800_000_000,
        ),
    );
    files.push(
        sample_file(
            drive_letter,
            "\\Users\\CS\\AppData\\Local\\Temp\\",
            "photoshop-scratch.tmp",
            "TMP",
            950_000_000,
        ),
    );
    proof {
        assert forall|i: int| 0 <= i < 5 implies (#[trigger] files@[i]).path@.take(
            drive_letter@.len() as int,
        ) == drive_letter@ by {
            let f = files@[i];
            assert(f.path@.take(drive_letter@.len() as int) =~= drive_letter@);
        }
    }
    DiskSpaceReport {
        drive: owned(drive_letter),
        complete: true,
        errors: Vec::new(),
        total_bytes: Some(500_000_000_000),
        free_bytes: Some(185_000_000_000),
        largest_files: files,
    }
}

// ---------------------------------------------------------------------------
// Laws
// ---------------------------------------------------------------------------

/// A drive letter accepted from any spelling is an upper-case ASCII letter,
/// and that letter, alone or with its colon, is accepted as itself: the
/// validation is a normal form.
pub proof fn drive_letter_is_normal_form(s: Seq<char>)
    ensures
        drive_letter_spec(s) matches Some(l) ==> {
            &&& 'A' <= l <= 'Z'
            &&& drive_letter_spec(seq![l]) == Some(l)
            &&& drive_letter_spec(seq![l, ':']) == Some(l)
        },
{
    if let Some(l) = drive_letter_spec(s) {
        let one = seq![l];
        let two = seq![l, ':'];
        assert(!is_ws(l));
        assert(!is_ws(':'));
        lemma_trim_bounds(one, 0, 1);
        lemma_trim_bounds(two, 0, 2);
        assert(one.subrange(0, 1) =~= one);
        assert(two.subrange(0, 2) =~= two);
    }
}

/// A `chkdsk` request that runs something names the drive exactly as
/// `valid_drive_letter` reads it, with its colon.
pub proof fn chkdsk_plan_names_the_validated_drive(mode: Seq<char>, drive: Seq<char>)
    ensures
        match chkdsk_plan_spec(mode, drive) {
            ChkdskPlanView::Scan(arg) => drive_letter_spec(drive) matches Some(l) && arg == seq![
                l,
                ':',
            ] && drive_letter_spec(arg) == Some(l),
            ChkdskPlanView::Repair(arg, _) => drive_letter_spec(drive) matches Some(l) && arg
                == seq![l, ':'] && drive_letter_spec(arg) == Some(l),
            _ => true,
        },
{
    drive_letter_is_normal_form(drive);
}

} // verus!
