//! PnPUtil `/enum-devices` output parser.
//!
//! The executable is trusted, but its text is structured external input:
//! parsing is bounded, malformed structure fails closed, and no
//! recommendation logic lives here. The parser is keyed to the English
//! PnPUtil headings; on a localized host the headings do not match and
//! parsing fails closed.
use vstd::prelude::*;
use crate::drivers::sdio::catalog::{clone_opt};
use crate::drivers::enum_devices::{lemma_run_lines_err, lemma_run_lines_step, device_field, end_of_output, enumeration_of, flush, close_current, initial_state, label_step, line_step, matching_step, new_block, property_step, push_device_id, run_lines, start_device, top_step, indented_step, ParseState, installed_of_block, says_extension, says_installed, driver_of_entry, first_installed, incomplete_entry, installed_view, new_entry, apply_field, close_block, id_list_push, numeric_value, optional_scalar, rank_value, required_field, scalar_checked, version_parts, DeviceBlock, MatchingEntry};
use crate::text::{before_first, blen, byte_len_exceeds, chars_eq, chars_of, concat2, contains_seq, digit_value, digits_value, eq_ic, eq_ignore_case, find_char, first_idx, has_char, is_ascii_digit, is_whitespace, is_ws, lemma_first_idx, lemma_lead_ws, lemma_trim_idem, lower_char, lower_seq, owned, parse_decimal_u32, parse_u32_radix, parse_u32_spec, pieces, slice_vec, split_char, split_vec, starts_with_at, string_of, trim, trim_range, trim_start, opt_str_view, lines, lines_vec, contains_chars};
use crate::drivers::identity::{identities_view, texts_view, DeviceIdentity, InstalledDriver, MAX_COMPATIBLE_IDS_PER_DEVICE, MAX_DEVICES, MAX_FIELD_LENGTH, MAX_HARDWARE_IDS_PER_DEVICE, MAX_INSTANCE_ID_LENGTH, MAX_MATCHING_DRIVERS_PER_DEVICE, MAX_OUTPUT_BYTES, MatchingDriver};

verus! {

#[derive(Debug, Clone, PartialEq, Eq)]
pub enum PnputilParseError {
    EmptyInput,
    OutputTooLarge,
    DeviceCountExceeded,
    IdsPerDeviceExceeded,
    MatchingDriversExceeded,
    FieldTooLong,
    MissingInstanceId,
    Malformed(String),
}

/// A [`PnputilParseError`] as plain values.
pub enum ParseErrorView {
    EmptyInput,
    OutputTooLarge,
    DeviceCountExceeded,
    IdsPerDeviceExceeded,
    MatchingDriversExceeded,
    FieldTooLong,
    MissingInstanceId,
    Malformed(Seq<char>),
}

impl View for PnputilParseError {
    type V = ParseErrorView;

    open spec fn view(&self) -> ParseErrorView {
        match self {
            PnputilParseError::EmptyInput => ParseErrorView::EmptyInput,
            PnputilParseError::OutputTooLarge => ParseErrorView::OutputTooLarge,
            PnputilParseError::DeviceCountExceeded => ParseErrorView::DeviceCountExceeded,
            PnputilParseError::IdsPerDeviceExceeded => ParseErrorView::IdsPerDeviceExceeded,
            PnputilParseError::MatchingDriversExceeded => ParseErrorView::MatchingDriversExceeded,
            PnputilParseError::FieldTooLong => ParseErrorView::FieldTooLong,
            PnputilParseError::MissingInstanceId => ParseErrorView::MissingInstanceId,
            PnputilParseError::Malformed(d) => ParseErrorView::Malformed(d@),
        }
    }
}

/// A text-or-absent result as plain values.
pub open spec fn opt_text_result(r: Result<Option<String>, PnputilParseError>) -> Result<
    Option<Seq<char>>,
    ParseErrorView,
> {
    match r {
        Ok(o) => Ok(opt_str_view(o)),
        Err(e) => Err(e@),
    }
}

/// A number result as plain values.
pub open spec fn number_result(r: Result<u32, PnputilParseError>) -> Result<u32, ParseErrorView> {
    match r {
        Ok(n) => Ok(n),
        Err(e) => Err(e@),
    }
}

/// The description of each parse error.
pub open spec fn parse_error_text(e: PnputilParseError) -> Seq<char> {
    match e {
        PnputilParseError::EmptyInput => "PnPUtil produced no output"@,
        PnputilParseError::OutputTooLarge => "PnPUtil output exceeded the accepted size"@,
        PnputilParseError::DeviceCountExceeded => "PnPUtil reported more devices than accepted"@,
        PnputilParseError::IdsPerDeviceExceeded => "PnPUtil reported more IDs for one device than accepted"@,
        PnputilParseError::MatchingDriversExceeded => "PnPUtil reported more matching drivers than accepted"@,
        PnputilParseError::FieldTooLong => "a PnPUtil field exceeded the accepted length"@,
        PnputilParseError::MissingInstanceId => "a device block is missing its instance ID"@,
        PnputilParseError::Malformed(d) => "malformed PnPUtil output: "@ + d@,
    }
}

impl PnputilParseError {
    /// The human-readable description of the error.
    pub fn message(&self) -> (r: String)
        ensures
            r@ == parse_error_text(*self),
    {
        match self {
            PnputilParseError::EmptyInput => owned("PnPUtil produced no output"),
            PnputilParseError::OutputTooLarge => owned("PnPUtil output exceeded the accepted size"),
            PnputilParseError::DeviceCountExceeded => owned(
                "PnPUtil reported more devices than accepted",
            ),
            PnputilParseError::IdsPerDeviceExceeded => owned(
                "PnPUtil reported more IDs for one device than accepted",
            ),
            PnputilParseError::MatchingDriversExceeded => owned(
                "PnPUtil reported more matching drivers than accepted",
            ),
            PnputilParseError::FieldTooLong => owned("a PnPUtil field exceeded the accepted length"),
            PnputilParseError::MissingInstanceId => owned("a device block is missing its instance ID"),
            PnputilParseError::Malformed(d) => concat2("malformed PnPUtil output: ", d.as_str()),
        }
    }
}

/// Result of a bounded, fidelity-aware parse of one `/enum-devices` run.
#[derive(Debug, Clone, PartialEq, Eq)]
pub struct ParsedEnumeration {
    /// True when the full `/drivers /properties` shape was present.
    pub complete: bool,
    /// True when the reduced (identity-only) shape was parsed.
    pub degraded: bool,
    pub devices: Vec<DeviceIdentity>,
}

/// Which PnPUtil enumeration form the output was expected to use.
#[derive(Debug, Clone, Copy, PartialEq, Eq, Structural)]
pub enum EnumMode {
    /// Full `/drivers /properties` enumeration: missing properties are truncation.
    Full,
    /// `/deviceids` enumeration: IDs present, no properties.
    IdentityOnly,
    /// Bare `/enum-devices` enumeration: minimal identity.
    Degraded,
}

fn malformed(detail: &str) -> (e: PnputilParseError)
    ensures
        e matches PnputilParseError::Malformed(d) && d@ == detail@,
{
    PnputilParseError::Malformed(owned(detail))
}

// ---------------------------------------------------------------------------
// Scalars
// ---------------------------------------------------------------------------

/// Split `line` at its first `:` into trimmed label and value (the value is
/// empty when there is no `:`).
pub open spec fn label_of(line: Seq<char>) -> (Seq<char>, Seq<char>) {
    if line.contains(':') {
        (trim(before_first(line, ':')), trim(line.skip(first_idx(line, ':') + 1int)))
    } else {
        (trim(line), Seq::empty())
    }
}

fn trimmed_vec(v: &[char]) -> (r: Vec<char>)
    ensures
        r@ == trim(v@),
{
    let (a, b) = trim_range(v);
    slice_vec(v, a, b)
}

pub fn split_label(line: &[char]) -> (r: (Vec<char>, Vec<char>))
    ensures
        (r.0@, r.1@) == label_of(line@),
{
    match find_char(line, ':') {
        None => {
            proof {
                if line@.contains(':') {
                    let k = choose|k: int| 0 <= k < line@.len() && line@[k] == ':';
                    assert(line@[k] == ':');
                }
            }
            (trimmed_vec(line), Vec::new())
        },
        Some(i) => {
            proof {
                assert(line@.len() == line.len());
                assert(line@[i as int] == ':');
                lemma_first_idx(line@, ':', i as int);
            }
            let label = slice_vec(line, 0, i);
            let value = slice_vec(line, i + 1, line.len());
            proof {
                assert(label@ =~= before_first(line@, ':'));
                assert(value@ =~= line@.skip(first_idx(line@, ':') + 1int));
            }
            (trimmed_vec(label.as_slice()), trimmed_vec(value.as_slice()))
        },
    }
}

/// Trimmed text, or `None` when nothing remains.
pub fn normalize_scalar(raw: &[char]) -> (r: Option<String>)
    ensures
        trim(raw@).len() == 0 ==> r is None,
        trim(raw@).len() > 0 ==> (r matches Some(s) && s@ == trim(raw@)),
{
    let t = trimmed_vec(raw);
    if t.len() == 0 {
        None
    } else {
        Some(string_of(t.as_slice()))
    }
}

/// Trimmed text within the field length bound, or `None` when empty.
pub fn normalize_scalar_checked(raw: &[char]) -> (r: Result<Option<String>, PnputilParseError>)
    ensures
        trim(raw@).len() == 0 ==> r == Ok::<Option<String>, PnputilParseError>(None),
        trim(raw@).len() > 0 && blen(trim(raw@)) > MAX_FIELD_LENGTH ==> r == Err::<
            Option<String>,
            PnputilParseError,
        >(PnputilParseError::FieldTooLong),
        trim(raw@).len() > 0 && blen(trim(raw@)) <= MAX_FIELD_LENGTH ==> (r matches Ok(Some(s))
            && s@ == trim(raw@)),
        opt_text_result(r) == scalar_checked(raw@),
{
    let t = trimmed_vec(raw);
    if t.len() == 0 {
        return Ok(None);
    }
    if byte_len_exceeds(t.as_slice(), MAX_FIELD_LENGTH) {
        return Err(PnputilParseError::FieldTooLong);
    }
    Ok(Some(string_of(t.as_slice())))
}

pub open spec fn is_unknown(s: Seq<char>) -> bool {
    eq_ic(s, seq!['u', 'n', 'k', 'n', 'o', 'w', 'n'])
}

/// Like [`normalize_scalar_checked`], with PnPUtil's `Unknown` placeholder
/// (any ASCII case) read as absent.
pub fn normalize_optional_scalar(raw: &[char]) -> (r: Result<Option<String>, PnputilParseError>)
    ensures
        trim(raw@).len() == 0 || is_unknown(trim(raw@)) ==> r == Ok::<
            Option<String>,
            PnputilParseError,
        >(None),
        !(trim(raw@).len() == 0 || is_unknown(trim(raw@))) && blen(trim(raw@)) > MAX_FIELD_LENGTH
            ==> r == Err::<Option<String>, PnputilParseError>(PnputilParseError::FieldTooLong),
        !(trim(raw@).len() == 0 || is_unknown(trim(raw@))) && blen(trim(raw@)) <= MAX_FIELD_LENGTH
            ==> (r matches Ok(Some(s)) && s@ == trim(raw@)),
        opt_text_result(r) == optional_scalar(raw@),
{
    let t = trimmed_vec(raw);
    let unknown = vec!['u', 'n', 'k', 'n', 'o', 'w', 'n'];
    proof {
        assert(unknown@ =~= seq!['u', 'n', 'k', 'n', 'o', 'w', 'n']);
    }
    if t.len() == 0 || eq_ignore_case(t.as_slice(), unknown.as_slice()) {
        return Ok(None);
    }
    if byte_len_exceeds(t.as_slice(), MAX_FIELD_LENGTH) {
        return Err(PnputilParseError::FieldTooLong);
    }
    Ok(Some(string_of(t.as_slice())))
}

/// A required non-empty trimmed field within the instance-ID bound.
pub fn parse_required_field(raw: &[char], error: PnputilParseError) -> (r: Result<
    String,
    PnputilParseError,
>)
    ensures
        trim(raw@).len() == 0 ==> r == Err::<String, PnputilParseError>(error),
        trim(raw@).len() > 0 && blen(trim(raw@)) > MAX_INSTANCE_ID_LENGTH ==> r == Err::<
            String,
            PnputilParseError,
        >(PnputilParseError::FieldTooLong),
        trim(raw@).len() > 0 && blen(trim(raw@)) <= MAX_INSTANCE_ID_LENGTH ==> (r matches Ok(s)
            && s@ == trim(raw@)),
        match required_field(raw@, error@) {
            Ok(t) => r matches Ok(s) && s@ == t,
            Err(e) => r matches Err(x) && x@ == e,
        },
{
    let t = trimmed_vec(raw);
    if t.len() == 0 {
        return Err(error);
    }
    if byte_len_exceeds(t.as_slice(), MAX_INSTANCE_ID_LENGTH) {
        return Err(PnputilParseError::FieldTooLong);
    }
    Ok(string_of(t.as_slice()))
}

pub open spec fn str_seq(v: Seq<String>) -> Seq<Seq<char>> {
    texts_view(v)
}

/// Whether some entry of `list` equals `id` ASCII case-insensitively.
pub open spec fn has_ci(list: Seq<Seq<char>>, id: Seq<char>) -> bool {
    exists|k: int| 0 <= k < list.len() && eq_ic(#[trigger] list[k], id)
}

#[verifier::loop_isolation(false)]
/// Add a normalized ID to `list` unless it is empty or already present
/// (ASCII case-insensitively); an over-long ID or a full list is refused.
pub fn push_id_checked(list: &mut Vec<String>, raw: &[char], cap: usize, error: PnputilParseError) -> (r:
    Result<(), PnputilParseError>)
    ensures
        r is Err ==> final(list)@ == old(list)@,
        trim(raw@).len() == 0 ==> r is Ok && final(list)@ == old(list)@,
        trim(raw@).len() > 0 ==> {
            let id = trim(raw@);
            if blen(id) > MAX_FIELD_LENGTH {
                r == Err::<(), PnputilParseError>(PnputilParseError::FieldTooLong)
            } else if has_ci(str_seq(old(list)@), id) {
                r is Ok && final(list)@ == old(list)@
            } else if old(list)@.len() >= cap {
                r == Err::<(), PnputilParseError>(error)
            } else {
                r is Ok && str_seq(final(list)@) == str_seq(old(list)@).push(id)
            }
        },
        match id_list_push(str_seq(old(list)@), raw@, cap as nat, error@) {
            Ok(l) => r is Ok && str_seq(final(list)@) == l,
            Err(e) => r matches Err(x) && x@ == e,
        },
{
    let t = trimmed_vec(raw);
    if t.len() == 0 {
        return Ok(());
    }
    if byte_len_exceeds(t.as_slice(), MAX_FIELD_LENGTH) {
        return Err(PnputilParseError::FieldTooLong);
    }
    let mut k: usize = 0;
    while k < list.len()
        invariant
            k <= list@.len(),
            t@ == trim(raw@),
            forall|j: int| 0 <= j < k ==> !eq_ic(#[trigger] str_seq(list@)[j], t@),
        decreases list.len() - k,
    {
        let e = chars_of(list[k].as_str());
        if eq_ignore_case(e.as_slice(), t.as_slice()) {
            proof {
                assert(eq_ic(str_seq(list@)[k as int], t@));
            }
            return Ok(());
        }
        k = k + 1;
    }
    if list.len() >= cap {
        return Err(error);
    }
    let ghost before = list@;
    list.push(string_of(t.as_slice()));
    proof {
        assert(str_seq(list@) =~= str_seq(before).push(t@));
    }
    Ok(())
}

// ---------------------------------------------------------------------------
// Driver Version dates
// ---------------------------------------------------------------------------

#[derive(Debug, Clone, Copy, PartialEq, Eq, Structural)]
pub enum DateCheck {
    Valid,
    Malformed,
    NotADate,
}

pub open spec fn all_ascii_digits(s: Seq<char>) -> bool {
    s.len() > 0 && forall|i: int| 0 <= i < s.len() ==> is_ascii_digit(#[trigger] s[i])
}

pub open spec fn is_leap(y: nat) -> bool {
    (y % 4 == 0 && y % 100 != 0) || y % 400 == 0
}

pub open spec fn days_in(y: nat, m: nat) -> nat {
    if m == 1 || m == 3 || m == 5 || m == 7 || m == 8 || m == 10 || m == 12 {
        31
    } else if m == 4 || m == 6 || m == 9 || m == 11 {
        30
    } else if m == 2 && is_leap(y) {
        29
    } else if m == 2 {
        28
    } else {
        0
    }
}

/// Calendar check of a (year, month, day).
pub open spec fn calendar(y: nat, m: nat, d: nat) -> DateCheck {
    if m < 1 || m > 12 || d == 0 || d > days_in(y, m) {
        DateCheck::Malformed
    } else {
        DateCheck::Valid
    }
}

/// Date shape of a token: `MM/DD/YYYY` or `YYYY-MM-DD` with ASCII digits is a
/// date (valid or calendar-impossible); anything else is not a date.
pub open spec fn date_check(t: Seq<char>) -> DateCheck {
    if t.contains('/') {
        let p = split_char(t, '/');
        if p.len() != 3 || p[0].len() != 2 || p[1].len() != 2 || p[2].len() != 4 || !all_ascii_digits(
            p[0],
        ) || !all_ascii_digits(p[1]) || !all_ascii_digits(p[2]) {
            DateCheck::NotADate
        } else {
            calendar(digits_value(p[2], 10), digits_value(p[0], 10), digits_value(p[1], 10))
        }
    } else if t.contains('-') {
        let p = split_char(t, '-');
        if p.len() != 3 || p[0].len() != 4 || p[1].len() != 2 || p[2].len() != 2 || !all_ascii_digits(
            p[0],
        ) || !all_ascii_digits(p[1]) || !all_ascii_digits(p[2]) {
            DateCheck::NotADate
        } else {
            calendar(digits_value(p[0], 10), digits_value(p[1], 10), digits_value(p[2], 10))
        }
    } else {
        DateCheck::NotADate
    }
}

fn ascii_number(s: &Vec<char>) -> (r: Option<u32>)
    requires
        s@.len() <= 4,
    ensures
        all_ascii_digits(s@) ==> r == Some(digits_value(s@, 10) as u32) && digits_value(s@, 10)
            <= 9999,
        !all_ascii_digits(s@) ==> r is None,
{
    if s.len() == 0 {
        return None;
    }
    let mut acc: u32 = 0;
    let mut i: usize = 0;
    while i < s.len()
        invariant
            i <= s@.len() <= 4,
            forall|j: int| 0 <= j < i ==> is_ascii_digit(#[trigger] s@[j]),
            acc == digits_value(s@.take(i as int), 10),
            acc < pow10(i as nat),
        decreases s.len() - i,
    {
        let c = s[i];
        if !('0' <= c && c <= '9') {
            return None;
        }
        proof {
            assert(s@.take(i + 1).drop_last() =~= s@.take(i as int));
            assert(digit_value(c, 10) == Some(((c as u32) - 48) as nat));
        }
        acc = acc * 10 + (c as u32 - 48);
        i = i + 1;
    }
    proof {
        assert(s@.take(i as int) =~= s@);
    }
    Some(acc)
}

/// `10^n` for the digit counts a date part can have.
pub open spec fn pow10(n: nat) -> nat {
    if n == 0 {
        1
    } else if n == 1 {
        10
    } else if n == 2 {
        100
    } else if n == 3 {
        1000
    } else {
        10000
    }
}

fn days_in_month(y: u32, m: u32) -> (r: u32)
    ensures
        r == days_in(y as nat, m as nat),
{
    if m == 1 || m == 3 || m == 5 || m == 7 || m == 8 || m == 10 || m == 12 {
        31
    } else if m == 4 || m == 6 || m == 9 || m == 11 {
        30
    } else if m == 2 && ((y % 4 == 0 && y % 100 != 0) || y % 400 == 0) {
        29
    } else if m == 2 {
        28
    } else {
        0
    }
}

/// Recognize the date forms PnPUtil emits in Driver Version values.
pub fn classify_date_token(token: &[char]) -> (r: DateCheck)
    ensures
        r == date_check(token@),
{
    let slash = has_char(token, '/');
    let dash = has_char(token, '-');
    if !slash && !dash {
        return DateCheck::NotADate;
    }
    let sep = if slash {
        '/'
    } else {
        '-'
    };
    let parts = split_vec(token, sep);
    let ghost ps = split_char(token@, sep);
    assert(pieces(parts@) == ps);
    let (l0, l1, l2): (usize, usize, usize) = if slash {
        (2, 2, 4)
    } else {
        (4, 2, 2)
    };
    if parts.len() != 3 || parts[0].len() != l0 || parts[1].len() != l1 || parts[2].len() != l2 {
        return DateCheck::NotADate;
    }
    assert(parts@[0]@ == ps[0] && parts@[1]@ == ps[1] && parts@[2]@ == ps[2]);
    let a = ascii_number(&parts[0]);
    let b = ascii_number(&parts[1]);
    let c = ascii_number(&parts[2]);
    let (y, m, d) = match (a, b, c) {
        (Some(a), Some(b), Some(c)) => if slash {
            (c, a, b)
        } else {
            (a, b, c)
        },
        _ => {
            return DateCheck::NotADate;
        },
    };
    if m < 1 || m > 12 || d == 0 || d > days_in_month(y, m) {
        DateCheck::Malformed
    } else {
        DateCheck::Valid
    }
}

/// Index of the first Unicode whitespace character in `s`.
pub open spec fn first_ws(s: Seq<char>, i: int) -> bool {
    0 <= i < s.len() && is_ws(s[i]) && forall|k: int| 0 <= k < i ==> !is_ws(#[trigger] s[k])
}

fn find_whitespace(v: &[char]) -> (r: Option<usize>)
    ensures
        r matches Some(i) ==> first_ws(v@, i as int),
        r is None ==> forall|k: int| 0 <= k < v@.len() ==> !is_ws(#[trigger] v@[k]),
{
    let mut i: usize = 0;
    while i < v.len()
        invariant
            i <= v@.len(),
            forall|k: int| 0 <= k < i ==> !is_ws(#[trigger] v@[k]),
        decreases v.len() - i,
    {
        if is_whitespace(v[i]) {
            return Some(i);
        }
        i = i + 1;
    }
    None
}

/// What `split_driver_version` yields: `(date, version)` texts.
pub open spec fn driver_version_spec(value: Seq<char>) -> Result<
    (Option<Seq<char>>, Option<Seq<char>>),
    Option<Seq<char>>,
> {
    // Err(None): field too long; Err(Some(token)): impossible date `token`.
    let t = trim(value);
    if t.len() == 0 {
        Ok((None, None))
    } else if blen(t) > MAX_FIELD_LENGTH {
        Err(None)
    } else if exists|i: int| first_ws(t, i) {
        let i = choose|i: int| first_ws(t, i);
        let first = t.take(i);
        let rest = trim(t.skip(i));
        match date_check(first) {
            DateCheck::Valid => Ok(
                (
                    Some(first),
                    if rest.len() == 0 {
                        None
                    } else {
                        Some(rest)
                    },
                ),
            ),
            DateCheck::Malformed => Err(Some(first)),
            DateCheck::NotADate => Ok((None, Some(t))),
        }
    } else {
        match date_check(t) {
            DateCheck::Malformed => Err(Some(t)),
            _ => Ok((None, Some(t))),
        }
    }
}

pub open spec fn opt_text_of(o: Option<String>) -> Option<Seq<char>> {
    match o {
        Some(s) => Some(s@),
        None => None,
    }
}

/// Split a `Driver Version` value into its date and version parts; a
/// date-shaped but calendar-impossible date fails closed.
pub fn split_driver_version(value: &str) -> (r: Result<
    (Option<String>, Option<String>),
    PnputilParseError,
>)
    ensures
        match driver_version_spec(value@) {
            Ok((d, v)) => r matches Ok((dd, vv)) && opt_text_of(dd) == d && opt_text_of(vv) == v,
            Err(None) => r == Err::<(Option<String>, Option<String>), PnputilParseError>(
                PnputilParseError::FieldTooLong,
            ),
            Err(Some(tok)) => r matches Err(PnputilParseError::Malformed(m)) && m@
                == "invalid Driver Version date: "@ + tok,
        },
        match version_parts(value@) {
            Ok((d, v)) => r matches Ok((dd, vv)) && opt_str_view(dd) == d && opt_str_view(vv) == v,
            Err(e) => r matches Err(x) && x@ == e,
        },
{
    let raw = chars_of(value);
    let t = trimmed_vec(raw.as_slice());
    if t.len() == 0 {
        return Ok((None, None));
    }
    if byte_len_exceeds(t.as_slice(), MAX_FIELD_LENGTH) {
        return Err(PnputilParseError::FieldTooLong);
    }
    match find_whitespace(t.as_slice()) {
        Some(i) => {
            proof {
                let j = choose|j: int| first_ws(t@, j);
                if j < i {
                    assert(!is_ws(t@[j]));
                }
                if j > i {
                    assert(!is_ws(t@[i as int]));
                }
            }
            let first = slice_vec(t.as_slice(), 0, i);
            let rest_raw = slice_vec(t.as_slice(), i, t.len());
            let rest = trimmed_vec(rest_raw.as_slice());
            proof {
                assert(first@ =~= t@.take(i as int));
                assert(rest_raw@ =~= t@.skip(i as int));
            }
            match classify_date_token(first.as_slice()) {
                DateCheck::Valid => {
                    let v = if rest.len() == 0 {
                        None
                    } else {
                        Some(string_of(rest.as_slice()))
                    };
                    Ok((Some(string_of(first.as_slice())), v))
                },
                DateCheck::Malformed => {
                    let f = string_of(first.as_slice());
                    Err(
                        PnputilParseError::Malformed(
                            concat2("invalid Driver Version date: ", f.as_str()),
                        ),
                    )
                },
                DateCheck::NotADate => Ok((None, Some(string_of(t.as_slice())))),
            }
        },
        None => {
            proof {
                if exists|j: int| first_ws(t@, j) {
                    let j = choose|j: int| first_ws(t@, j);
                    assert(is_ws(t@[j]));
                }
            }
            match classify_date_token(t.as_slice()) {
                DateCheck::Malformed => {
                    let f = string_of(t.as_slice());
                    Err(
                        PnputilParseError::Malformed(
                            concat2("invalid Driver Version date: ", f.as_str()),
                        ),
                    )
                },
                _ => Ok((None, Some(string_of(t.as_slice())))),
            }
        },
    }
}

/// Parse a rank token: bare hexadecimal (e.g. `00FF0001`).
pub fn parse_rank(value: &str) -> (r: Result<u32, PnputilParseError>)
    ensures
        match parse_u32_spec(trim(value@), 16) {
            Some(n) => r == Ok::<u32, PnputilParseError>(n),
            None => r matches Err(PnputilParseError::Malformed(m)) && m@ == "invalid driver rank: "@
                + trim(value@),
        },
        number_result(r) == rank_value(value@),
{
    let raw = chars_of(value);
    let t = trimmed_vec(raw.as_slice());
    match parse_u32_radix(t.as_slice(), 16) {
        Some(n) => Ok(n),
        None => {
            let s = string_of(t.as_slice());
            Err(PnputilParseError::Malformed(concat2("invalid driver rank: ", s.as_str())))
        },
    }
}

/// The first maximal run of non-whitespace characters, if any.
pub open spec fn first_token(s: Seq<char>) -> Option<Seq<char>> {
    let t = trim_start(s);
    if t.len() == 0 {
        None
    } else if exists|i: int| first_ws(t, i) {
        Some(t.take(choose|i: int| first_ws(t, i)))
    } else {
        Some(t)
    }
}

/// A numeric token: `0x`/`0X`-prefixed hexadecimal, or decimal.
pub open spec fn uint_of_token(t: Seq<char>) -> Option<u32> {
    if t.len() >= 2 && t[0] == '0' && (t[1] == 'x' || t[1] == 'X') {
        parse_u32_spec(t.skip(2), 16)
    } else {
        parse_u32_spec(t, 10)
    }
}

/// Parse a numeric field (its first whitespace-separated token) that may be
/// decimal or `0x`-prefixed hexadecimal.
pub fn parse_uint_token(value: &str) -> (r: Result<u32, PnputilParseError>)
    ensures
        match first_token(value@) {
            None => r matches Err(PnputilParseError::Malformed(m)) && m@ == "missing numeric value"@,
            Some(t) => match uint_of_token(t) {
                Some(n) => r == Ok::<u32, PnputilParseError>(n),
                None => r matches Err(PnputilParseError::Malformed(_)),
            },
        },
        number_result(r) == numeric_value(value@),
{
    let raw = chars_of(value);
    let (a, b) = trim_range(raw.as_slice());
    let s = slice_vec(raw.as_slice(), a, raw.len());
    proof {
        if (a as int) < raw@.len() {
            assert(a < b);
        }
        lemma_lead_ws(raw@, a as int);
        assert(s@ =~= trim_start(raw@));
    }
    if s.len() == 0 {
        return Err(malformed("missing numeric value"));
    }
    let tok = match find_whitespace(s.as_slice()) {
        Some(i) => {
            proof {
                let j = choose|j: int| first_ws(s@, j);
                if j < i {
                    assert(!is_ws(s@[j]));
                }
                if j > i {
                    assert(!is_ws(s@[i as int]));
                }
            }
            let t = slice_vec(s.as_slice(), 0, i);
            proof {
                assert(t@ =~= s@.take(i as int));
            }
            t
        },
        None => {
            proof {
                if exists|j: int| first_ws(s@, j) {
                    let j = choose|j: int| first_ws(s@, j);
                    assert(is_ws(s@[j]));
                }
            }
            s
        },
    };
    if tok.len() >= 2 && tok[0] == '0' && (tok[1] == 'x' || tok[1] == 'X') {
        let hex = slice_vec(tok.as_slice(), 2, tok.len());
        proof {
            assert(hex@ =~= tok@.skip(2));
        }
        match parse_u32_radix(hex.as_slice(), 16) {
            Some(n) => Ok(n),
            None => {
                let t = string_of(tok.as_slice());
                Err(PnputilParseError::Malformed(concat2("invalid hex value: ", t.as_str())))
            },
        }
    } else {
        match parse_decimal_u32(tok.as_slice()) {
            Some(n) => Ok(n),
            None => {
                let t = string_of(tok.as_slice());
                Err(PnputilParseError::Malformed(concat2("invalid decimal value: ", t.as_str())))
            },
        }
    }
}

// ---------------------------------------------------------------------------
// Device blocks
// ---------------------------------------------------------------------------

fn is_label(v: &[char], lit: &str) -> (r: bool)
    ensures
        r == (v@ == lit@),
{
    let l = chars_of(lit);
    chars_eq(v, l.as_slice())
}

/// One matching-driver entry being assembled.
pub struct MatchingBuilder {
    pub inf_name: Option<String>,
    pub original_inf_name: Option<String>,
    pub provider: Option<String>,
    pub class: Option<String>,
    pub driver_date: Option<String>,
    pub driver_version: Option<String>,
    pub signer: Option<String>,
    pub rank: Option<u32>,
    pub status: Option<String>,
}

impl View for MatchingBuilder {
    type V = MatchingEntry;

    open spec fn view(&self) -> MatchingEntry {
        MatchingEntry {
            inf_name: opt_str_view(self.inf_name),
            original_inf_name: opt_str_view(self.original_inf_name),
            provider: opt_str_view(self.provider),
            class: opt_str_view(self.class),
            driver_date: opt_str_view(self.driver_date),
            driver_version: opt_str_view(self.driver_version),
            signer: opt_str_view(self.signer),
            rank: self.rank,
            status: opt_str_view(self.status),
        }
    }
}

fn new_matching(inf_name: Option<String>) -> (r: MatchingBuilder)
    ensures
        r.inf_name == inf_name,
        r.rank is None,
        r.status is None,
        r@ == new_entry(opt_str_view(inf_name)),
{
    MatchingBuilder {
        inf_name,
        original_inf_name: None,
        provider: None,
        class: None,
        driver_date: None,
        driver_version: None,
        signer: None,
        rank: None,
        status: None,
    }
}

/// Apply one `label: value` line of a matching-driver entry: the known
/// fields are normalized into the entry (rank as hexadecimal, version split
/// into date and version); every other field is only length-checked.
#[verifier::rlimit(30)]
fn apply_matching_field(entry: &mut MatchingBuilder, label: &[char], value: &[char]) -> (r: Result<
    (),
    PnputilParseError,
>)
    ensures
        final(entry).inf_name == old(entry).inf_name,
        match apply_field(old(entry)@, label@, value@) {
            Ok(e) => r is Ok && final(entry)@ == e,
            Err(e) => r matches Err(x) && x@ == e,
        },
{
    let v = string_of(value);
    if is_label(label, "Original Name") {
        match normalize_scalar_checked(value) {
            Err(e) => {
                return Err(e);
            },
            Ok(x) => {
                entry.original_inf_name = x;
            },
        }
    } else if is_label(label, "Provider Name") {
        match normalize_scalar_checked(value) {
            Err(e) => {
                return Err(e);
            },
            Ok(x) => {
                entry.provider = x;
            },
        }
    } else if is_label(label, "Class Name") {
        match normalize_optional_scalar(value) {
            Err(e) => {
                return Err(e);
            },
            Ok(x) => {
                entry.class = x;
            },
        }
    } else if is_label(label, "Class GUID") || is_label(label, "Matching Device ID") || is_label(
        label,
        "Extension ID",
    ) {
        let t = trimmed_vec(value);
        if byte_len_exceeds(t.as_slice(), MAX_FIELD_LENGTH) {
            return Err(PnputilParseError::FieldTooLong);
        }
    } else if is_label(label, "Driver Version") {
        match split_driver_version(v.as_str()) {
            Err(e) => {
                return Err(e);
            },
            Ok((date, version)) => {
                entry.driver_date = date;
                entry.driver_version = version;
            },
        }
    } else if is_label(label, "Signer Name") {
        match normalize_scalar_checked(value) {
            Err(e) => {
                return Err(e);
            },
            Ok(x) => {
                entry.signer = x;
            },
        }
    } else if is_label(label, "Driver Rank") {
        match parse_rank(v.as_str()) {
            Err(e) => {
                return Err(e);
            },
            Ok(n) => {
                entry.rank = Some(n);
            },
        }
    } else if is_label(label, "Driver Status") {
        match normalize_scalar_checked(value) {
            Err(e) => {
                return Err(e);
            },
            Ok(x) => {
                entry.status = x;
            },
        }
    } else {
        if byte_len_exceeds(value, MAX_FIELD_LENGTH) {
            return Err(PnputilParseError::FieldTooLong);
        }
    }
    Ok(())
}

/// A device block being assembled.
pub struct DeviceBuilder {
    pub instance_id: String,
    pub hardware_ids: Vec<String>,
    pub compatible_ids: Vec<String>,
    pub class_guid: Option<String>,
    pub class_name: Option<String>,
    pub description: Option<String>,
    pub manufacturer: Option<String>,
    pub problem_code: Option<u32>,
    pub top_level_driver_name: Option<String>,
    pub matching: Vec<MatchingBuilder>,
    pub saw_properties: bool,
    pub property_value_lines: usize,
}

impl View for DeviceBuilder {
    type V = DeviceBlock;

    open spec fn view(&self) -> DeviceBlock {
        DeviceBlock {
            instance_id: self.instance_id@,
            hardware_ids: texts_view(self.hardware_ids@),
            compatible_ids: texts_view(self.compatible_ids@),
            class_guid: opt_str_view(self.class_guid),
            class_name: opt_str_view(self.class_name),
            description: opt_str_view(self.description),
            manufacturer: opt_str_view(self.manufacturer),
            problem_code: self.problem_code,
            top_level_driver_name: opt_str_view(self.top_level_driver_name),
            matching: self.matching@.map_values(|m: MatchingBuilder| m@),
            saw_properties: self.saw_properties,
            has_property_value: self.property_value_lines > 0,
        }
    }
}

/// A well-formed ID list: bounded, trimmed non-empty entries within the
/// field bound, no two equal ASCII case-insensitively.
pub open spec fn ids_ok(ids: Seq<Seq<char>>, cap: nat) -> bool {
    &&& ids.len() <= cap
    &&& forall|k: int|
        0 <= k < ids.len() ==> (#[trigger] ids[k]).len() > 0 && trim(ids[k]) == ids[k] && blen(
            ids[k],
        ) <= MAX_FIELD_LENGTH
    &&& forall|j: int, k: int| 0 <= j < k < ids.len() ==> !eq_ic(#[trigger] ids[j], #[trigger] ids[k])
}

pub open spec fn builder_ok(b: DeviceBuilder) -> bool {
    &&& b.instance_id@.len() > 0
    &&& trim(b.instance_id@) == b.instance_id@
    &&& blen(b.instance_id@) <= MAX_INSTANCE_ID_LENGTH
    &&& ids_ok(str_seq(b.hardware_ids@), MAX_HARDWARE_IDS_PER_DEVICE as nat)
    &&& ids_ok(str_seq(b.compatible_ids@), MAX_COMPATIBLE_IDS_PER_DEVICE as nat)
    &&& b.matching@.len() <= MAX_MATCHING_DRIVERS_PER_DEVICE
}

/// A well-formed parsed device: its instance ID and ID lists as the parser
/// guarantees them, and every matching driver carrying a rank.
pub open spec fn device_ok(d: DeviceIdentity) -> bool {
    &&& d.instance_id@.len() > 0
    &&& trim(d.instance_id@) == d.instance_id@
    &&& blen(d.instance_id@) <= MAX_INSTANCE_ID_LENGTH
    &&& ids_ok(str_seq(d.hardware_ids@), MAX_HARDWARE_IDS_PER_DEVICE as nat)
    &&& ids_ok(str_seq(d.compatible_ids@), MAX_COMPATIBLE_IDS_PER_DEVICE as nat)
    &&& d.matching@.len() <= MAX_MATCHING_DRIVERS_PER_DEVICE
    &&& forall|k: int| 0 <= k < d.matching@.len() ==> (#[trigger] d.matching@[k]).rank is Some
}

proof fn lemma_push_id_ok(before: Seq<String>, after: Seq<String>, raw: Seq<char>, cap: nat)
    requires
        ids_ok(str_seq(before), cap),
        after == before || (trim(raw).len() > 0 && blen(trim(raw)) <= MAX_FIELD_LENGTH && !has_ci(
            str_seq(before),
            trim(raw),
        ) && before.len() < cap && str_seq(after) == str_seq(before).push(trim(raw))),
    ensures
        ids_ok(str_seq(after), cap),
{
    if after != before {
        let id = trim(raw);
        lemma_trim_idem(raw);
        assert forall|j: int, k: int|
            0 <= j < k < str_seq(after).len() implies !eq_ic(
            #[trigger] str_seq(after)[j],
            #[trigger] str_seq(after)[k],
        ) by {
            if k == str_seq(after).len() - 1 {
                assert(str_seq(after)[k] == id);
                assert(str_seq(after)[j] == str_seq(before)[j]);
                if eq_ic(str_seq(before)[j], id) {
                    assert(has_ci(str_seq(before), id));
                }
            } else {
                assert(str_seq(after)[j] == str_seq(before)[j]);
                assert(str_seq(after)[k] == str_seq(before)[k]);
            }
        }
        assert forall|k: int| 0 <= k < str_seq(after).len() implies (#[trigger] str_seq(
            after,
        )[k]).len() > 0 && trim(str_seq(after)[k]) == str_seq(after)[k] && blen(str_seq(after)[k])
            <= MAX_FIELD_LENGTH by {
            if k < str_seq(before).len() {
                assert(str_seq(after)[k] == str_seq(before)[k]);
            }
        }
    }
}

/// The device block with no identity content was truncated right after its
/// instance ID.
pub open spec fn has_identity_content(b: DeviceBuilder) -> bool {
    b.hardware_ids@.len() > 0 || b.compatible_ids@.len() > 0 || b.problem_code is Some
        || b.description is Some || b.class_name is Some || b.top_level_driver_name is Some
        || b.property_value_lines > 0
}

fn has_identity(b: &DeviceBuilder) -> (r: bool)
    ensures
        r == has_identity_content(*b),
{
    b.hardware_ids.len() > 0 || b.compatible_ids.len() > 0 || b.problem_code.is_some()
        || b.description.is_some() || b.class_name.is_some() || b.top_level_driver_name.is_some()
        || b.property_value_lines > 0
}

fn contains_ci(s: &Option<String>, word: &str) -> (r: bool)
    ensures
        r == (s matches Some(t) && contains_seq(lower_seq(t@), word@)),
{
    match s {
        None => false,
        Some(t) => {
            let v = chars_of(t.as_str());
            let mut low: Vec<char> = Vec::new();
            let mut i: usize = 0;
            while i < v.len()
                invariant
                    i <= v@.len(),
                    low@ == lower_seq(v@).take(i as int),
                decreases v.len() - i,
            {
                low.push(lower_char(v[i]));
                proof {
                    assert(low@ =~= lower_seq(v@).take(i + 1));
                }
                i = i + 1;
            }
            proof {
                assert(low@ =~= lower_seq(v@));
            }
            let w = chars_of(word);
            contains_chars(low.as_slice(), w.as_slice())
        },
    }
}

fn installed_status(e: &MatchingBuilder) -> (r: bool)
    ensures
        r == (e.status matches Some(t) && contains_seq(lower_seq(t@), "installed"@)),
        r == says_installed(e@),
{
    contains_ci(&e.status, "installed")
}

fn is_extension(e: &MatchingBuilder) -> (r: bool)
    ensures
        r == (e.status matches Some(t) && contains_seq(lower_seq(t@), "extension"@)),
        r == says_extension(e@),
{
    contains_ci(&e.status, "extension")
}

fn installed_of(e: &MatchingBuilder) -> (r: InstalledDriver)
    ensures
        r@ == installed_view(e@),
{
    InstalledDriver {
        inf_name: match &e.inf_name {
            Some(n) => n.clone(),
            None => String::new(),
        },
        original_inf_name: clone_opt(&e.original_inf_name),
        provider: clone_opt(&e.provider),
        class: clone_opt(&e.class),
        driver_date: clone_opt(&e.driver_date),
        driver_version: clone_opt(&e.driver_version),
        signer: clone_opt(&e.signer),
        rank: e.rank,
    }
}

/// Close a device block: it must hold identity content, a properties
/// section must hold at least one value, and every matching entry must be
/// complete (name, rank, status). The installed driver is the first entry
/// whose status says installed and is not an extension, else the first
/// installed one; without matching entries, the top-level driver name.
pub fn finish(b: DeviceBuilder) -> (r: Result<(DeviceIdentity, bool), PnputilParseError>)
    requires
        builder_ok(b),
    ensures
        !has_identity_content(b) ==> r matches Err(PnputilParseError::Malformed(_)),
        has_identity_content(b) && b.saw_properties && b.property_value_lines == 0 ==> r matches Err(
            PnputilParseError::Malformed(_),
        ),
        r matches Ok((d, complete)) ==> device_ok(d) && complete == b.saw_properties
            && d.instance_id == b.instance_id && d.hardware_ids@ == b.hardware_ids@
            && d.compatible_ids@ == b.compatible_ids@ && d.matching@.len() == b.matching@.len(),
        r is Ok <==> has_identity_content(b) && !(b.saw_properties && b.property_value_lines == 0)
            && forall|k: int|
            0 <= k < b.matching@.len() ==> (#[trigger] b.matching@[k]).inf_name is Some
                && b.matching@[k].rank is Some && b.matching@[k].status is Some,
        match close_block(b@) {
            Ok((d, complete)) => r matches Ok((dd, cc)) && dd@ == d && cc == complete,
            Err(e) => r matches Err(x) && x@ == e,
        },
{
    let ghost ms = b@.matching;
    if !has_identity(&b) {
        return Err(malformed("device block is truncated before any identity content"));
    }
    if b.saw_properties && b.property_value_lines == 0 {
        return Err(malformed("device block is truncated inside its properties section"));
    }
    proof {
        assert(crate::drivers::enum_devices::has_identity_content(b@));
    }
    let mut matching: Vec<MatchingDriver> = Vec::new();
    let mut i: usize = 0;
    while i < b.matching.len()
        invariant
            i <= b.matching@.len(),
            matching@.len() == i,
            forall|k: int| 0 <= k < i ==> (#[trigger] matching@[k]).rank is Some,
            forall|k: int|
                0 <= k < i ==> (#[trigger] b.matching@[k]).inf_name is Some && b.matching@[k].rank
                    is Some && b.matching@[k].status is Some,
            ms == b@.matching,
            crate::drivers::enum_devices::has_identity_content(b@),
            !(b@.saw_properties && !b@.has_property_value),
            incomplete_entry(ms, 0) == incomplete_entry(ms, i as int),
            matching@.map_values(|m: MatchingDriver| m@) == ms.take(i as int).map_values(
                |e: MatchingEntry| driver_of_entry(e),
            ),
        decreases b.matching.len() - i,
    {
        let e = &b.matching[i];
        proof {
            assert(ms[i as int] == e@);
        }
        let inf_name = match &e.inf_name {
            None => {
                proof {
                    assert(ms[i as int].inf_name is None);
                    assert(incomplete_entry(ms, i as int) == Some("matching driver is missing a name"@));
                }
                return Err(malformed("matching driver is missing a name"));
            },
            Some(n) => n.clone(),
        };
        let rank = match e.rank {
            None => {
                return Err(malformed("matching driver is missing a rank"));
            },
            Some(r) => r,
        };
        if e.status.is_none() {
            proof {
                assert(ms[i as int].status is None);
                assert(incomplete_entry(ms, i as int) == Some("matching driver is missing a status"@));
            }
            return Err(malformed("matching driver is missing a status"));
        }
        let ghost before = matching@;
        matching.push(
            MatchingDriver {
                inf_name,
                provider: clone_opt(&e.provider),
                driver_date: clone_opt(&e.driver_date),
                driver_version: clone_opt(&e.driver_version),
                rank: Some(rank),
            },
        );
        proof {
            assert(matching@.map_values(|m: MatchingDriver| m@) =~= before.map_values(
                |m: MatchingDriver| m@,
            ).push(driver_of_entry(ms[i as int])));
            assert(ms.take(i + 1).map_values(|e: MatchingEntry| driver_of_entry(e)) =~= ms.take(
                i as int,
            ).map_values(|e: MatchingEntry| driver_of_entry(e)).push(driver_of_entry(ms[i as int])));
        }
        i = i + 1;
    }
    proof {
        assert(ms.take(i as int) =~= ms);
    }
    let installed = if b.matching.len() == 0 {
        match &b.top_level_driver_name {
            None => None,
            Some(n) => Some(
                InstalledDriver {
                    inf_name: n.clone(),
                    original_inf_name: None,
                    provider: None,
                    class: None,
                    driver_date: None,
                    driver_version: None,
                    signer: None,
                    rank: None,
                },
            ),
        }
    } else {
        let mut found: Option<usize> = None;
        let mut k: usize = 0;
        while k < b.matching.len()
            invariant_except_break
                found is None,
                first_installed(ms, true, 0) == first_installed(ms, true, k as int),
            invariant
                k <= b.matching@.len(),
                ms == b@.matching,
            ensures
                found is None ==> first_installed(ms, true, 0) is None,
                found matches Some(j) ==> j < b.matching@.len() && first_installed(ms, true, 0) == Some(
                    j as int,
                ),
            decreases b.matching.len() - k,
        {
            proof {
                assert(ms[k as int] == b.matching@[k as int]@);
            }
            if installed_status(&b.matching[k]) && !is_extension(&b.matching[k]) {
                found = Some(k);
                break;
            }
            k = k + 1;
        }
        if found.is_none() {
            let mut k2: usize = 0;
            while k2 < b.matching.len()
                invariant_except_break
                    found is None,
                    first_installed(ms, false, 0) == first_installed(ms, false, k2 as int),
                invariant
                    k2 <= b.matching@.len(),
                    ms == b@.matching,
                ensures
                    found is None ==> first_installed(ms, false, 0) is None,
                    found matches Some(j) ==> j < b.matching@.len() && first_installed(ms, false, 0)
                        == Some(j as int),
                decreases b.matching.len() - k2,
            {
                proof {
                    assert(ms[k2 as int] == b.matching@[k2 as int]@);
                }
                if installed_status(&b.matching[k2]) {
                    found = Some(k2);
                    break;
                }
                k2 = k2 + 1;
            }
        }
        match found {
            None => None,
            Some(j) => Some(installed_of(&b.matching[j])),
        }
    };
    let saw = b.saw_properties;
    let d = DeviceIdentity {
        instance_id: b.instance_id,
        hardware_ids: b.hardware_ids,
        compatible_ids: b.compatible_ids,
        class_guid: b.class_guid,
        class_name: b.class_name,
        description: b.description,
        manufacturer: b.manufacturer,
        problem_code: b.problem_code,
        installed,
        matching,
    };
    proof {
        assert(d@.matching =~= ms.map_values(|e: MatchingEntry| driver_of_entry(e)));
        assert(d@.installed == installed_of_block(b@));
        assert(incomplete_entry(ms, 0) is None);
    }
    Ok((d, saw))
}

// ---------------------------------------------------------------------------
// The enumeration parser
// ---------------------------------------------------------------------------

#[derive(Debug, Clone, Copy, PartialEq, Eq, Structural)]
pub enum Section {
    Header,
    Device,
    HardwareIds,
    CompatibleIds,
    ExtensionDriverNames,
    MatchingDrivers,
    Properties,
}

fn new_device(instance_id: String) -> (r: DeviceBuilder)
    requires
        instance_id@.len() > 0,
        trim(instance_id@) == instance_id@,
        blen(instance_id@) <= MAX_INSTANCE_ID_LENGTH,
    ensures
        r@ == new_block(instance_id@),
        builder_ok(r),
{
    let r = DeviceBuilder {
        instance_id,
        hardware_ids: Vec::new(),
        compatible_ids: Vec::new(),
        class_guid: None,
        class_name: None,
        description: None,
        manufacturer: None,
        problem_code: None,
        top_level_driver_name: None,
        matching: Vec::new(),
        saw_properties: false,
        property_value_lines: 0,
    };
    proof {
        assert(r@ =~= new_block(instance_id@));
    }
    r
}

fn push_hardware(dev: &mut DeviceBuilder, raw: &[char]) -> (r: Result<(), PnputilParseError>)
    requires
        builder_ok(*old(dev)),
    ensures
        builder_ok(*final(dev)),
        match id_list_push(
            old(dev)@.hardware_ids,
            raw@,
            MAX_HARDWARE_IDS_PER_DEVICE as nat,
            ParseErrorView::IdsPerDeviceExceeded,
        ) {
            Ok(l) => r is Ok && final(dev)@ == DeviceBlock { hardware_ids: l, ..old(dev)@ },
            Err(e) => r matches Err(x) && x@ == e,
        },
{
    let ghost before = dev.hardware_ids@;
    let r = push_id_checked(
        &mut dev.hardware_ids,
        raw,
        MAX_HARDWARE_IDS_PER_DEVICE,
        PnputilParseError::IdsPerDeviceExceeded,
    );
    proof {
        if r is Ok {
            lemma_push_id_ok(before, dev.hardware_ids@, raw@, MAX_HARDWARE_IDS_PER_DEVICE as nat);
        } else {
            assert(dev.hardware_ids@ == before);
        }
    }
    r
}

fn push_compatible(dev: &mut DeviceBuilder, raw: &[char]) -> (r: Result<(), PnputilParseError>)
    requires
        builder_ok(*old(dev)),
    ensures
        builder_ok(*final(dev)),
        match id_list_push(
            old(dev)@.compatible_ids,
            raw@,
            MAX_COMPATIBLE_IDS_PER_DEVICE as nat,
            ParseErrorView::IdsPerDeviceExceeded,
        ) {
            Ok(l) => r is Ok && final(dev)@ == DeviceBlock { compatible_ids: l, ..old(dev)@ },
            Err(e) => r matches Err(x) && x@ == e,
        },
{
    let ghost before = dev.compatible_ids@;
    let r = push_id_checked(
        &mut dev.compatible_ids,
        raw,
        MAX_COMPATIBLE_IDS_PER_DEVICE,
        PnputilParseError::IdsPerDeviceExceeded,
    );
    proof {
        if r is Ok {
            lemma_push_id_ok(before, dev.compatible_ids@, raw@, MAX_COMPATIBLE_IDS_PER_DEVICE as nat);
        } else {
            assert(dev.compatible_ids@ == before);
        }
    }
    r
}

/// Every device parsed so far is well-formed and within the count bound.
pub open spec fn devices_ok(v: Seq<DeviceIdentity>) -> bool {
    v.len() <= MAX_DEVICES && forall|k: int| 0 <= k < v.len() ==> device_ok(#[trigger] v[k])
}

/// The parser's state between lines.
pub struct EnumState {
    pub devices: Vec<DeviceIdentity>,
    pub current: Option<DeviceBuilder>,
    pub section: Section,
    pub pending: Option<MatchingBuilder>,
    pub pending_problem_value: bool,
    pub saw_any_property_header: bool,
    pub awaiting_property_value: bool,
    pub all_complete: bool,
    pub saw_properties_any: bool,
    pub saw_instance_label: bool,
}

impl View for EnumState {
    type V = ParseState;

    open spec fn view(&self) -> ParseState {
        ParseState {
            devices: identities_view(self.devices@),
            current: match self.current {
                Some(b) => Some(b@),
                None => None,
            },
            section: self.section,
            pending: match self.pending {
                Some(e) => Some(e@),
                None => None,
            },
            pending_problem_value: self.pending_problem_value,
            saw_any_property_header: self.saw_any_property_header,
            awaiting_property_value: self.awaiting_property_value,
            all_complete: self.all_complete,
            saw_properties_any: self.saw_properties_any,
            saw_instance_label: self.saw_instance_label,
        }
    }
}

/// The parsed devices are well-formed, and an open device leaves room for
/// itself under the device bound.
pub open spec fn state_ok(st: EnumState) -> bool {
    &&& devices_ok(st.devices@)
    &&& st.current matches Some(b) ==> builder_ok(b) && st.devices@.len() < MAX_DEVICES
}

/// `r` is the exec form of the step result `s`.
pub open spec fn step_result(r: Result<EnumState, PnputilParseError>, s: Result<ParseState, ParseErrorView>) -> bool {
    match s {
        Ok(t) => r matches Ok(x) && x@ == t && state_ok(x),
        Err(e) => r matches Err(x) && x@ == e,
    }
}

fn initial() -> (st: EnumState)
    ensures
        st@ == initial_state(),
        state_ok(st),
{
    let st = EnumState {
        devices: Vec::new(),
        current: None,
        section: Section::Header,
        pending: None,
        pending_problem_value: false,
        saw_any_property_header: false,
        awaiting_property_value: false,
        all_complete: true,
        saw_properties_any: false,
        saw_instance_label: false,
    };
    proof {
        assert(st@ =~= initial_state());
    }
    st
}

/// Move the pending matching entry into the current device (a pending entry
/// with no current device is dropped).
fn flush_pending(st: EnumState) -> (r: Result<EnumState, PnputilParseError>)
    requires
        state_ok(st),
    ensures
        step_result(r, flush(st@)),
{
    let mut st = st;
    let ghost s = st@;
    let entry = st.pending.take();
    match entry {
        None => {
            proof {
                assert(st@ =~= ParseState { pending: None, ..s });
            }
            Ok(st)
        },
        Some(e) => match st.current.take() {
            None => {
                proof {
                    assert(st@ =~= ParseState { pending: None, ..s });
                }
                Ok(st)
            },
            Some(mut dev) => {
                if dev.matching.len() >= MAX_MATCHING_DRIVERS_PER_DEVICE {
                    return Err(PnputilParseError::MatchingDriversExceeded);
                }
                let ghost b = dev@;
                dev.matching.push(e);
                proof {
                    assert(dev@.matching =~= b.matching.push(e@));
                    assert(dev@ =~= DeviceBlock { matching: b.matching.push(e@), ..b });
                }
                st.current = Some(dev);
                proof {
                    assert(st@ =~= ParseState {
                        pending: None,
                        current: Some(DeviceBlock { matching: b.matching.push(e@), ..b }),
                        ..s
                    });
                }
                Ok(st)
            },
        },
    }
}

/// Close the current device and append it to the devices.
fn close_device(st: EnumState) -> (r: Result<EnumState, PnputilParseError>)
    requires
        state_ok(st),
    ensures
        step_result(r, close_current(st@)),
{
    let mut st = st;
    let ghost s = st@;
    match st.current.take() {
        None => Ok(st),
        Some(dev) => match finish(dev) {
            Err(e) => Err(e),
            Ok((identity, complete)) => {
                st.all_complete = st.all_complete && complete;
                let ghost before = st.devices@;
                st.devices.push(identity);
                proof {
                    assert(identities_view(st.devices@) =~= identities_view(before).push(identity@));
                    assert(st.devices@[before.len() as int] == identity);
                }
                Ok(st)
            },
        },
    }
}

/// An `Instance ID` line.
fn start_device_line(st: EnumState, value: &[char]) -> (r: Result<EnumState, PnputilParseError>)
    requires
        state_ok(st),
    ensures
        step_result(r, start_device(st@, value@)),
{
    let mut st = match close_device(st) {
        Err(e) => {
            return Err(e);
        },
        Ok(s) => s,
    };
    if st.devices.len() >= MAX_DEVICES {
        return Err(PnputilParseError::DeviceCountExceeded);
    }
    let id = match parse_required_field(value, PnputilParseError::MissingInstanceId) {
        Err(e) => {
            return Err(e);
        },
        Ok(x) => x,
    };
    proof {
        lemma_trim_idem(value@);
    }
    st.saw_instance_label = true;
    st.current = Some(new_device(id));
    st.section = Section::Device;
    Ok(st)
}

/// A scalar device field line.
fn device_field_line(st: EnumState, label: &[char], value: &[char], outside: &str) -> (r: Result<
    EnumState,
    PnputilParseError,
>)
    requires
        state_ok(st),
    ensures
        step_result(r, device_field(st@, label@, value@, outside@)),
{
    let x = match normalize_optional_scalar(value) {
        Err(e) => {
            return Err(e);
        },
        Ok(x) => x,
    };
    let mut st = st;
    let ghost s = st@;
    match st.current.take() {
        None => Err(malformed(outside)),
        Some(mut dev) => {
            let ghost b = dev@;
            if is_label(label, "Device Description") {
                dev.description = x;
            } else if is_label(label, "Class Name") {
                dev.class_name = x;
            } else if is_label(label, "Class GUID") {
                dev.class_guid = x;
            } else {
                dev.manufacturer = x;
            }
            st.current = Some(dev);
            st.section = Section::Device;
            proof {
                assert(st@ =~= device_field(s, label@, value@, outside@)->Ok_0);
            }
            Ok(st)
        },
    }
}

/// An ID line for the current device.
fn device_id_line(st: EnumState, hardware: bool, raw: &[char], outside: &str) -> (r: Result<
    EnumState,
    PnputilParseError,
>)
    requires
        state_ok(st),
    ensures
        step_result(r, push_device_id(st@, hardware, raw@, outside@)),
{
    let mut st = st;
    let ghost s = st@;
    match st.current.take() {
        None => Err(malformed(outside)),
        Some(mut dev) => {
            let r = if hardware {
                push_hardware(&mut dev, raw)
            } else {
                push_compatible(&mut dev, raw)
            };
            match r {
                Err(e) => Err(e),
                Ok(()) => {
                    st.current = Some(dev);
                    proof {
                        assert(st@ =~= push_device_id(s, hardware, raw@, outside@)->Ok_0);
                    }
                    Ok(st)
                },
            }
        },
    }
}

/// A column-0 line once its label and value are split off.
#[verifier::rlimit(50)]
fn label_line(st: EnumState, label: &[char], value: &[char]) -> (r: Result<EnumState, PnputilParseError>)
    requires
        state_ok(st),
    ensures
        step_result(r, label_step(st@, label@, value@)),
{
    let mut st = st;
    let ghost s = st@;
    if is_label(label, "Microsoft PnP Utility") {
        st.section = Section::Header;
        Ok(st)
    } else if is_label(label, "Instance ID") {
        start_device_line(st, value)
    } else if is_label(label, "Device Description") {
        device_field_line(st, label, value, "description outside a device")
    } else if is_label(label, "Class Name") {
        device_field_line(st, label, value, "class name outside a device")
    } else if is_label(label, "Class GUID") {
        device_field_line(st, label, value, "class GUID outside a device")
    } else if is_label(label, "Manufacturer Name") {
        device_field_line(st, label, value, "manufacturer outside a device")
    } else if is_label(label, "Driver Name") {
        let x = match normalize_scalar_checked(value) {
            Err(e) => {
                return Err(e);
            },
            Ok(x) => x,
        };
        match st.current.take() {
            None => Err(malformed("driver name outside a device")),
            Some(mut dev) => {
                dev.top_level_driver_name = x;
                st.current = Some(dev);
                st.section = Section::Device;
                proof {
                    assert(st@ =~= label_step(s, label@, value@)->Ok_0);
                }
                Ok(st)
            },
        }
    } else if is_label(label, "Extension Driver Names") {
        if st.current.is_none() {
            return Err(malformed("extension driver names outside a device"));
        }
        st.section = Section::ExtensionDriverNames;
        Ok(st)
    } else if is_label(label, "Status") || is_label(label, "Problem Status") {
        if byte_len_exceeds(value, MAX_FIELD_LENGTH) {
            return Err(PnputilParseError::FieldTooLong);
        }
        st.section = Section::Device;
        Ok(st)
    } else if is_label(label, "Problem Code") {
        match st.current.take() {
            None => Err(malformed("problem code outside a device")),
            Some(mut dev) => {
                let v = string_of(value);
                let code = match parse_uint_token(v.as_str()) {
                    Err(e) => {
                        return Err(e);
                    },
                    Ok(c) => c,
                };
                dev.problem_code = Some(code);
                st.current = Some(dev);
                st.section = Section::Device;
                proof {
                    assert(st@ =~= label_step(s, label@, value@)->Ok_0);
                }
                Ok(st)
            },
        }
    } else if is_label(label, "Hardware IDs") {
        match device_id_line(st, true, value, "hardware IDs outside a device") {
            Err(e) => Err(e),
            Ok(mut st1) => {
                st1.section = Section::HardwareIds;
                Ok(st1)
            },
        }
    } else if is_label(label, "Compatible IDs") {
        match device_id_line(st, false, value, "compatible IDs outside a device") {
            Err(e) => Err(e),
            Ok(mut st1) => {
                st1.section = Section::CompatibleIds;
                Ok(st1)
            },
        }
    } else if is_label(label, "Matching Drivers") {
        if st.current.is_none() {
            return Err(malformed("matching drivers outside a device"));
        }
        st.section = Section::MatchingDrivers;
        Ok(st)
    } else if is_label(label, "Properties") {
        match st.current.take() {
            None => Err(malformed("properties outside a device")),
            Some(mut dev) => {
                dev.saw_properties = true;
                st.current = Some(dev);
                st.section = Section::Properties;
                st.saw_properties_any = true;
                proof {
                    assert(st@ =~= label_step(s, label@, value@)->Ok_0);
                }
                Ok(st)
            },
        }
    } else {
        let ls = string_of(label);
        Err(PnputilParseError::Malformed(concat2("unexpected top-level label: ", ls.as_str())))
    }
}

/// A non-blank column-0 line.
fn top_line(st: EnumState, line: &[char]) -> (r: Result<EnumState, PnputilParseError>)
    requires
        state_ok(st),
    ensures
        step_result(r, top_step(st@, line@)),
{
    let mut st = match flush_pending(st) {
        Err(e) => {
            return Err(e);
        },
        Ok(s) => s,
    };
    if st.pending_problem_value || st.awaiting_property_value {
        return Err(malformed("property header is missing its value"));
    }
    st.saw_any_property_header = false;
    let (label, value) = split_label(line);
    label_line(st, label.as_slice(), value.as_slice())
}

/// A trimmed continuation line inside `Matching Drivers`.
fn matching_line(st: EnumState, lt: &[char]) -> (r: Result<EnumState, PnputilParseError>)
    requires
        state_ok(st),
    ensures
        step_result(r, matching_step(st@, lt@)),
{
    let (label, value) = split_label(lt);
    if is_label(label.as_slice(), "Driver Name") {
        let mut st = match flush_pending(st) {
            Err(e) => {
                return Err(e);
            },
            Ok(s) => s,
        };
        let name = match normalize_scalar_checked(value.as_slice()) {
            Err(e) => {
                return Err(e);
            },
            Ok(x) => x,
        };
        st.pending = Some(new_matching(name));
        Ok(st)
    } else {
        let mut st = st;
        let ghost s = st@;
        match st.pending.take() {
            None => Err(malformed("matching-driver field appears without a driver name")),
            Some(mut entry) => {
                match apply_matching_field(&mut entry, label.as_slice(), value.as_slice()) {
                    Err(e) => {
                        return Err(e);
                    },
                    Ok(()) => {},
                }
                st.pending = Some(entry);
                proof {
                    assert(st@ =~= matching_step(s, lt@)->Ok_0);
                }
                Ok(st)
            },
        }
    }
}

/// A trimmed continuation line inside `Properties`.
fn property_line(st: EnumState, lt: &[char]) -> (r: Result<EnumState, PnputilParseError>)
    requires
        state_ok(st),
    ensures
        step_result(r, property_step(st@, lt@)),
{
    let mut st = st;
    let ghost s = st@;
    let is_header = contains_chars(lt, chars_of("]:").as_slice()) && (starts_with_at(
        lt,
        chars_of("DEVPKEY_").as_slice(),
    ) || (lt.len() > 0 && lt[0] == '{'));
    if is_header {
        st.pending_problem_value = starts_with_at(
            lt,
            chars_of("DEVPKEY_Device_ProblemCode").as_slice(),
        );
        st.awaiting_property_value = true;
        st.saw_any_property_header = true;
        Ok(st)
    } else if !st.saw_any_property_header {
        Err(malformed("property value without a preceding header"))
    } else if byte_len_exceeds(lt, MAX_FIELD_LENGTH) {
        Err(PnputilParseError::FieldTooLong)
    } else if st.pending_problem_value {
        match st.current.take() {
            None => Err(malformed("problem code without a device")),
            Some(mut dev) => {
                let v = string_of(lt);
                let code = match parse_uint_token(v.as_str()) {
                    Err(e) => {
                        return Err(e);
                    },
                    Ok(c) => c,
                };
                dev.problem_code = Some(code);
                if dev.property_value_lines < usize::MAX {
                    dev.property_value_lines = dev.property_value_lines + 1;
                }
                st.current = Some(dev);
                st.awaiting_property_value = false;
                st.pending_problem_value = false;
                proof {
                    assert(st@ =~= property_step(s, lt@)->Ok_0);
                }
                Ok(st)
            },
        }
    } else {
        st.awaiting_property_value = false;
        match st.current.take() {
            None => {},
            Some(mut dev) => {
                if dev.property_value_lines < usize::MAX {
                    dev.property_value_lines = dev.property_value_lines + 1;
                }
                st.current = Some(dev);
            },
        }
        proof {
            assert(st@ =~= property_step(s, lt@)->Ok_0);
        }
        Ok(st)
    }
}

/// A trimmed indented line, read by the active section.
fn indented_line(st: EnumState, lt: &[char]) -> (r: Result<EnumState, PnputilParseError>)
    requires
        state_ok(st),
    ensures
        step_result(r, indented_step(st@, lt@)),
{
    match st.section {
        Section::HardwareIds => device_id_line(st, true, lt, "hardware ID without a device"),
        Section::CompatibleIds => device_id_line(st, false, lt, "compatible ID without a device"),
        Section::ExtensionDriverNames => {
            if byte_len_exceeds(lt, MAX_FIELD_LENGTH) {
                Err(PnputilParseError::FieldTooLong)
            } else {
                Ok(st)
            }
        },
        Section::MatchingDrivers => matching_line(st, lt),
        Section::Properties => property_line(st, lt),
        _ => Err(malformed("indented line outside an ID/matching/properties section")),
    }
}

/// One line of the output.
fn enum_line(st: EnumState, line: &[char]) -> (r: Result<EnumState, PnputilParseError>)
    requires
        state_ok(st),
    ensures
        step_result(r, line_step(st@, line@)),
{
    proof {
        reveal(line_step);
    }
    let lt = trimmed_vec(line);
    if lt.len() == 0 {
        return Ok(st);
    }
    let is_column0 = !(line.len() > 0 && (line[0] == ' ' || line[0] == '\t'));
    if is_column0 {
        top_line(st, line)
    } else {
        indented_line(st, lt.as_slice())
    }
}

/// Close the output: the last entry and device, then judge completeness.
fn end_of_enumeration(st: EnumState, mode: EnumMode) -> (r: Result<ParsedEnumeration, PnputilParseError>)
    requires
        state_ok(st),
    ensures
        match end_of_output(st@, mode) {
            Ok((complete, devs)) => r matches Ok(pe) && pe.complete == complete && pe.degraded
                == !complete && identities_view(pe.devices@) == devs && devices_ok(pe.devices@)
                && pe.devices@.len() >= 1,
            Err(e) => r matches Err(x) && x@ == e,
        },
{
    let st = match flush_pending(st) {
        Err(e) => {
            return Err(e);
        },
        Ok(s) => s,
    };
    if st.pending_problem_value || st.awaiting_property_value {
        return Err(malformed("property header is missing its value"));
    }
    let st = match close_device(st) {
        Err(e) => {
            return Err(e);
        },
        Ok(s) => s,
    };
    if !st.saw_instance_label || st.devices.len() == 0 {
        return Err(malformed("no device instances found in non-empty output"));
    }
    let complete = st.saw_properties_any && st.all_complete;
    if mode == EnumMode::Full && !complete {
        return Err(malformed("full enumeration output is missing properties sections"));
    }
    Ok(ParsedEnumeration { complete, degraded: !complete, devices: st.devices })
}

/// Parse a bounded `/enum-devices` output into a fidelity-aware report.
/// `mode` is the enumeration form the output was expected to use: in full
/// mode a missing properties section is truncation, not a degraded success.
pub fn parse_enum_devices(input: &str, mode: EnumMode) -> (r: Result<ParsedEnumeration, PnputilParseError>)
    ensures
        match enumeration_of(input@, mode) {
            Ok((complete, devs)) => r matches Ok(pe) && pe.complete == complete && pe.degraded
                == !complete && identities_view(pe.devices@) == devs,
            Err(e) => r matches Err(x) && x@ == e,
        },
        r matches Ok(pe) ==> pe.degraded == !pe.complete && (mode == EnumMode::Full ==> pe.complete)
            && pe.devices@.len() >= 1 && devices_ok(pe.devices@),
{
    let chars = chars_of(input);
    if byte_len_exceeds(chars.as_slice(), MAX_OUTPUT_BYTES) {
        return Err(PnputilParseError::OutputTooLarge);
    }
    let trimmed = trimmed_vec(chars.as_slice());
    if trimmed.len() == 0 {
        return Err(PnputilParseError::EmptyInput);
    }
    let ls = lines_vec(trimmed.as_slice());
    let ghost all = lines(trim(input@));
    let mut st = initial();
    let mut li: usize = 0;
    while li < ls.len()
        invariant
            li <= ls@.len(),
            pieces(ls@) == all,
            all == lines(trim(input@)),
            blen(input@) <= MAX_OUTPUT_BYTES,
            trim(input@).len() > 0,
            state_ok(st),
            run_lines(all.take(li as int)) == Ok::<ParseState, ParseErrorView>(st@),
        decreases ls.len() - li,
    {
        proof {
            lemma_run_lines_step(all, li as int);
            assert(all[li as int] == ls@[li as int]@);
        }
        st = match enum_line(st, ls[li].as_slice()) {
            Err(e) => {
                proof {
                    lemma_run_lines_err(all, li + 1, e@);
                }
                return Err(e);
            },
            Ok(s) => s,
        };
        li = li + 1;
    }
    proof {
        assert(all.take(li as int) =~= all);
    }
    end_of_enumeration(st, mode)
}

} // verus!
