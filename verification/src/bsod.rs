//! Crash dumps: reading the dump listing produced by the dump query, and the
//! reports returned where no crash-dump store is present.
//!
//! Listing the dump directories is I/O and happens outside the library; its
//! output is handed to the functions here.
use vstd::prelude::*;
use crate::text::{before_first, before_first_vec, chars_of, find_char, first_idx, lemma_first_idx, lines, lines_vec, owned, pieces, slice_vec, starts_with, starts_with_at, substring, trim, trim_range};

verus! {

/// One crash dump file.
pub struct BsodDump {
    pub file: String,
    pub date: String,
    pub bug_check: String,
    pub bug_check_name: String,
    pub faulting_module: String,
    pub description: String,
    pub recommendation: String,
}

/// The dumps found and where they were looked for.
pub struct BsodReport {
    pub complete: bool,
    pub error: Option<String>,
    pub scanned_paths: Vec<String>,
    pub dumps: Vec<BsodDump>,
}

/// The fixed texts of a dump found by the listing query.
pub open spec fn listed_dump(d: BsodDump, file: Seq<char>, date: Seq<char>) -> bool {
    &&& d.file@ == file
    &&& d.date@ == date
    &&& d.bug_check@ == "See details"@
    &&& d.bug_check_name@ == "MINIDUMP_FOUND"@
    &&& d.faulting_module@ == "Requires WinDbg"@
    &&& d.description@ == "Minidump found. Use WinDbg or BlueScreenView for bug check analysis."@
    &&& d.recommendation@ == "Update drivers and run memory diagnostics if crashes are frequent."@
}

/// The fixed texts of a dump found by the report query.
pub open spec fn reported_dump(d: BsodDump, file: Seq<char>, date: Seq<char>) -> bool {
    &&& d.file@ == file
    &&& d.date@ == date
    &&& d.bug_check@ == "See details"@
    &&& d.bug_check_name@ == "MINIDUMP_FOUND"@
    &&& d.faulting_module@ == "Requires WinDbg"@
    &&& d.description@ == "Crash dump found. Use WinDbg for bug check analysis."@
    &&& d.recommendation@ == "Update drivers and run memory diagnostics if crashes are frequent."@
}

pub open spec fn dump_tag() -> Seq<char> {
    seq!['D', 'U', 'M', 'P', '|']
}

/// A listing line `DUMP|path|time|...` names a dump with the trimmed path
/// and time; other lines, and `DUMP|` lines with fewer fields, name none.
pub open spec fn dump_of_line(line: Seq<char>) -> Option<(Seq<char>, Seq<char>)> {
    if starts_with(line, dump_tag()) {
        let rest = line.skip(5);
        if rest.contains('|') {
            let after = rest.skip(first_idx(rest, '|') + 1 as int);
            Some((trim(before_first(rest, '|')), trim(before_first(after, '|'))))
        } else {
            None
        }
    } else {
        None
    }
}

/// The dumps named by the lines, in order.
pub open spec fn dumps_of_lines(ls: Seq<Seq<char>>) -> Seq<(Seq<char>, Seq<char>)>
    decreases ls.len(),
{
    if ls.len() == 0 {
        Seq::empty()
    } else {
        match dump_of_line(ls.last()) {
            Some(d) => dumps_of_lines(ls.drop_last()).push(d),
            None => dumps_of_lines(ls.drop_last()),
        }
    }
}

fn listed(file: String, date: String) -> (r: BsodDump)
    ensures
        listed_dump(r, file@, date@),
{
    BsodDump {
        file,
        date,
        bug_check: owned("See details"),
        bug_check_name: owned("MINIDUMP_FOUND"),
        faulting_module: owned("Requires WinDbg"),
        description: owned("Minidump found. Use WinDbg or BlueScreenView for bug check analysis."),
        recommendation: owned("Update drivers and run memory diagnostics if crashes are frequent."),
    }
}

/// The dump named by one listing line, if it names one.
fn dump_line(line: &[char]) -> (r: Option<BsodDump>)
    ensures
        match dump_of_line(line@) {
            Some(d) => r matches Some(x) && listed_dump(x, d.0, d.1),
            None => r is None,
        },
{
    let tag = vec!['D', 'U', 'M', 'P', '|'];
    proof {
        assert(tag@ == dump_tag());
    }
    if !starts_with_at(line, tag.as_slice()) {
        return None;
    }
    let rest = slice_vec(line, 5, line.len());
    proof {
        assert(rest@ =~= line@.skip(5));
    }
    let k = match find_char(rest.as_slice(), '|') {
        None => return None,
        Some(k) => k,
    };
    proof {
        lemma_first_idx(rest@, '|', k as int);
    }
    let after = slice_vec(rest.as_slice(), k + 1, rest.len());
    proof {
        assert(after@ =~= rest@.skip(k + 1));
        assert(rest@.subrange(0, k as int) =~= before_first(rest@, '|'));
    }
    let file_part = slice_vec(rest.as_slice(), 0, k);
    let (a, b) = trim_range(file_part.as_slice());
    let file = substring(file_part.as_slice(), a, b);
    let date_part = before_first_vec(after.as_slice(), '|');
    let (c, d) = trim_range(date_part.as_slice());
    let date = substring(date_part.as_slice(), c, d);
    Some(listed(file, date))
}

/// The dumps named by the output of the dump listing query, in order: one
/// for each line `DUMP|path|time|...`, with the path and time trimmed.
pub fn parse_dump_listing(stdout: &str) -> (r: Vec<BsodDump>)
    ensures
        r@.len() == dumps_of_lines(lines(stdout@)).len(),
        forall|i: int|
            0 <= i < r@.len() ==> listed_dump(
                #[trigger] r@[i],
                dumps_of_lines(lines(stdout@))[i].0,
                dumps_of_lines(lines(stdout@))[i].1,
            ),
{
    let v = chars_of(stdout);
    let ls = lines_vec(v.as_slice());
    let ghost all = lines(stdout@);
    let mut out: Vec<BsodDump> = Vec::new();
    let mut i: usize = 0;
    while i < ls.len()
        invariant
            pieces(ls@) == all,
            i <= ls@.len(),
            out@.len() == dumps_of_lines(all.take(i as int)).len(),
            forall|k: int|
                0 <= k < out@.len() ==> listed_dump(
                    #[trigger] out@[k],
                    dumps_of_lines(all.take(i as int))[k].0,
                    dumps_of_lines(all.take(i as int))[k].1,
                ),
        decreases ls.len() - i,
    {
        proof {
            assert(all.take(i + 1).drop_last() =~= all.take(i as int));
            assert(ls@[i as int]@ == all[i as int]);
        }
        match dump_line(ls[i].as_slice()) {
            Some(d) => {
                out.push(d);
            },
            None => {},
        }
        i = i + 1;
    }
    proof {
        assert(all.take(i as int) =~= all);
    }
    out
}

/// The dumps of the report query's items, in order; an item without both a
/// path and a time is skipped.
pub fn reported_dumps(items: Vec<(Option<String>, Option<String>)>) -> (r: Vec<BsodDump>)
    ensures
        r@.len() == items@.filter(|x: (Option<String>, Option<String>)| x.0 is Some && x.1 is Some).len(),
        forall|i: int|
            0 <= i < r@.len() ==> ({
                let x = items@.filter(
                    |x: (Option<String>, Option<String>)| x.0 is Some && x.1 is Some,
                )[i];
                reported_dump(#[trigger] r@[i], x.0->0@, x.1->0@)
            }),
{
    let ghost f = |x: (Option<String>, Option<String>)| x.0 is Some && x.1 is Some;
    let mut out: Vec<BsodDump> = Vec::new();
    let mut i: usize = 0;
    while i < items.len()
        invariant
            i <= items@.len(),
            f == (|x: (Option<String>, Option<String>)| x.0 is Some && x.1 is Some),
            out@.len() == items@.take(i as int).filter(f).len(),
            forall|k: int|
                0 <= k < out@.len() ==> ({
                    let x = items@.take(i as int).filter(f)[k];
                    reported_dump(#[trigger] out@[k], x.0->0@, x.1->0@)
                }),
        decreases items.len() - i,
    {
        let ghost prev = items@.take(i as int).filter(f);
        proof {
            reveal(Seq::filter);
            assert(items@.take(i + 1).drop_last() =~= items@.take(i as int));
            assert(items@.take(i + 1).last() == items@[i as int]);
        }
        match (&items[i].0, &items[i].1) {
            (Some(file), Some(date)) => {
                proof {
                    assert(f(items@[i as int]));
                    assert(items@.take(i + 1).filter(f) == prev.push(items@[i as int]));
                }
                out.push(
                    BsodDump {
                        file: owned(file.as_str()),
                        date: owned(date.as_str()),
                        bug_check: owned("See details"),
                        bug_check_name: owned("MINIDUMP_FOUND"),
                        faulting_module: owned("Requires WinDbg"),
                        description: owned("Crash dump found. Use WinDbg for bug check analysis."),
                        recommendation: owned(
                            "Update drivers and run memory diagnostics if crashes are frequent.",
                        ),
                    },
                );
            },
            _ => {
                proof {
                    assert(!f(items@[i as int]));
                    assert(items@.take(i + 1).filter(f) == prev);
                }
            },
        }
        i = i + 1;
    }
    proof {
        assert(items@.take(i as int) =~= items@);
    }
    out
}

/// The report when the dump query could not be run or read.
pub fn bsod_failure(error: String) -> (r: BsodReport)
    ensures
        !r.complete,
        r.error == Some(error),
        r.scanned_paths@.len() == 0,
        r.dumps@.len() == 0,
{
    BsodReport { complete: false, error: Some(error), scanned_paths: Vec::new(), dumps: Vec::new() }
}

/// What `scan_dumps_report` gives where no crash-dump store exists.
pub fn scan_dumps_report() -> (r: BsodReport)
    ensures
        !r.complete,
        r.error matches Some(e) && e@ == "Crash dumps are unavailable on this platform."@,
        r.scanned_paths@.len() == 0,
        r.dumps@.len() == 0,
{
    bsod_failure(owned("Crash dumps are unavailable on this platform."))
}

/// What `scan_dumps` gives where no crash-dump store exists: no dumps.
pub fn scan_dumps() -> (r: Vec<BsodDump>)
    ensures
        r@.len() == 0,
{
    Vec::new()
}

} // verus!
