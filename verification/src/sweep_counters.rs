//! How much work the exposure scan's whole-crate sweeps do: one running
//! total per question the sweep loop asks, and the line that reports them.
//!
//! Each total counts as an atomic counter would, wrapping past `u64::MAX`.

use vstd::prelude::*;

use crate::text::string_from_chars;

verus! {

/// The running totals of one analyzed crate.
#[derive(Debug, Clone, Copy, PartialEq, Eq, Structural)]
pub struct SweepCounters {
    /// Sweeps that entered the file loop.
    pub sweeps: u64,
    /// Files the sweep loop iterated, over every sweep.
    pub files_enumerated: u64,
    /// Files that mentioned the item's name and reached the module-scope loop.
    pub files_scanned: u64,
    /// Module scopes the sweep loop iterated, over every sweep.
    pub scopes_enumerated: u64,
    /// Module scopes that passed the ancestry filter and were analyzed.
    pub scopes_analyzed: u64,
    /// Requests for the source files under a directory.
    pub file_list_requests: u64,
    /// Requests that rebuilt the list.
    pub file_list_builds: u64,
    /// Entries those rebuilds collected.
    pub file_list_entries: u64,
    /// Signature-exposure lookups answered from the memo.
    pub signature_hits: u64,
    /// Lookups with no memoized answer.
    pub signature_misses: u64,
    /// Completed walks the cycle-cut gate refused to memoize.
    pub signature_refused: u64,
}

/// `n` counted on to `n + k`, wrapping past `u64::MAX`.
pub open spec fn counted(n: u64, k: u64) -> u64 {
    n.wrapping_add(k)
}

impl SweepCounters {
    /// Totals with nothing recorded.
    pub fn new() -> (r: Self)
        ensures
            r == (SweepCounters {
                sweeps: 0,
                files_enumerated: 0,
                files_scanned: 0,
                scopes_enumerated: 0,
                scopes_analyzed: 0,
                file_list_requests: 0,
                file_list_builds: 0,
                file_list_entries: 0,
                signature_hits: 0,
                signature_misses: 0,
                signature_refused: 0,
            }),
    {
        SweepCounters {
            sweeps: 0,
            files_enumerated: 0,
            files_scanned: 0,
            scopes_enumerated: 0,
            scopes_analyzed: 0,
            file_list_requests: 0,
            file_list_builds: 0,
            file_list_entries: 0,
            signature_hits: 0,
            signature_misses: 0,
            signature_refused: 0,
        }
    }

    /// One sweep over `files_enumerated` files.
    pub fn record_sweep(&mut self, files_enumerated: u64)
        ensures
            *final(self) == (SweepCounters {
                sweeps: counted(old(self).sweeps, 1),
                files_enumerated: counted(old(self).files_enumerated, files_enumerated),
                ..*old(self)
            }),
    {
        self.sweeps = self.sweeps.wrapping_add(1);
        self.files_enumerated = self.files_enumerated.wrapping_add(files_enumerated);
    }

    /// One file scanned, holding `scopes_enumerated` module scopes.
    pub fn record_file_scanned(&mut self, scopes_enumerated: u64)
        ensures
            *final(self) == (SweepCounters {
                files_scanned: counted(old(self).files_scanned, 1),
                scopes_enumerated: counted(old(self).scopes_enumerated, scopes_enumerated),
                ..*old(self)
            }),
    {
        self.files_scanned = self.files_scanned.wrapping_add(1);
        self.scopes_enumerated = self.scopes_enumerated.wrapping_add(scopes_enumerated);
    }

    /// One module scope analyzed.
    pub fn record_scope_analyzed(&mut self)
        ensures
            *final(self) == (SweepCounters {
                scopes_analyzed: counted(old(self).scopes_analyzed, 1),
                ..*old(self)
            }),
    {
        self.scopes_analyzed = self.scopes_analyzed.wrapping_add(1);
    }

    /// One request for a directory's source files.
    pub fn record_file_list_request(&mut self)
        ensures
            *final(self) == (SweepCounters {
                file_list_requests: counted(old(self).file_list_requests, 1),
                ..*old(self)
            }),
    {
        self.file_list_requests = self.file_list_requests.wrapping_add(1);
    }

    /// One rebuilt file list of `entries` entries.
    pub fn record_file_list_build(&mut self, entries: u64)
        ensures
            *final(self) == (SweepCounters {
                file_list_builds: counted(old(self).file_list_builds, 1),
                file_list_entries: counted(old(self).file_list_entries, entries),
                ..*old(self)
            }),
    {
        self.file_list_builds = self.file_list_builds.wrapping_add(1);
        self.file_list_entries = self.file_list_entries.wrapping_add(entries);
    }

    /// One lookup answered from the memo.
    pub fn record_signature_hit(&mut self)
        ensures
            *final(self) == (SweepCounters {
                signature_hits: counted(old(self).signature_hits, 1),
                ..*old(self)
            }),
    {
        self.signature_hits = self.signature_hits.wrapping_add(1);
    }

    /// One lookup with no memoized answer.
    pub fn record_signature_miss(&mut self)
        ensures
            *final(self) == (SweepCounters {
                signature_misses: counted(old(self).signature_misses, 1),
                ..*old(self)
            }),
    {
        self.signature_misses = self.signature_misses.wrapping_add(1);
    }

    /// One completed walk the cycle-cut gate refused to memoize.
    pub fn record_signature_refused(&mut self)
        ensures
            *final(self) == (SweepCounters {
                signature_refused: counted(old(self).signature_refused, 1),
                ..*old(self)
            }),
    {
        self.signature_refused = self.signature_refused.wrapping_add(1);
    }
}

/// The decimal digit for `d`.
pub open spec fn decimal_digit(d: int) -> char {
    if d == 0 { '0' } else if d == 1 { '1' } else if d == 2 { '2' } else if d == 3 { '3' }
    else if d == 4 { '4' } else if d == 5 { '5' } else if d == 6 { '6' } else if d == 7 { '7' }
    else if d == 8 { '8' } else { '9' }
}

/// `n` in decimal, without leading zeros.
pub open spec fn decimal_text(n: nat) -> Seq<char>
    decreases n,
{
    if n < 10 {
        seq![decimal_digit(n as int)]
    } else {
        decimal_text(n / 10).push(decimal_digit((n % 10) as int))
    }
}

fn decimal_char(d: u128) -> (c: char)
    requires
        d < 10,
    ensures
        c == decimal_digit(d as int),
{
    match d {
        0 => '0',
        1 => '1',
        2 => '2',
        3 => '3',
        4 => '4',
        5 => '5',
        6 => '6',
        7 => '7',
        8 => '8',
        _ => '9',
    }
}

pub(crate) fn decimal_chars(n: u128) -> (v: Vec<char>)
    ensures
        v@ == decimal_text(n as nat),
    decreases n,
{
    if n < 10 {
        let mut v = Vec::new();
        v.push(decimal_char(n));
        assert(v@ =~= seq![decimal_digit(n as int)]);
        v
    } else {
        let mut v = decimal_chars(n / 10);
        v.push(decimal_char(n % 10));
        v
    }
}

/// `acc` followed by ` label=` and `value` in decimal.
pub open spec fn field(acc: Seq<char>, label: Seq<char>, value: nat) -> Seq<char> {
    acc + label + decimal_text(value)
}

fn push_field(line: &mut String, label: &str, value: u128)
    ensures
        final(line)@ == field(old(line)@, label@, value as nat),
{
    line.append(label);
    let digits = string_from_chars(&decimal_chars(value));
    line.append(digits.as_str());
}

/// The line that reports a crate's totals.
pub open spec fn report_line_spec(crate_name: Seq<char>, analysis_ms: u128, c: SweepCounters) -> Seq<
    char,
> {
    let head = field("mend-sweep-counters crate="@ + crate_name, " analysis_ms="@, analysis_ms as nat);
    let sweeps = field(head, " sweeps="@, c.sweeps as nat);
    let enumerated = field(sweeps, " files_enumerated="@, c.files_enumerated as nat);
    let scanned = field(enumerated, " files_scanned="@, c.files_scanned as nat);
    let scopes = field(scanned, " scopes_enumerated="@, c.scopes_enumerated as nat);
    let analyzed = field(scopes, " scopes_analyzed="@, c.scopes_analyzed as nat);
    let requests = field(analyzed, " file_list_requests="@, c.file_list_requests as nat);
    let builds = field(requests, " file_list_builds="@, c.file_list_builds as nat);
    let entries = field(builds, " file_list_entries="@, c.file_list_entries as nat);
    let hits = field(entries, " signature_hits="@, c.signature_hits as nat);
    let misses = field(hits, " signature_misses="@, c.signature_misses as nat);
    let refused = field(misses, " signature_refused="@, c.signature_refused as nat);
    refused + "\n"@
}

/// The line appended to the counters file for one crate, ending in a
/// newline.
pub fn report_line(crate_name: &str, analysis_ms: u128, counters: &SweepCounters) -> (line: String)
    ensures
        line@ == report_line_spec(crate_name@, analysis_ms, *counters),
{
    let mut line = "mend-sweep-counters crate=".to_owned();
    line.append(crate_name);
    push_field(&mut line, " analysis_ms=", analysis_ms);
    push_field(&mut line, " sweeps=", counters.sweeps as u128);
    push_field(&mut line, " files_enumerated=", counters.files_enumerated as u128);
    push_field(&mut line, " files_scanned=", counters.files_scanned as u128);
    push_field(&mut line, " scopes_enumerated=", counters.scopes_enumerated as u128);
    push_field(&mut line, " scopes_analyzed=", counters.scopes_analyzed as u128);
    push_field(&mut line, " file_list_requests=", counters.file_list_requests as u128);
    push_field(&mut line, " file_list_builds=", counters.file_list_builds as u128);
    push_field(&mut line, " file_list_entries=", counters.file_list_entries as u128);
    push_field(&mut line, " signature_hits=", counters.signature_hits as u128);
    push_field(&mut line, " signature_misses=", counters.signature_misses as u128);
    push_field(&mut line, " signature_refused=", counters.signature_refused as u128);
    line.append("\n");
    line
}

} // verus!
