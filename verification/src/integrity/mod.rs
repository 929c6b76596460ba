//! Structural checks on single stored files.
//!
//! Hard corruption is an error. A statistical anomaly is a warning, and an
//! error only when the check is strict.
//!
//! * [`idx`]: index records.
//! * [`bars`]: bars of any kind, and ten-second bars.
//! * [`vol`]: volatility records.
//! * [`messages`]: what a report says of a finding.

use vstd::prelude::*;
use crate::tally;

pub mod bars;
pub mod idx;
pub mod messages;
pub mod vol;

verus! {

/// Largest step between records that passes without a warning.
pub const IDX_MAX_GAP_MS: i64 = 60_000;

/// 2000-01-01T00:00:00Z.
pub const EPOCH_2000_MS: i64 = 946_684_800_000;

/// Clock skew tolerated between writer and checker.
pub const FUTURE_SLACK_MS: i64 = 300_000;

/// A timestamp that no sane clock wrote.
pub open spec fn outside_epoch(ts_ms: i64, now_ms: i64) -> bool {
    ts_ms < EPOCH_2000_MS || ts_ms > now_ms + FUTURE_SLACK_MS
}

pub(crate) fn is_outside_epoch(ts_ms: i64, now_ms: i64) -> (b: bool)
    ensures
        b == outside_epoch(ts_ms, now_ms),
{
    ts_ms < EPOCH_2000_MS || (ts_ms as i128) > (now_ms as i128) + (FUTURE_SLACK_MS as i128)
}

/// How a file divides into records of a fixed size.
#[derive(Clone, Copy, Debug, PartialEq, Eq, Structural)]
pub enum Framing {
    /// Bytes are left over: an error, nothing is read.
    Truncated { records: usize },
    Empty,
    Whole { records: usize },
}

/// Divides a file of `bytes` into records.
pub fn frame(bytes: usize, record: usize) -> (f: Framing)
    requires
        record > 0,
    ensures
        f == if bytes % record != 0 {
            Framing::Truncated { records: (bytes / record) as usize }
        } else if bytes == 0 {
            Framing::Empty
        } else {
            Framing::Whole { records: (bytes / record) as usize }
        },
{
    if bytes % record != 0 {
        Framing::Truncated { records: bytes / record }
    } else if bytes == 0 {
        Framing::Empty
    } else {
        Framing::Whole { records: bytes / record }
    }
}

/// Size of a file after a torn trailing record is cut off.
pub fn aligned_len(bytes: usize, record: usize) -> (n: usize)
    requires
        record > 0,
    ensures
        n <= bytes,
        n as int % record as int == 0,
        bytes - n < record,
{
    let q: usize = bytes / record;
    proof {
        vstd::arithmetic::div_mod::lemma_fundamental_div_mod(bytes as int, record as int);
        assert(record as int * (bytes as int / record as int) == q as int * record as int)
            by (nonlinear_arith)
            requires
                q as int == bytes as int / record as int,
        ;
        vstd::arithmetic::div_mod::lemma_mod_multiples_basic(q as int, record as int);
    }
    q * record
}

/// Kinds of file the checker knows.
#[derive(Clone, Copy, Debug, PartialEq, Eq, Structural)]
pub enum FileKind {
    Idx,
    Bars,
    S10,
    Renko,
    Vol,
}

/// The kind that a file extension stands for.
pub fn file_kind(ext: &str) -> (k: Option<FileKind>)
    ensures
        k == if ext@ == "idx"@ {
            Some(FileKind::Idx)
        } else if ext@ == "bars"@ {
            Some(FileKind::Bars)
        } else if ext@ == "s10"@ {
            Some(FileKind::S10)
        } else if ext@ == "renko"@ {
            Some(FileKind::Renko)
        } else if ext@ == "vol"@ {
            Some(FileKind::Vol)
        } else {
            None
        },
{
    if crate::text::same(ext, "idx") {
        Some(FileKind::Idx)
    } else if crate::text::same(ext, "bars") {
        Some(FileKind::Bars)
    } else if crate::text::same(ext, "s10") {
        Some(FileKind::S10)
    } else if crate::text::same(ext, "renko") {
        Some(FileKind::Renko)
    } else if crate::text::same(ext, "vol") {
        Some(FileKind::Vol)
    } else {
        None
    }
}

/// What was found in one file, as counts.
#[derive(Clone, Copy, Debug)]
pub struct FileCounts {
    pub errors: usize,
    pub warnings: usize,
    pub records: usize,
    pub bytes: u64,
}

pub open spec fn has_errors(reports: Seq<FileCounts>) -> spec_fn(int) -> bool {
    |i: int| reports[i].errors > 0
}

pub open spec fn has_only_warnings(reports: Seq<FileCounts>) -> spec_fn(int) -> bool {
    |i: int| reports[i].errors == 0 && reports[i].warnings > 0
}

pub open spec fn is_clean(reports: Seq<FileCounts>) -> spec_fn(int) -> bool {
    |i: int| reports[i].errors == 0 && reports[i].warnings == 0
}

pub open spec fn records_in(reports: Seq<FileCounts>) -> spec_fn(int) -> int {
    |i: int| reports[i].records as int
}

pub open spec fn bytes_in(reports: Seq<FileCounts>) -> spec_fn(int) -> int {
    |i: int| reports[i].bytes as int
}

/// Totals over a set of files.
#[derive(Clone, Copy, Debug)]
pub struct AggregateSummary {
    pub n_files: usize,
    pub n_clean: usize,
    pub n_with_errors: usize,
    pub n_with_warnings: usize,
    pub total_records: u128,
    pub total_bytes: u128,
}

/// Sums up a set of reports.
pub fn summarize(reports: &Vec<FileCounts>) -> (s: AggregateSummary)
    ensures
        ({
            let n = reports.len() as int;
            &&& s.n_files == n
            &&& s.n_clean == tally::count(n, is_clean(reports@))
            &&& s.n_with_errors == tally::count(n, has_errors(reports@))
            &&& s.n_with_warnings == tally::count(n, has_only_warnings(reports@))
            &&& s.total_records == tally::total(n, records_in(reports@))
            &&& s.total_bytes == tally::total(n, bytes_in(reports@))
        }),
{
    let mut s = AggregateSummary {
        n_files: reports.len(),
        n_clean: 0,
        n_with_errors: 0,
        n_with_warnings: 0,
        total_records: 0,
        total_bytes: 0,
    };
    let mut i: usize = 0;
    while i < reports.len()
        invariant
            i <= reports.len(),
            s.n_files == reports.len(),
            s.n_clean == tally::count(i as int, is_clean(reports@)),
            s.n_with_errors == tally::count(i as int, has_errors(reports@)),
            s.n_with_warnings == tally::count(i as int, has_only_warnings(reports@)),
            s.total_records == tally::total(i as int, records_in(reports@)),
            s.total_bytes == tally::total(i as int, bytes_in(reports@)),
            s.n_clean <= i,
            s.n_with_errors <= i,
            s.n_with_warnings <= i,
            s.total_records <= i * 0xffff_ffff_ffff_ffff,
            s.total_bytes <= i * 0xffff_ffff_ffff_ffff,
        decreases reports.len() - i,
    {
        let r = &reports[i];
        s.total_records = s.total_records + r.records as u128;
        s.total_bytes = s.total_bytes + r.bytes as u128;
        if r.errors > 0 {
            s.n_with_errors = s.n_with_errors + 1;
        } else if r.warnings > 0 {
            s.n_with_warnings = s.n_with_warnings + 1;
        } else {
            s.n_clean = s.n_clean + 1;
        }
        i = i + 1;
    }
    s
}

/// Process exit status: 2 with an error anywhere; with a warning anywhere 1, or
/// 2 when strict; else 0.
pub fn exit_code(reports: &Vec<FileCounts>, strict: bool) -> (code: i32)
    ensures
        code == if exists|i: int| 0 <= i < reports.len() && (#[trigger] reports@[i]).errors > 0 {
            2i32
        } else if exists|i: int| 0 <= i < reports.len() && (#[trigger] reports@[i]).warnings > 0 {
            if strict {
                2
            } else {
                1
            }
        } else {
            0
        },
{
    let mut any_error = false;
    let mut any_warning = false;
    let mut i: usize = 0;
    while i < reports.len()
        invariant
            i <= reports.len(),
            any_error <==> exists|k: int| 0 <= k < i && (#[trigger] reports@[k]).errors > 0,
            any_warning <==> exists|k: int| 0 <= k < i && (#[trigger] reports@[k]).warnings > 0,
        decreases reports.len() - i,
    {
        if reports[i].errors > 0 {
            any_error = true;
        }
        if reports[i].warnings > 0 {
            any_warning = true;
        }
        i = i + 1;
    }
    if any_error {
        2
    } else if any_warning {
        if strict {
            2
        } else {
            1
        }
    } else {
        0
    }
}

} // verus!
