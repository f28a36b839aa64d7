//! What a report shows of one transfer, as plain values. Laying the values
//! out, on a terminal or in a file, is the caller's.

use crate::measure::{Throughput, TransferResult};
use vstd::prelude::*;

verus! {

/// Bytes in the kilobyte that chunk sizes are shown in.
pub const BYTES_PER_CHUNK_KB: u32 = 1024;

/// The text that `humansize::format_size` gives for a number of bytes under
/// the options `humansize::DECIMAL`, such as `1.05 MB` for 1 048 576 bytes.
/// The text is a function of the number alone; it is named here, not
/// spelled out.
pub uninterp spec fn decimal_size_text(bytes: u64) -> Seq<char>;

/// Calls `humansize::format_size` with the options `humansize::DECIMAL`.
/// The contract claims only that the text returned is the one that the
/// function determines for this number of bytes. The function does not fail
/// on any 64-bit number: the largest scales down to exabytes, within its
/// table of units.
#[verifier::external_body]
fn format_decimal_size(bytes: u64) -> (text: String)
    ensures
        text@ == decimal_size_text(bytes),
{
    humansize::format_size(bytes, humansize::DECIMAL)
}

/// The values of one line of a report.
#[derive(Debug, PartialEq, Eq)]
pub struct ReportRow {
    /// The file size for a reader, such as `1.05 MB`.
    pub size_label: String,
    /// The file size in bytes.
    pub file_size: u64,
    /// The chunk size in bytes.
    pub chunk_size: u32,
    /// The chunk size in whole kilobytes of 1024 bytes.
    pub chunk_kb: u32,
    /// The duration in whole milliseconds.
    pub duration_ms: u128,
    /// The throughput in megabits per second.
    pub throughput: Throughput,
}

impl ReportRow {
    /// Whether the row shows `result` under the label `size_label`.
    pub open spec fn shows(self, result: TransferResult, size_label: Seq<char>) -> bool {
        &&& self.size_label@ == size_label
        &&& self.file_size == result.file_size
        &&& self.chunk_size == result.chunk_size
        &&& self.chunk_kb == result.chunk_size / 1024
        &&& self.duration_ms == result.duration@ / 1_000_000
        &&& self.throughput == result.spec_throughput()
    }

    /// The row for `result` with the label `size_label` for its file size.
    pub fn assemble(size_label: String, result: &TransferResult) -> (row: ReportRow)
        ensures
            row.shows(*result, size_label@),
    {
        ReportRow {
            size_label,
            file_size: result.file_size,
            chunk_size: result.chunk_size,
            chunk_kb: result.chunk_size / BYTES_PER_CHUNK_KB,
            duration_ms: result.duration.as_millis(),
            throughput: result.throughput(),
        }
    }
}

/// The row that a report shows for `result`, its file size labelled in
/// decimal units.
pub fn report_row(result: &TransferResult) -> (row: ReportRow)
    ensures
        row.shows(*result, decimal_size_text(result.file_size)),
{
    ReportRow::assemble(format_decimal_size(result.file_size), result)
}

/// The rows that a report shows for `results`, in their order.
pub fn report_rows(results: &Vec<TransferResult>) -> (rows: Vec<ReportRow>)
    ensures
        rows@.len() == results@.len(),
        forall|i: int|
            0 <= i < results@.len() ==> (#[trigger] rows@[i]).shows(
                results@[i],
                decimal_size_text(results@[i].file_size),
            ),
{
    let mut rows: Vec<ReportRow> = Vec::new();
    let mut i: usize = 0;
    while i < results.len()
        invariant
            i <= results@.len(),
            rows@.len() == i,
            forall|k: int|
                0 <= k < i ==> (#[trigger] rows@[k]).shows(
                    results@[k],
                    decimal_size_text(results@[k].file_size),
                ),
        decreases results@.len() - i,
    {
        rows.push(report_row(&results[i]));
        i = i + 1;
    }
    rows
}

} // verus!
