//! Framing of a worker's captured output into its log file.

use crate::text::append_bytes;
use vstd::prelude::*;

verus! {

/// The name of the log file of the worker called `name`: the name followed
/// by `.log`.
pub open spec fn log_name_of(name: Seq<u8>) -> Seq<u8> {
    name + seq![46u8, 108u8, 111u8, 103u8]
}

/// What one captured line adds to the log: the line and a line feed.
pub open spec fn framed(line: Seq<u8>) -> Seq<u8> {
    line.push(10u8)
}

/// What a log holds once `lines` have been appended to an empty file, in
/// order.
pub open spec fn log_contents(lines: Seq<Seq<u8>>) -> Seq<u8>
    decreases lines.len(),
{
    if lines.len() == 0 {
        Seq::empty()
    } else {
        log_contents(lines.drop_last()) + framed(lines.last())
    }
}

/// The log only grows: what it held after the first `k` lines is still the
/// beginning of what it holds after all of them.
pub proof fn lemma_log_append_only(lines: Seq<Seq<u8>>, k: int)
    requires
        0 <= k <= lines.len(),
    ensures
        log_contents(lines.take(k)).is_prefix_of(log_contents(lines)),
    decreases lines.len() - k,
{
    if k == lines.len() {
        assert(lines.take(k) =~= lines);
    } else {
        lemma_log_append_only(lines.drop_last(), k);
        assert(lines.drop_last().take(k) =~= lines.take(k));
    }
}

/// The log file's name for a worker.
pub fn log_file_name(name: &[u8]) -> (out: Vec<u8>)
    ensures
        out@ == log_name_of(name@),
{
    let mut out: Vec<u8> = Vec::new();
    append_bytes(&mut out, name);
    out.push(46u8);
    out.push(108u8);
    out.push(111u8);
    out.push(103u8);
    proof {
        assert(out@ =~= log_name_of(name@));
    }
    out
}

/// The bytes to append to the log for one captured line.
pub fn log_entry(line: &[u8]) -> (out: Vec<u8>)
    ensures
        out@ == framed(line@),
{
    let mut out: Vec<u8> = Vec::new();
    append_bytes(&mut out, line);
    out.push(10u8);
    proof {
        assert(out@ =~= framed(line@));
    }
    out
}

} // verus!
