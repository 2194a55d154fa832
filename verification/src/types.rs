//! The records that flow between the watcher, the scanner and the sinks.

use vstd::prelude::*;
use crate::text::{hex, push_hex, push_text, text_of};

verus! {

/// A rule that matched a page.
#[derive(Clone, Debug)]
pub struct Finding {
    pub pid: u32,
    pub base: u64,
    pub size: usize,
    pub rule: String,
    pub severity: String,
    pub message: String,
}

/// A mapped region of a process.
#[derive(Clone, Debug)]
pub struct Mapping {
    pub pid: u32,
    pub base: u64,
    pub size: usize,
    pub prot: String,
    /// IMAGE, MAPPED or PRIVATE.
    pub kind: String,
}

/// One process to scan, with its priority.
#[derive(Clone, Copy, Debug, PartialEq, Eq)]
pub struct ScanTask {
    pub pid: u32,
    pub base: u64,
    pub size: usize,
    pub priority: u8,
}

/// The severity that every finding carries.
pub open spec fn high_severity() -> Seq<char> {
    "high"@
}

/// `match {rule} at 0x{base:x}`.
pub open spec fn match_message(rule: Seq<char>, base: u64) -> Seq<char> {
    "match "@ + rule + " at 0x"@ + hex(base as nat)
}

/// Builds `match {rule} at 0x{base:x}`.
pub fn match_message_text(rule: &str, base: u64) -> (r: String)
    ensures
        r@ == match_message(rule@, base),
{
    let mut s = text_of("match ");
    push_text(&mut s, rule);
    push_text(&mut s, " at 0x");
    push_hex(&mut s, base);
    s
}

/// A finding of severity `high` for `rule` matching the page at `base`.
pub fn new_finding(pid: u32, base: u64, size: usize, rule: String, message: String) -> (f: Finding)
    ensures
        f.pid == pid,
        f.base == base,
        f.size == size,
        f.rule@ == rule@,
        f.severity@ == high_severity(),
        f.message@ == message@,
{
    Finding { pid, base, size, rule, severity: text_of("high"), message }
}

} // verus!
