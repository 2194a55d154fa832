//! Replaying recorded pages through the scanner, one page at a time: the
//! library decides what each page needs, the caller runs the scans.

use vstd::prelude::*;
use crate::cli::{
    base_of, decode_hex_page, hex_bytes, is_hex_text, parse_base,
    pid_fault_message, replay_pid_of, resolve_replay_pid, without_ascii_space, BaseError,
    BaseFault, PidError, PidFault, ReplayPid,
};
use crate::engine::{ScanError, ScanFault};
use crate::pager::{after_check, crc32_of, digest_hit, DigestKey, PageCache, PageCacheEntry};
use crate::text::{hex, push_dec, push_hex, text_of};
use crate::types::{high_severity, match_message, match_message_text, new_finding, Finding};

verus! {

/// One recorded page: its base address and its bytes in hex, both as text.
#[derive(Clone, Debug)]
pub struct ReplayPage {
    pub base: String,
    pub data_hex: String,
}

/// A recorded mapping: the process and its pages.
#[derive(Clone, Debug)]
pub struct ReplayFile {
    pub pid: ReplayPid,
    pub pages: Vec<ReplayPage>,
}

impl ReplayFile {
    /// Whether the file records any page; a replay file without pages is
    /// refused before it is replayed.
    pub fn has_pages(&self) -> (r: bool)
        ensures
            r == (self.pages.len() > 0),
    {
        self.pages.len() > 0
    }
}

/// Why a replay stopped.
#[derive(Clone, Debug)]
pub enum ReplayError {
    /// The process id of the file was refused.
    Pid(PidError),
    /// The base address of the page with this number (from 1) was refused.
    Base(usize, BaseError),
    /// The data of the page with this number (from 1) is not hex.
    Data(usize),
    /// Scanning the page at this base address failed.
    Scan(u64, ScanError),
}

/// A stopped replay, with its texts as character sequences.
pub enum ReplayFault {
    Pid(PidFault),
    Base(nat, BaseFault),
    Data(nat),
    Scan(u64, ScanFault),
}

impl View for ReplayError {
    type V = ReplayFault;

    open spec fn view(&self) -> ReplayFault {
        match self {
            ReplayError::Pid(e) => ReplayFault::Pid(e@),
            ReplayError::Base(n, e) => ReplayFault::Base(*n as nat, e@),
            ReplayError::Data(n) => ReplayFault::Data(*n as nat),
            ReplayError::Scan(b, e) => ReplayFault::Scan(*b, e@),
        }
    }
}

/// What a stopped replay reads as: the outermost reason.
pub open spec fn replay_fault_message(f: ReplayFault) -> Seq<char> {
    match f {
        ReplayFault::Pid(p) => pid_fault_message(p),
        ReplayFault::Base(n, _) => "invalid base on replay page "@ + crate::text::dec(n),
        ReplayFault::Data(n) => "invalid data on replay page "@ + crate::text::dec(n),
        ReplayFault::Scan(b, _) => "YARA scan failed for replay page 0x"@ + hex(b as nat),
    }
}

impl ReplayError {
    /// The reason as text.
    pub fn message(&self) -> (r: String)
        ensures
            r@ == replay_fault_message(self@),
    {
        match self {
            ReplayError::Pid(e) => e.message(),
            ReplayError::Base(n, _) => {
                let mut s = text_of("invalid base on replay page ");
                push_dec(&mut s, *n as u64);
                s
            },
            ReplayError::Data(n) => {
                let mut s = text_of("invalid data on replay page ");
                push_dec(&mut s, *n as u64);
                s
            },
            ReplayError::Scan(b, _) => {
                let mut s = text_of("YARA scan failed for replay page 0x");
                push_hex(&mut s, *b);
                s
            },
        }
    }
}

/// What the next page asks of the caller.
#[derive(Debug)]
pub enum ReplayStep {
    /// Scan these bytes of the page at this base address, then hand the
    /// outcome to `record_scan`.
    Scan(u64, Vec<u8>),
    /// The page is unchanged since it was last seen: nothing to scan.
    Skip,
    /// The page is malformed: the replay stops with this error.
    Failed(ReplayError),
    /// Every page has been handled.
    Finished,
}

/// The bytes of a page, if its data is hex.
pub open spec fn page_data(p: ReplayPage) -> Option<Seq<u8>> {
    if is_hex_text(without_ascii_space(p.data_hex@)) {
        Some(hex_bytes(without_ascii_space(p.data_hex@)))
    } else {
        None
    }
}

/// `f` reports `rule` on the replayed page at `base` of `size` bytes.
pub open spec fn is_replay_finding(f: Finding, pid: u32, base: u64, size: usize, rule: Seq<char>) -> bool {
    &&& f.pid == pid
    &&& f.base == base
    &&& f.size == size
    &&& f.rule@ == rule
    &&& f.severity@ == high_severity()
    &&& f.message@ == match_message(rule, base)
}

/// A page with base `key.1` and bytes `bytes` was checked against the cache
/// at `now`: on a hit nothing is left to do, otherwise the bytes go out for
/// scanning and the page waits for its outcome.
pub open spec fn checked_page_step(
    before: Map<DigestKey, PageCacheEntry>,
    after: Map<DigestKey, PageCacheEntry>,
    key: DigestKey,
    bytes: Seq<u8>,
    now: u128,
    ttl_ms: u64,
    step: ReplayStep,
    pending: Option<(u64, usize)>,
) -> bool {
    &&& after == after_check(before, key, crc32_of(bytes), now, ttl_ms)
    &&& if digest_hit(before, key, crc32_of(bytes), now, ttl_ms) {
        &&& step is Skip
        &&& pending is None
    } else {
        &&& step matches ReplayStep::Scan(b, v) && b == key.1 && v@ == bytes
        &&& pending == Some((key.1, bytes.len() as usize))
    }
}

/// A replayed page that had to be scanned is skipped when it comes again
/// with the same process, base and bytes less than the cache's time to live
/// later, whatever other pages were checked in between.
pub proof fn lemma_repeated_page_is_skipped(
    before: Map<DigestKey, PageCacheEntry>,
    after_first: Map<DigestKey, PageCacheEntry>,
    before_second: Map<DigestKey, PageCacheEntry>,
    after_second: Map<DigestKey, PageCacheEntry>,
    key: DigestKey,
    bytes: Seq<u8>,
    first_now: u128,
    second_now: u128,
    ttl_ms: u64,
    first: ReplayStep,
    second: ReplayStep,
    first_pending: Option<(u64, usize)>,
    second_pending: Option<(u64, usize)>,
)
    requires
        ttl_ms > 0,
        checked_page_step(before, after_first, key, bytes, first_now, ttl_ms, first, first_pending),
        first is Scan,
        before_second.contains_key(key),
        before_second[key] == after_first[key],
        second_now < first_now + crate::pager::ttl_nanos(ttl_ms),
        checked_page_step(
            before_second,
            after_second,
            key,
            bytes,
            second_now,
            ttl_ms,
            second,
            second_pending,
        ),
    ensures
        second is Skip,
        after_second == before_second,
{
    crate::pager::lemma_recorded_digest_hits(before, key, crc32_of(bytes), first_now, second_now, ttl_ms);
}

/// A replay in progress: the process, the digest cache, the pages, the
/// next page and the findings so far.
pub struct ReplayRun {
    pid: u32,
    cache: PageCache,
    pages: Vec<ReplayPage>,
    next: usize,
    pending: Option<(u64, usize)>,
    findings: Vec<Finding>,
}

impl ReplayRun {
    pub closed spec fn spec_pid(&self) -> u32 {
        self.pid
    }

    pub closed spec fn entries(&self) -> Map<DigestKey, PageCacheEntry> {
        self.cache.entries()
    }

    pub closed spec fn ttl(&self) -> u64 {
        self.cache.ttl()
    }

    pub closed spec fn pages(&self) -> Seq<ReplayPage> {
        self.pages@
    }

    /// The index of the next page to handle.
    pub closed spec fn next(&self) -> nat {
        self.next as nat
    }

    /// The page waiting for its scan outcome: base address and size.
    pub closed spec fn pending(&self) -> Option<(u64, usize)> {
        self.pending
    }

    pub closed spec fn findings(&self) -> Seq<Finding> {
        self.findings@
    }

    /// Starts replaying `replay`, with `self_pid` standing for `self`, and a
    /// digest cache whose entries count for a minute.
    pub fn start(replay: ReplayFile, self_pid: u32) -> (r: Result<ReplayRun, ReplayError>)
        ensures
            match r {
                Ok(run) => {
                    &&& replay_pid_of(replay.pid, self_pid) == Ok::<u32, PidFault>(run.spec_pid())
                    &&& run.pages() == replay.pages@
                    &&& run.next() == 0
                    &&& run.pending() is None
                    &&& run.findings().len() == 0
                    &&& run.entries().dom() == Set::<DigestKey>::empty()
                    &&& run.ttl() == 60_000
                },
                Err(e) => replay_pid_of(replay.pid, self_pid) matches Err(f) && e@ == ReplayFault::Pid(f),
            },
    {
        let pid = match resolve_replay_pid(replay.pid, self_pid) {
            Ok(p) => p,
            Err(e) => {
                return Err(ReplayError::Pid(e));
            },
        };
        Ok(
            ReplayRun {
                pid,
                cache: PageCache::new(60_000),
                pages: replay.pages,
                next: 0,
                pending: None,
                findings: Vec::new(),
            },
        )
    }

    /// A page waits for its scan outcome.
    pub fn awaiting_scan(&self) -> (r: bool)
        ensures
            r == self.pending() is Some,
    {
        self.pending.is_some()
    }

    /// Handles the next page: its base address and data are parsed, and
    /// unless its digest is cached and recent it is handed out for scanning.
    pub fn next_page(&mut self) -> (step: ReplayStep)
        requires
            old(self).pending() is None,
        ensures
            final(self).spec_pid() == old(self).spec_pid(),
            final(self).pages() == old(self).pages(),
            final(self).findings() == old(self).findings(),
            final(self).ttl() == old(self).ttl(),
            old(self).next() >= old(self).pages().len() ==> {
                &&& step is Finished
                &&& final(self).next() == old(self).next()
                &&& final(self).entries() == old(self).entries()
                &&& final(self).pending() is None
            },
            old(self).next() < old(self).pages().len() ==> final(self).next() == old(self).next() + 1,
            old(self).next() < old(self).pages().len() ==> (base_of(
                old(self).pages()[old(self).next() as int].base@,
            ) matches Err(f) ==> {
                &&& step matches ReplayStep::Failed(e) && e@ == ReplayFault::Base(
                    old(self).next() + 1,
                    f,
                )
                &&& final(self).entries() == old(self).entries()
                &&& final(self).pending() is None
            }),
            old(self).next() < old(self).pages().len() ==> (base_of(
                old(self).pages()[old(self).next() as int].base@,
            ) is Ok && page_data(old(self).pages()[old(self).next() as int]) is None ==> {
                &&& step matches ReplayStep::Failed(e) && e@ == ReplayFault::Data(old(self).next() + 1)
                &&& final(self).entries() == old(self).entries()
                &&& final(self).pending() is None
            }),
            old(self).next() < old(self).pages().len() ==> (base_of(
                old(self).pages()[old(self).next() as int].base@,
            ) matches Ok(b) ==> (page_data(old(self).pages()[old(self).next() as int]) matches Some(
                bytes,
            ) ==> exists|now: u128|
                #[trigger] checked_page_step(
                    old(self).entries(),
                    final(self).entries(),
                    (old(self).spec_pid(), b),
                    bytes,
                    now,
                    old(self).ttl(),
                    step,
                    final(self).pending(),
                ))),
    {
        if self.next >= self.pages.len() {
            return ReplayStep::Finished;
        }
        let n = self.next;
        self.next = n + 1;
        let base = match parse_base(self.pages[n].base.as_str()) {
            Ok(b) => b,
            Err(e) => {
                return ReplayStep::Failed(ReplayError::Base(n + 1, e));
            },
        };
        let bytes = match decode_hex_page(self.pages[n].data_hex.as_str()) {
            Some(v) => v,
            None => {
                return ReplayStep::Failed(ReplayError::Data(n + 1));
            },
        };
        let ghost before = self.cache.entries();
        let hit = self.cache.check(self.pid, base, bytes.as_slice());
        let ghost now = choose|now: u128|
            {
                &&& hit == digest_hit(before, (self.pid, base), crc32_of(bytes@), now, self.cache.ttl())
                &&& self.cache.entries() == after_check(
                    before,
                    (self.pid, base),
                    crc32_of(bytes@),
                    now,
                    self.cache.ttl(),
                )
            };
        let ghost b = base_of(old(self).pages()[old(self).next() as int].base@)->Ok_0;
        let ghost data = page_data(old(self).pages()[old(self).next() as int])->Some_0;
        assert(b == base && data == bytes@);
        if hit {
            let step = ReplayStep::Skip;
            assert(final(self).entries() == self.entries() && final(self).pending() == self.pending());
            assert(checked_page_step(
                old(self).entries(),
                final(self).entries(),
                (old(self).spec_pid(), b),
                data,
                now,
                old(self).ttl(),
                step,
                final(self).pending(),
            ));
            return step;
        }
        self.pending = Some((base, bytes.len()));
        let step = ReplayStep::Scan(base, bytes);
        assert(final(self).entries() == self.entries() && final(self).pending() == self.pending());
        assert(checked_page_step(
            old(self).entries(),
            final(self).entries(),
            (old(self).spec_pid(), b),
            data,
            now,
            old(self).ttl(),
            step,
            final(self).pending(),
        ));
        step
    }

    /// Books the outcome of scanning the waiting page: each matched rule
    /// becomes a finding; a failed scan stops the replay.
    pub fn record_scan(&mut self, result: Result<Vec<String>, ScanError>) -> (r: Result<(), ReplayError>)
        requires
            old(self).pending() is Some,
        ensures
            final(self).spec_pid() == old(self).spec_pid(),
            final(self).pages() == old(self).pages(),
            final(self).next() == old(self).next(),
            final(self).entries() == old(self).entries(),
            final(self).ttl() == old(self).ttl(),
            final(self).pending() is None,
            ({
                let (b, size) = old(self).pending().unwrap();
                match result {
                    Ok(hits) => {
                        &&& r is Ok
                        &&& final(self).findings().len() == old(self).findings().len() + hits.len()
                        &&& forall|i: int|
                            0 <= i < old(self).findings().len() ==> #[trigger] final(self).findings()[i]
                                == old(self).findings()[i]
                        &&& forall|i: int|
                            0 <= i < hits.len() ==> is_replay_finding(
                                #[trigger] final(self).findings()[old(self).findings().len() + i],
                                old(self).spec_pid(),
                                b,
                                size,
                                hits[i]@,
                            )
                    },
                    Err(e) => {
                        &&& r matches Err(x) && x@ == ReplayFault::Scan(b, e@)
                        &&& final(self).findings() == old(self).findings()
                    },
                }
            }),
    {
        let (base, size) = match self.pending {
            Some(p) => p,
            None => (0, 0),
        };
        self.pending = None;
        let hits = match result {
            Err(e) => {
                return Err(ReplayError::Scan(base, e));
            },
            Ok(hits) => hits,
        };
        let ghost before = self.findings@;
        let mut i: usize = 0;
        while i < hits.len()
            invariant
                i <= hits.len(),
                self.pid == old(self).spec_pid(),
                self.pages@ == old(self).pages(),
                self.next == old(self).next(),
                self.cache.entries() == old(self).entries(),
                self.cache.ttl() == old(self).ttl(),
                self.pending is None,
                before == old(self).findings(),
                self.findings@.len() == before.len() + i,
                forall|q: int| 0 <= q < before.len() ==> #[trigger] self.findings@[q] == before[q],
                forall|q: int|
                    0 <= q < i ==> is_replay_finding(
                        #[trigger] self.findings@[before.len() + q],
                        self.pid,
                        base,
                        size,
                        hits[q]@,
                    ),
            decreases hits.len() - i,
        {
            let rule = hits[i].clone();
            let message = match_message_text(rule.as_str(), base);
            let f = new_finding(self.pid, base, size, rule, message);
            self.findings.push(f);
            i = i + 1;
        }
        Ok(())
    }

    /// The findings of the replay, in the order of pages and rules.
    pub fn into_findings(self) -> (r: Vec<Finding>)
        ensures
            r@ == self.findings(),
    {
        self.findings
    }
}

} // verus!
