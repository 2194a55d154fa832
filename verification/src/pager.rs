//! The page digest cache, the walk of a mapped region page by page, and the
//! bookkeeping of one page scan.

use vstd::prelude::*;
use dashmap::DashMap;
use std::time::Instant;
use crate::engine::ScanError;
use crate::config::Priorities;
use crate::metrics::Registry;
use crate::types::{high_severity, match_message, match_message_text, new_finding, Finding};
use crate::text::{dec, push_dec, push_text, text_of};

verus! {

/// `dashmap::DashMap`, the concurrent map that holds the page digests; its
/// contents are known only through `cache_contents`.
#[verifier::external_type_specification]
#[verifier::external_body]
#[verifier::reject_recursive_types(K)]
#[verifier::reject_recursive_types(V)]
#[verifier::reject_recursive_types(S)]
pub struct ExDashMap<K, V, S>(DashMap<K, V, S>);

/// `std::time::Instant`, a reading of the monotonic clock; nothing is known
/// of its value.
#[verifier::external_type_specification]
#[verifier::external_body]
pub struct ExInstant(Instant);

// ---------------------------------------------------------------------------
// Digest cache
// ---------------------------------------------------------------------------

/// A digest of one page as last recorded: its CRC32 and when it was
/// recorded, in nanoseconds since the cache was created.
#[derive(Clone, Copy, Debug, PartialEq, Eq)]
pub struct PageCacheEntry {
    pub crc: u32,
    pub ts: u128,
}

/// A page is known by its process id and its base address.
pub type DigestKey = (u32, u64);

/// The map that holds one digest per page.
pub type DigestMap = DashMap<DigestKey, PageCacheEntry>;

/// What a digest map holds, key by key.
pub uninterp spec fn cache_contents(m: DigestMap) -> Map<DigestKey, PageCacheEntry>;

/// `DashMap::new`: a new map holds nothing.
#[verifier::external_body]
fn digest_map_new() -> (m: DigestMap)
    ensures
        cache_contents(m).dom() == Set::<DigestKey>::empty(),
{
    DashMap::new()
}

/// `DashMap::get`, with the entry copied out: the entry under `key`, if any.
#[verifier::external_body]
fn digest_map_get(m: &DigestMap, key: DigestKey) -> (r: Option<PageCacheEntry>)
    ensures
        r == (if cache_contents(*m).contains_key(key) {
            Some(cache_contents(*m)[key])
        } else {
            None
        }),
{
    m.get(&key).map(|e| *e)
}

/// `DashMap::insert`: afterwards `key` holds `entry`, the other keys are
/// unchanged.
#[verifier::external_body]
fn digest_map_insert(m: &mut DigestMap, key: DigestKey, entry: PageCacheEntry)
    ensures
        cache_contents(*final(m)) == cache_contents(*old(m)).insert(key, entry),
{
    m.insert(key, entry);
}

/// `Instant::now`: the clock's current reading.
#[verifier::external_body]
fn instant_now() -> (t: Instant) {
    Instant::now()
}

/// `Instant::elapsed` in nanoseconds: how long ago `since` was (zero when the
/// clock reads earlier). Nothing is stated of the value, which the clock gives.
#[verifier::external_body]
fn nanos_since(since: &Instant) -> (n: u128) {
    since.elapsed().as_nanos()
}

/// The CRC32 (IEEE) checksum of `data`, as `crc32fast::hash` computes it.
pub uninterp spec fn crc32_of(data: Seq<u8>) -> u32;

/// `crc32fast::hash`: the CRC32 of `buf`.
#[verifier::external_body]
fn page_crc(buf: &[u8]) -> (r: u32)
    ensures
        r == crc32_of(buf@),
{
    crc32fast::hash(buf)
}

/// How long before `now` the time `ts` was; zero if `ts` is not earlier.
pub open spec fn elapsed_since(ts: u128, now: u128) -> int {
    if now >= ts {
        now - ts
    } else {
        0
    }
}

/// The TTL in nanoseconds.
pub open spec fn ttl_nanos(ttl_ms: u64) -> int {
    ttl_ms as int * 1_000_000
}

/// The page `key` was last recorded with digest `crc`, less than the TTL
/// before `now`.
pub open spec fn digest_hit(
    entries: Map<DigestKey, PageCacheEntry>,
    key: DigestKey,
    crc: u32,
    now: u128,
    ttl_ms: u64,
) -> bool {
    &&& entries.contains_key(key)
    &&& entries[key].crc == crc
    &&& elapsed_since(entries[key].ts, now) < ttl_nanos(ttl_ms)
}

/// The cache after a check: unchanged on a hit; otherwise `key` is recorded
/// with `crc` at `now`.
pub open spec fn after_check(
    entries: Map<DigestKey, PageCacheEntry>,
    key: DigestKey,
    crc: u32,
    now: u128,
    ttl_ms: u64,
) -> Map<DigestKey, PageCacheEntry> {
    if digest_hit(entries, key, crc, now, ttl_ms) {
        entries
    } else {
        entries.insert(key, PageCacheEntry { crc, ts: now })
    }
}

/// The digests of the pages seen so far, with a time to live.
pub struct PageCache {
    ttl_ms: u64,
    origin: Instant,
    map: DigestMap,
}

impl PageCache {
    /// The recorded digests.
    pub closed spec fn entries(&self) -> Map<DigestKey, PageCacheEntry> {
        cache_contents(self.map)
    }

    /// How long a digest counts, in milliseconds.
    pub closed spec fn ttl(&self) -> u64 {
        self.ttl_ms
    }

    /// An empty cache whose digests count for `ttl_ms` milliseconds.
    pub fn new(ttl_ms: u64) -> (c: Self)
        ensures
            c.entries().dom() == Set::<DigestKey>::empty(),
            c.ttl() == ttl_ms,
    {
        PageCache { ttl_ms, origin: instant_now(), map: digest_map_new() }
    }

    /// Whether the page at `base` of `pid` with digest `crc` is unchanged
    /// and recent at time `now` (nanoseconds since the cache was created).
    /// A page that is not is recorded with `crc` at `now`.
    pub fn check_digest(&mut self, pid: u32, base: u64, crc: u32, now: u128) -> (hit: bool)
        ensures
            hit == digest_hit(old(self).entries(), (pid, base), crc, now, old(self).ttl()),
            final(self).entries() == after_check(
                old(self).entries(),
                (pid, base),
                crc,
                now,
                old(self).ttl(),
            ),
            final(self).ttl() == old(self).ttl(),
    {
        let key: DigestKey = (pid, base);
        match digest_map_get(&self.map, key) {
            Some(e) => {
                let elapsed: u128 = if now >= e.ts {
                    now - e.ts
                } else {
                    0
                };
                if e.crc == crc && elapsed < self.ttl_ms as u128 * 1_000_000 {
                    return true;
                }
                digest_map_insert(&mut self.map, key, PageCacheEntry { crc, ts: now });
                false
            },
            None => {
                digest_map_insert(&mut self.map, key, PageCacheEntry { crc, ts: now });
                false
            },
        }
    }

    /// Whether the page at `base` of `pid` holds the same bytes `buf` as
    /// when it was last recorded, less than the TTL ago. A page that does
    /// not is recorded with the digest of `buf` at the current time.
    pub fn check(&mut self, pid: u32, base: u64, buf: &[u8]) -> (hit: bool)
        ensures
            final(self).ttl() == old(self).ttl(),
            exists|now: u128|
                {
                    &&& hit == digest_hit(
                        old(self).entries(),
                        (pid, base),
                        crc32_of(buf@),
                        now,
                        old(self).ttl(),
                    )
                    &&& final(self).entries() == after_check(
                        old(self).entries(),
                        (pid, base),
                        crc32_of(buf@),
                        now,
                        old(self).ttl(),
                    )
                },
    {
        let crc = page_crc(buf);
        let now = nanos_since(&self.origin);
        self.check_digest(pid, base, crc, now)
    }
}

/// A page recorded at `now` with digest `crc` after a miss stays a hit for
/// the same digest until its time to live has passed, and a check records
/// `crc` for the page whatever it finds.
pub proof fn lemma_recorded_digest_hits(
    entries: Map<DigestKey, PageCacheEntry>,
    key: DigestKey,
    crc: u32,
    now: u128,
    later: u128,
    ttl_ms: u64,
)
    requires
        !digest_hit(entries, key, crc, now, ttl_ms),
        ttl_ms > 0,
        later < now + ttl_nanos(ttl_ms),
    ensures
        digest_hit(after_check(entries, key, crc, now, ttl_ms), key, crc, later, ttl_ms),
        after_check(entries, key, crc, now, ttl_ms)[key].crc == crc,
{
}

/// A page whose recorded digest differs from `crc`, or that was never
/// recorded, is never a hit.
pub proof fn lemma_changed_digest_misses(
    entries: Map<DigestKey, PageCacheEntry>,
    key: DigestKey,
    crc: u32,
    now: u128,
    ttl_ms: u64,
)
    requires
        !entries.contains_key(key) || entries[key].crc != crc,
    ensures
        !digest_hit(entries, key, crc, now, ttl_ms),
        after_check(entries, key, crc, now, ttl_ms) == entries.insert(
            key,
            PageCacheEntry { crc, ts: now },
        ),
{
}

/// The cache after checking page `key` with digest `crc` at each of the
/// times `times`, in order.
pub open spec fn after_checks(
    entries: Map<DigestKey, PageCacheEntry>,
    key: DigestKey,
    crc: u32,
    times: Seq<u128>,
    ttl_ms: u64,
) -> Map<DigestKey, PageCacheEntry>
    decreases times.len(),
{
    if times.len() == 0 {
        entries
    } else {
        after_check(after_checks(entries, key, crc, times.drop_last(), ttl_ms), key, crc, times.last(), ttl_ms)
    }
}

proof fn lemma_hits_leave_cache(
    entries: Map<DigestKey, PageCacheEntry>,
    key: DigestKey,
    crc: u32,
    t0: u128,
    times: Seq<u128>,
    ttl_ms: u64,
)
    requires
        entries.contains_key(key),
        entries[key] == (PageCacheEntry { crc, ts: t0 }),
        forall|i: int| 0 <= i < times.len() ==> elapsed_since(t0, #[trigger] times[i]) < ttl_nanos(ttl_ms),
    ensures
        after_checks(entries, key, crc, times, ttl_ms) == entries,
    decreases times.len(),
{
    if times.len() > 0 {
        let init = times.drop_last();
        assert forall|i: int| 0 <= i < init.len() implies elapsed_since(t0, #[trigger] init[i])
            < ttl_nanos(ttl_ms) by {
            assert(init[i] == times[i]);
        }
        lemma_hits_leave_cache(entries, key, crc, t0, init, ttl_ms);
        assert(elapsed_since(t0, times[times.len() - 1]) < ttl_nanos(ttl_ms));
    }
}

/// Hits never refresh a page's time: after a miss records digest `crc` for
/// `key` at `t0`, checks with the same digest less than the TTL after `t0`
/// are all hits and leave the cache as the miss left it, so a later check
/// at `t` hits exactly when `t` is less than the TTL after `t0`.
pub proof fn lemma_hits_keep_timestamp(
    before: Map<DigestKey, PageCacheEntry>,
    key: DigestKey,
    crc: u32,
    t0: u128,
    times: Seq<u128>,
    t: u128,
    ttl_ms: u64,
)
    requires
        !digest_hit(before, key, crc, t0, ttl_ms),
        forall|i: int| 0 <= i < times.len() ==> elapsed_since(t0, #[trigger] times[i]) < ttl_nanos(ttl_ms),
    ensures
        after_checks(after_check(before, key, crc, t0, ttl_ms), key, crc, times, ttl_ms)
            == after_check(before, key, crc, t0, ttl_ms),
        forall|i: int|
            0 <= i < times.len() ==> digest_hit(
                after_checks(after_check(before, key, crc, t0, ttl_ms), key, crc, times.take(i), ttl_ms),
                key,
                crc,
                #[trigger] times[i],
                ttl_ms,
            ),
        digest_hit(
            after_checks(after_check(before, key, crc, t0, ttl_ms), key, crc, times, ttl_ms),
            key,
            crc,
            t,
            ttl_ms,
        ) <==> elapsed_since(t0, t) < ttl_nanos(ttl_ms),
{
    let first = after_check(before, key, crc, t0, ttl_ms);
    lemma_hits_leave_cache(first, key, crc, t0, times, ttl_ms);
    assert forall|i: int| 0 <= i < times.len() implies digest_hit(
        after_checks(first, key, crc, times.take(i), ttl_ms),
        key,
        crc,
        #[trigger] times[i],
        ttl_ms,
    ) by {
        let pre = times.take(i);
        assert forall|j: int| 0 <= j < pre.len() implies elapsed_since(t0, #[trigger] pre[j])
            < ttl_nanos(ttl_ms) by {
            assert(pre[j] == times[j]);
        }
        lemma_hits_leave_cache(first, key, crc, t0, pre, ttl_ms);
    }
}

/// A check touches only the page it checks.
pub proof fn lemma_check_keeps_other_pages(
    entries: Map<DigestKey, PageCacheEntry>,
    key: DigestKey,
    other: DigestKey,
    crc: u32,
    now: u128,
    ttl_ms: u64,
)
    requires
        other != key,
    ensures
        after_check(entries, key, crc, now, ttl_ms).contains_key(other) == entries.contains_key(
            other,
        ),
        entries.contains_key(other) ==> after_check(entries, key, crc, now, ttl_ms)[other]
            == entries[other],
{
}

// ---------------------------------------------------------------------------
// Regions and pages
// ---------------------------------------------------------------------------

/// `MEM_COMMIT`: a region whose pages are committed, and so can be read.
pub const MEM_COMMIT: u32 = 0x1000;

/// `MEM_IMAGE`: a region mapped from an executable image.
pub const MEM_IMAGE: u32 = 0x0100_0000;

/// `MEM_MAPPED`: a region mapped from a section.
pub const MEM_MAPPED: u32 = 0x0004_0000;

/// `PAGE_EXECUTE`.
pub const PAGE_EXECUTE: u32 = 0x10;

/// `PAGE_EXECUTE_READ`.
pub const PAGE_EXECUTE_READ: u32 = 0x20;

/// `PAGE_EXECUTE_READWRITE`.
pub const PAGE_EXECUTE_READWRITE: u32 = 0x40;

/// `PAGE_EXECUTE_WRITECOPY`.
pub const PAGE_EXECUTE_WRITECOPY: u32 = 0x80;

/// `PAGE_READWRITE`.
pub const PAGE_READWRITE: u32 = 0x04;

/// `PAGE_WRITECOPY`.
pub const PAGE_WRITECOPY: u32 = 0x08;

/// The protection lets the page execute.
pub open spec fn is_exec_prot(prot: u32) -> bool {
    prot == PAGE_EXECUTE || prot == PAGE_EXECUTE_READ || prot == PAGE_EXECUTE_READWRITE || prot
        == PAGE_EXECUTE_WRITECOPY
}

/// The protection lets the page be written.
pub open spec fn is_write_prot(prot: u32) -> bool {
    prot == PAGE_READWRITE || prot == PAGE_WRITECOPY || prot == PAGE_EXECUTE_READWRITE || prot
        == PAGE_EXECUTE_WRITECOPY
}

/// The kind of a region by its memory type.
pub open spec fn kind_name(mem_type: u32) -> Seq<char> {
    if mem_type == MEM_IMAGE {
        "IMAGE"@
    } else if mem_type == MEM_MAPPED {
        "MAPPED"@
    } else {
        "PRIVATE"@
    }
}

/// The protection as its debug form `PAGE_PROTECTION_FLAGS(n)`.
pub open spec fn prot_name(prot: u32) -> Seq<char> {
    "PAGE_PROTECTION_FLAGS("@ + dec(prot as nat) + ")"@
}

/// One page of a region, ready to be read.
#[derive(Debug)]
pub struct PageDesc {
    pub base: u64,
    pub size: usize,
    pub prot: u32,
    pub prot_text: String,
    pub kind: String,
}

impl Clone for PageDesc {
    fn clone(&self) -> (r: Self)
        ensures
            r == *self,
    {
        PageDesc {
            base: self.base,
            size: self.size,
            prot: self.prot,
            prot_text: self.prot_text.clone(),
            kind: self.kind.clone(),
        }
    }
}

/// `page` is page number `i` of the region of `size` bytes at `base`, cut
/// into pages of `page_bytes`.
pub open spec fn is_region_page(page: PageDesc, i: int, base: usize, size: usize, page_bytes: usize) -> bool {
    &&& page.base == base + i * page_bytes
    &&& page.size == if page_bytes <= base + size - page.base {
        page_bytes as int
    } else {
        base + size - page.base
    }
}

/// `n` pages of `page_bytes` cover `size` bytes, and one fewer would not.
pub open spec fn covers(n: nat, size: nat, page_bytes: nat) -> bool {
    &&& n * page_bytes >= size
    &&& (n == 0 || (n - 1) * page_bytes < size)
}

/// How many pages of `page_bytes` cover `size` bytes.
pub open spec fn page_count(size: nat, page_bytes: nat) -> nat {
    if page_bytes == 0 {
        0
    } else {
        ((size + page_bytes - 1) / page_bytes as int) as nat
    }
}

/// Walking the region page by page stays within the address space: the
/// address after the last page is representable.
pub open spec fn walk_fits(base: usize, size: usize, page_bytes: usize) -> bool {
    base + page_count(size as nat, page_bytes as nat) * page_bytes <= usize::MAX
}

proof fn lemma_next_page_fits(k: nat, size: nat, pb: nat)
    requires
        pb > 0,
        k * pb < size,
    ensures
        (k + 1) * pb <= page_count(size, pb) * pb,
{
    let c = page_count(size, pb);
    assert((k + 1) * pb <= size + pb - 1) by (nonlinear_arith)
        requires
            k * pb < size,
    ;
    assert(k + 1 <= c) by (nonlinear_arith)
        requires
            (k + 1) * pb <= size + pb - 1,
            pb > 0,
            c == (size + pb - 1) / pb as int,
    ;
    assert((k + 1) * pb <= c * pb) by (nonlinear_arith)
        requires
            k + 1 <= c,
    ;
}

fn is_exec_prot_exec(prot: u32) -> (b: bool)
    ensures
        b == is_exec_prot(prot),
{
    prot == PAGE_EXECUTE || prot == PAGE_EXECUTE_READ || prot == PAGE_EXECUTE_READWRITE || prot
        == PAGE_EXECUTE_WRITECOPY
}

fn is_write_prot_exec(prot: u32) -> (b: bool)
    ensures
        b == is_write_prot(prot),
{
    prot == PAGE_READWRITE || prot == PAGE_WRITECOPY || prot == PAGE_EXECUTE_READWRITE || prot
        == PAGE_EXECUTE_WRITECOPY
}

/// The kind of a region: `IMAGE`, `MAPPED` or `PRIVATE`.
pub fn kind_text(mem_type: u32) -> (r: String)
    ensures
        r@ == kind_name(mem_type),
{
    if mem_type == MEM_IMAGE {
        text_of("IMAGE")
    } else if mem_type == MEM_MAPPED {
        text_of("MAPPED")
    } else {
        text_of("PRIVATE")
    }
}

/// The protection in its debug form.
pub fn prot_text(prot: u32) -> (r: String)
    ensures
        r@ == prot_name(prot),
{
    let mut s = text_of("PAGE_PROTECTION_FLAGS(");
    push_dec(&mut s, prot as u64);
    push_text(&mut s, ")");
    s
}

/// A region is worth scanning when it is committed and either mapped from an
/// image or a section, or able to execute or be written.
pub open spec fn worth_scanning(state: u32, prot: u32, mem_type: u32) -> bool {
    &&& state == MEM_COMMIT
    &&& (mem_type == MEM_IMAGE || mem_type == MEM_MAPPED || is_exec_prot(prot) || is_write_prot(
        prot,
    ))
}

/// The pages of a region worth scanning. A region that is not committed, or
/// a private one that can neither execute nor be written, has none;
/// otherwise the region is cut into pages of `page_bytes` from `base` on, the
/// last one holding what is left.
pub fn region_pages(
    base: usize,
    size: usize,
    state: u32,
    prot: u32,
    mem_type: u32,
    page_bytes: usize,
) -> (pages:
    Vec<PageDesc>)
    requires
        page_bytes > 0,
        base + size <= usize::MAX,
        walk_fits(base, size, page_bytes),
    ensures
        !worth_scanning(state, prot, mem_type) ==> pages.len() == 0,
        worth_scanning(state, prot, mem_type) ==> covers(
            pages.len() as nat,
            size as nat,
            page_bytes as nat,
        ),
        forall|i: int|
            0 <= i < pages.len() ==> {
                &&& is_region_page(#[trigger] pages[i], i, base, size, page_bytes)
                &&& pages[i].prot == prot
                &&& pages[i].prot_text@ == prot_name(prot)
                &&& pages[i].kind@ == kind_name(mem_type)
            },
{
    let mut pages: Vec<PageDesc> = Vec::new();
    if state != MEM_COMMIT || !(mem_type == MEM_IMAGE || mem_type == MEM_MAPPED
        || is_exec_prot_exec(prot) || is_write_prot_exec(prot)) {
        return pages;
    }
    let kind = kind_text(mem_type);
    let ptext = prot_text(prot);
    let end: usize = base + size;
    let mut cur: usize = base;
    assert(pages.len() * page_bytes == 0) by (nonlinear_arith)
        requires
            pages.len() == 0,
    ;
    while cur < end
        invariant
            page_bytes > 0,
            end == base + size,
            base + size <= usize::MAX,
            walk_fits(base, size, page_bytes),
            cur == base + pages.len() * page_bytes,
            pages.len() == 0 || (pages.len() - 1) * page_bytes < size,
            kind@ == kind_name(mem_type),
            ptext@ == prot_name(prot),
            forall|i: int|
                0 <= i < pages.len() ==> {
                    &&& is_region_page(#[trigger] pages[i], i, base, size, page_bytes)
                    &&& pages[i].prot == prot
                    &&& pages[i].prot_text@ == prot_name(prot)
                    &&& pages[i].kind@ == kind_name(mem_type)
                },
        decreases usize::MAX - cur,
    {
        let ghost k = pages.len() as nat;
        proof {
            lemma_next_page_fits(k, size as nat, page_bytes as nat);
        }
        let left: usize = end - cur;
        let this_size: usize = if page_bytes <= left {
            page_bytes
        } else {
            left
        };
        pages.push(
            PageDesc {
                base: cur as u64,
                size: this_size,
                prot,
                prot_text: ptext.clone(),
                kind: kind.clone(),
            },
        );
        assert((k + 1) * page_bytes == k * page_bytes + page_bytes) by (nonlinear_arith);
        cur = cur + page_bytes;
    }
    pages
}

/// The configured priority of a page: the execute priority for a page that
/// can execute, the write priority for one that can be written, the read
/// priority otherwise.
pub open spec fn page_priority(prot: u32, prio: Priorities) -> u8 {
    if is_exec_prot(prot) {
        prio.execute
    } else if is_write_prot(prot) {
        prio.write
    } else {
        prio.read
    }
}

/// A page has priority `level`.
pub open spec fn at_level(prio: Priorities, level: int) -> spec_fn(PageDesc) -> bool {
    |p: PageDesc| page_priority(p.prot, prio) == level
}

/// The pages of priority `level` and below, the higher levels first and the
/// pages of one level in the order they came.
pub open spec fn from_level(pages: Seq<PageDesc>, prio: Priorities, level: int) -> Seq<PageDesc>
    decreases level + 1,
{
    if level < 0 {
        Seq::empty()
    } else {
        pages.filter(at_level(prio, level)) + from_level(pages, prio, level - 1)
    }
}

/// The pages in scanning order: by configured priority, highest first, and
/// pages of equal priority in the order they came.
pub open spec fn by_priority(pages: Seq<PageDesc>, prio: Priorities) -> Seq<PageDesc> {
    from_level(pages, prio, 255)
}

/// The pages of priority `level` and below come out with priority at most
/// `level`, never rising from one page to the next.
pub proof fn lemma_from_level_ordered(pages: Seq<PageDesc>, prio: Priorities, level: int)
    ensures
        forall|i: int|
            0 <= i < from_level(pages, prio, level).len() ==> page_priority(
                #[trigger] from_level(pages, prio, level)[i].prot,
                prio,
            ) <= level,
        forall|i: int, j: int|
            0 <= i < j < from_level(pages, prio, level).len() ==> page_priority(
                #[trigger] from_level(pages, prio, level)[i].prot,
                prio,
            ) >= page_priority(#[trigger] from_level(pages, prio, level)[j].prot, prio),
    decreases level + 1,
{
    broadcast use Seq::lemma_filter_pred;

    if level >= 0 {
        lemma_from_level_ordered(pages, prio, level - 1);
        let top = pages.filter(at_level(prio, level));
        let rest = from_level(pages, prio, level - 1);
        assert forall|i: int| 0 <= i < top.len() implies page_priority(#[trigger] top[i].prot, prio)
            == level by {
            assert(at_level(prio, level)(top[i]));
        }
        let all = from_level(pages, prio, level);
        assert(all == top + rest);
        assert forall|i: int| 0 <= i < all.len() implies page_priority(#[trigger] all[i].prot, prio)
            <= level by {
            if i >= top.len() {
                assert(all[i] == rest[i - top.len()]);
            }
        }
        assert forall|i: int, j: int| 0 <= i < j < all.len() implies page_priority(
            #[trigger] all[i].prot,
            prio,
        ) >= page_priority(#[trigger] all[j].prot, prio) by {
            if j >= top.len() {
                assert(all[j] == rest[j - top.len()]);
                if i >= top.len() {
                    assert(all[i] == rest[i - top.len()]);
                }
            }
        }
    }
}

/// Pages in scanning order never rise in configured priority from one page
/// to the next.
pub proof fn lemma_by_priority_ordered(pages: Seq<PageDesc>, prio: Priorities)
    ensures
        forall|i: int, j: int|
            0 <= i < j < by_priority(pages, prio).len() ==> page_priority(
                #[trigger] by_priority(pages, prio)[i].prot,
                prio,
            ) >= page_priority(#[trigger] by_priority(pages, prio)[j].prot, prio),
{
    lemma_from_level_ordered(pages, prio, 255);
}

/// A page has priority `level` or lower.
pub open spec fn up_to_level(prio: Priorities, level: int) -> spec_fn(PageDesc) -> bool {
    |p: PageDesc| page_priority(p.prot, prio) <= level
}

proof fn lemma_filter_by_all_or_none(s: Seq<PageDesc>, pred: spec_fn(PageDesc) -> bool, all: bool)
    requires
        forall|i: int| 0 <= i < s.len() ==> pred(#[trigger] s[i]) == all,
    ensures
        s.filter(pred) == (if all {
            s
        } else {
            Seq::<PageDesc>::empty()
        }),
    decreases s.len(),
{
    reveal(Seq::filter);
    if s.len() == 0 {
        assert(s =~= Seq::<PageDesc>::empty());
    } else {
        let init = s.drop_last();
        assert forall|i: int| 0 <= i < init.len() implies pred(#[trigger] init[i]) == all by {
            assert(init[i] == s[i]);
        }
        lemma_filter_by_all_or_none(init, pred, all);
        assert(pred(s[s.len() - 1]) == all);
        assert(init.push(s.last()) =~= s);
    }
}

proof fn lemma_split_level(pages: Seq<PageDesc>, prio: Priorities, level: int)
    ensures
        pages.filter(at_level(prio, level)).to_multiset().add(
            pages.filter(up_to_level(prio, level - 1)).to_multiset(),
        ) == pages.filter(up_to_level(prio, level)).to_multiset(),
    decreases pages.len(),
{
    broadcast use vstd::seq_lib::group_to_multiset_ensures, vstd::multiset::group_multiset_axioms;

    reveal(Seq::filter);
    if pages.len() == 0 {
        assert(pages.filter(at_level(prio, level)).to_multiset().add(
            pages.filter(up_to_level(prio, level - 1)).to_multiset(),
        ) =~= pages.filter(up_to_level(prio, level)).to_multiset());
    } else {
        let init = pages.drop_last();
        let x = pages.last();
        lemma_split_level(init, prio, level);
        let a = init.filter(at_level(prio, level)).to_multiset();
        let b = init.filter(up_to_level(prio, level - 1)).to_multiset();
        if at_level(prio, level)(x) {
            assert(pages.filter(at_level(prio, level)).to_multiset().add(
                pages.filter(up_to_level(prio, level - 1)).to_multiset(),
            ) =~= a.insert(x).add(b));
        } else if up_to_level(prio, level - 1)(x) {
            assert(pages.filter(at_level(prio, level)).to_multiset().add(
                pages.filter(up_to_level(prio, level - 1)).to_multiset(),
            ) =~= a.add(b.insert(x)));
        } else {
            assert(pages.filter(at_level(prio, level)).to_multiset().add(
                pages.filter(up_to_level(prio, level - 1)).to_multiset(),
            ) =~= a.add(b));
        }
    }
}

proof fn lemma_from_level_keeps_pages(pages: Seq<PageDesc>, prio: Priorities, level: int)
    ensures
        from_level(pages, prio, level).to_multiset() == pages.filter(
            up_to_level(prio, level),
        ).to_multiset(),
    decreases level + 1,
{
    broadcast use vstd::seq_lib::group_to_multiset_ensures;

    if level < 0 {
        lemma_filter_by_all_or_none(pages, up_to_level(prio, level), false);
        assert(from_level(pages, prio, level) =~= Seq::<PageDesc>::empty());
    } else {
        lemma_from_level_keeps_pages(pages, prio, level - 1);
        lemma_split_level(pages, prio, level);
        vstd::seq_lib::lemma_multiset_commutative(
            pages.filter(at_level(prio, level)),
            from_level(pages, prio, level - 1),
        );
    }
}

/// Ordering by priority keeps every page, each as often as it came: the
/// scanning order is a rearrangement of the pages.
pub proof fn lemma_by_priority_keeps_pages(pages: Seq<PageDesc>, prio: Priorities)
    ensures
        by_priority(pages, prio).to_multiset() == pages.to_multiset(),
        by_priority(pages, prio).len() == pages.len(),
{
    broadcast use vstd::seq_lib::group_to_multiset_ensures;

    lemma_from_level_keeps_pages(pages, prio, 255);
    lemma_filter_by_all_or_none(pages, up_to_level(prio, 255), true);
    assert(by_priority(pages, prio).len() == by_priority(pages, prio).to_multiset().len());
    assert(pages.len() == pages.to_multiset().len());
}

fn page_priority_exec(prot: u32, prio: &Priorities) -> (p: u8)
    ensures
        p == page_priority(prot, *prio),
{
    if is_exec_prot_exec(prot) {
        prio.execute
    } else if is_write_prot_exec(prot) {
        prio.write
    } else {
        prio.read
    }
}

proof fn lemma_no_page_at_level(pages: Seq<PageDesc>, prio: Priorities, level: int)
    requires
        level != prio.execute,
        level != prio.write,
        level != prio.read,
    ensures
        pages.filter(at_level(prio, level)) == Seq::<PageDesc>::empty(),
    decreases pages.len(),
{
    reveal(Seq::filter);
    if pages.len() == 0 {
        assert(pages =~= Seq::<PageDesc>::empty());
    } else {
        lemma_no_page_at_level(pages.drop_last(), prio, level);
        assert(!at_level(prio, level)(pages.last()));
    }
}

/// The pages in scanning order: executable pages before writable ones
/// before the rest as the configured priorities rank them, the higher
/// priority first, pages of equal priority in the order they came.
pub fn order_by_priority(pages: Vec<PageDesc>, prio: &Priorities) -> (out: Vec<PageDesc>)
    ensures
        out@ == by_priority(pages@, *prio),
{
    let mut out: Vec<PageDesc> = Vec::new();
    let mut level: u16 = 256;
    while level > 0
        invariant
            level <= 256,
            out@ + from_level(pages@, *prio, level - 1) == by_priority(pages@, *prio),
        decreases level,
    {
        level = level - 1;
        let lv: u8 = level as u8;
        let ghost before = out@;
        let ghost keep = at_level(*prio, level as int);
        if lv == prio.execute || lv == prio.write || lv == prio.read {
            let mut i: usize = 0;
            assert(pages@.take(0) =~= Seq::<PageDesc>::empty());
            assert(pages@.take(0).filter(keep) =~= Seq::<PageDesc>::empty()) by {
                reveal(Seq::filter);
            }
            while i < pages.len()
                invariant
                    i <= pages.len(),
                    lv == level,
                    keep == at_level(*prio, level as int),
                    out@ == before + pages@.take(i as int).filter(keep),
                decreases pages.len() - i,
            {
                assert(pages@.take(i + 1) =~= pages@.take(i as int).push(pages@[i as int]));
                proof {
                    pages@.take(i as int).lemma_filter_push(pages@[i as int], keep);
                }
                assert(keep(pages@[i as int]) == (page_priority(pages@[i as int].prot, *prio)
                    == level));
                if page_priority_exec(pages[i].prot, prio) == lv {
                    out.push(pages[i].clone());
                    assert(out@ =~= before + pages@.take(i + 1).filter(keep));
                } else {
                    assert(out@ =~= before + pages@.take(i + 1).filter(keep));
                }
                i = i + 1;
            }
            assert(pages@.take(pages.len() as int) =~= pages@);
        } else {
            proof {
                lemma_no_page_at_level(pages@, *prio, level as int);
            }
        }
        assert(out@ + from_level(pages@, *prio, level - 1) =~= before + from_level(
            pages@,
            *prio,
            level as int,
        ));
    }
    assert(out@ + from_level(pages@, *prio, -1) =~= out@);
    out
}

/// Which regions are scanned, in the values of the Windows API: a committed
/// region (state `0x1000`) is scanned when its protection lets it execute
/// (`0x10`, `0x20`, `0x40`, `0x80`) or be written (`0x04`, `0x08`), or when
/// it is an image (`0x100_0000`) or a mapped section (`0x4_0000`); no other
/// region is.
pub proof fn lemma_scanned_regions(state: u32, prot: u32, mem_type: u32)
    ensures
        worth_scanning(state, prot, mem_type) <==> {
            &&& state == 0x1000
            &&& {
                ||| prot == 0x10
                ||| prot == 0x20
                ||| prot == 0x40
                ||| prot == 0x80
                ||| prot == 0x04
                ||| prot == 0x08
                ||| mem_type == 0x100_0000
                ||| mem_type == 0x4_0000
            }
        },
{
}

/// The priority of a page by its protection, in the values of the Windows
/// API: a page that can execute (`0x10`, `0x20`, `0x40`, `0x80`) has the
/// execute priority, one that can only be written to besides being read
/// (`0x04`, `0x08`) the write priority, any other the read priority.
pub proof fn lemma_priority_by_protection(prot: u32, prio: Priorities)
    ensures
        prot == 0x10 || prot == 0x20 || prot == 0x40 || prot == 0x80 ==> page_priority(prot, prio)
            == prio.execute,
        prot == 0x04 || prot == 0x08 ==> page_priority(prot, prio) == prio.write,
        !(prot == 0x10 || prot == 0x20 || prot == 0x40 || prot == 0x80 || prot == 0x04 || prot
            == 0x08) ==> page_priority(prot, prio) == prio.read,
{
}

/// When executable pages rank above writable ones, every executable page
/// is scanned before every page that can only be written.
pub proof fn lemma_exec_pages_first(pages: Seq<PageDesc>, prio: Priorities, i: int, j: int)
    requires
        prio.execute > prio.write,
        0 <= i < by_priority(pages, prio).len(),
        0 <= j < by_priority(pages, prio).len(),
        ({
            let p = by_priority(pages, prio)[i].prot;
            p == 0x10 || p == 0x20 || p == 0x40 || p == 0x80
        }),
        ({
            let p = by_priority(pages, prio)[j].prot;
            p == 0x04 || p == 0x08
        }),
    ensures
        i < j,
{
    let out = by_priority(pages, prio);
    lemma_by_priority_ordered(pages, prio);
    lemma_priority_by_protection(out[i].prot, prio);
    lemma_priority_by_protection(out[j].prot, prio);
    if j < i {
        assert(page_priority(out[j].prot, prio) >= page_priority(out[i].prot, prio));
    }
}

/// The pages of a region tile it: each page starts where the one before it
/// ends, the first at the region's base and the last ending with the region,
/// and every page holds `page_bytes` but the last, which holds what is left.
pub proof fn lemma_region_pages_tile(pages: Seq<PageDesc>, base: usize, size: usize, page_bytes: usize)
    requires
        page_bytes > 0,
        base + size <= usize::MAX,
        covers(pages.len(), size as nat, page_bytes as nat),
        forall|i: int| 0 <= i < pages.len() ==> is_region_page(#[trigger] pages[i], i, base, size, page_bytes),
    ensures
        pages.len() > 0 ==> pages[0].base == base,
        forall|i: int|
            0 <= i < pages.len() - 1 ==> #[trigger] pages[i].base + pages[i].size == pages[i + 1].base
                && pages[i].size == page_bytes,
        pages.len() > 0 ==> pages[pages.len() - 1].base + pages[pages.len() - 1].size == base + size,
{
    let n = pages.len() as int;
    let pb = page_bytes as int;
    let sz = size as int;
    if n > 0 {
        assert(0 * pb == 0) by (nonlinear_arith);
        assert forall|i: int| 0 <= i < n - 1 implies #[trigger] pages[i].base + pages[i].size == pages[i
            + 1].base && pages[i].size == page_bytes by {
            assert(is_region_page(pages[i], i, base, size, page_bytes));
            assert(is_region_page(pages[i + 1], i + 1, base, size, page_bytes));
            assert((i + 1) * pb <= (n - 1) * pb) by (nonlinear_arith)
                requires
                    i + 1 <= n - 1,
                    pb > 0,
            ;
            assert((i + 1) * pb == i * pb + pb) by (nonlinear_arith);
        }
        let last = n - 1;
        assert(is_region_page(pages[last], last, base, size, page_bytes));
        assert(n * pb == last * pb + pb) by (nonlinear_arith)
            requires
                last == n - 1,
        ;
    }
}

// ---------------------------------------------------------------------------
// One page scan
// ---------------------------------------------------------------------------

/// After `elapsed_ns` nanoseconds a limit of `limit_ms` milliseconds is
/// used up: a process scan stops at its budget, and a `yara` run is killed at
/// its timeout.
pub fn limit_reached(elapsed_ns: u128, limit_ms: u64) -> (reached: bool)
    ensures
        reached == (elapsed_ns >= limit_ms as int * 1_000_000),
{
    elapsed_ns >= limit_ms as u128 * 1_000_000
}

/// How many pages have been handled: scanned or skipped.
pub open spec fn pages_handled(r: Registry) -> int {
    r.pages_scanned + r.pages_skipped_cache
}

/// Decides whether a process scan stops before its next page: it stops once
/// `elapsed_ns` nanoseconds have used up the budget of `proc_budget_ms`
/// milliseconds, and the stop is counted.
pub fn budget_step(reg: &mut Registry, elapsed_ns: u128, proc_budget_ms: u64) -> (stop: bool)
    requires
        old(reg).process_budget_exceeded < u64::MAX,
    ensures
        stop == (elapsed_ns >= proc_budget_ms as int * 1_000_000),
        stop ==> *final(reg) == (Registry {
            process_budget_exceeded: (old(reg).process_budget_exceeded + 1) as u64,
            ..*old(reg)
        }),
        !stop ==> *final(reg) == *old(reg),
{
    let stop = limit_reached(elapsed_ns, proc_budget_ms);
    if stop {
        reg.inc_process_budget_exceeded();
    }
    stop
}

/// What becomes of one page of a live process scan.
#[derive(Debug)]
pub enum PageStep {
    /// The page could not be read; nothing is counted.
    Unread,
    /// The page holds what it held less than the TTL ago; it is counted as
    /// skipped.
    Skipped,
    /// The page is to be scanned with these bytes; it is counted as scanned.
    Scan(Vec<u8>),
}

/// A readable page with `bytes` at `key`, checked against the cache at time
/// `now`: the cache moves from `before` to `after`, the counters from
/// `reg_before` to `reg_after`, and the page comes out as `step`.
pub open spec fn live_page_step(
    before: Map<DigestKey, PageCacheEntry>,
    after: Map<DigestKey, PageCacheEntry>,
    key: DigestKey,
    bytes: Seq<u8>,
    now: u128,
    ttl_ms: u64,
    reg_before: Registry,
    reg_after: Registry,
    step: PageStep,
) -> bool {
    &&& after == after_check(before, key, crc32_of(bytes), now, ttl_ms)
    &&& if digest_hit(before, key, crc32_of(bytes), now, ttl_ms) {
        &&& step is Skipped
        &&& reg_after == Registry {
            pages_skipped_cache: (reg_before.pages_skipped_cache + 1) as u64,
            ..reg_before
        }
    } else {
        &&& step matches PageStep::Scan(v) && v@ == bytes
        &&& reg_after == Registry { pages_scanned: (reg_before.pages_scanned + 1) as u64, ..reg_before }
    }
}

/// Decides what becomes of `page` of `pid`, given what reading it gave: an
/// unreadable page is passed over; a readable one is checked against the
/// cache and either skipped or handed out for scanning, and counted as such.
/// Every readable page adds one to the pages handled, an unreadable one none.
pub fn page_step(
    cache: &mut PageCache,
    reg: &mut Registry,
    pid: u32,
    page: &PageDesc,
    read: Option<Vec<u8>>,
) -> (step: PageStep)
    requires
        old(reg).pages_skipped_cache < u64::MAX,
        old(reg).pages_scanned < u64::MAX,
    ensures
        final(cache).ttl() == old(cache).ttl(),
        read is None ==> {
            &&& step is Unread
            &&& *final(reg) == *old(reg)
            &&& final(cache).entries() == old(cache).entries()
        },
        read matches Some(b) ==> exists|now: u128|
            #[trigger] live_page_step(
                old(cache).entries(),
                final(cache).entries(),
                (pid, page.base),
                b@,
                now,
                old(cache).ttl(),
                *old(reg),
                *final(reg),
                step,
            ),
        pages_handled(*final(reg)) == pages_handled(*old(reg)) + if read is Some {
            1int
        } else {
            0int
        },
{
    match read {
        None => PageStep::Unread,
        Some(buf) => {
            let ghost before = cache.entries();
            let ghost reg_before = *reg;
            let hit = cache.check(pid, page.base, buf.as_slice());
            let ghost now = choose|now: u128|
                {
                    &&& hit == digest_hit(
                        before,
                        (pid, page.base),
                        crc32_of(buf@),
                        now,
                        cache.ttl(),
                    )
                    &&& cache.entries() == after_check(
                        before,
                        (pid, page.base),
                        crc32_of(buf@),
                        now,
                        cache.ttl(),
                    )
                };
            let ghost data = buf@;
            if hit {
                reg.inc_skipped();
                let step = PageStep::Skipped;
                assert(live_page_step(
                    before,
                    cache.entries(),
                    (pid, page.base),
                    data,
                    now,
                    cache.ttl(),
                    reg_before,
                    *reg,
                    step,
                ));
                step
            } else {
                reg.inc_scanned();
                let step = PageStep::Scan(buf);
                assert(live_page_step(
                    before,
                    cache.entries(),
                    (pid, page.base),
                    data,
                    now,
                    cache.ttl(),
                    reg_before,
                    *reg,
                    step,
                ));
                step
            }
        },
    }
}

/// The message of a finding on a live page:
/// `match {rule} at 0x{base:x} {kind} {prot}`.
pub open spec fn page_match_message(rule: Seq<char>, page: PageDesc) -> Seq<char> {
    match_message(rule, page.base) + " "@ + page.kind@ + " "@ + page.prot_text@
}

/// `f` reports `rule` on `page` of `pid`, with severity `high`.
pub open spec fn is_page_finding(f: Finding, pid: u32, page: PageDesc, rule: Seq<char>) -> bool {
    &&& f.pid == pid
    &&& f.base == page.base
    &&& f.size == page.size
    &&& f.rule@ == rule
    &&& f.severity@ == high_severity()
    &&& f.message@ == page_match_message(rule, page)
}

/// Books the outcome of scanning `page` of `pid`: each matched rule becomes
/// a finding appended to `out`, in order; a failed scan counts as a page
/// scan error and adds nothing.
pub fn record_scan_result(
    reg: &mut Registry,
    out: &mut Vec<Finding>,
    pid: u32,
    page: &PageDesc,
    result: Result<Vec<String>, ScanError>,
)
    requires
        result is Err ==> old(reg).page_scan_errors < u64::MAX,
    ensures
        match result {
            Ok(hits) => {
                &&& *final(reg) == *old(reg)
                &&& final(out).len() == old(out).len() + hits.len()
                &&& forall|i: int| 0 <= i < old(out).len() ==> #[trigger] final(out)[i] == old(out)[i]
                &&& forall|i: int|
                    0 <= i < hits.len() ==> is_page_finding(
                        #[trigger] final(out)[old(out).len() + i],
                        pid,
                        *page,
                        hits[i]@,
                    )
            },
            Err(_) => {
                &&& *final(reg) == (Registry {
                    page_scan_errors: (old(reg).page_scan_errors + 1) as u64,
                    ..*old(reg)
                })
                &&& *final(out) == *old(out)
            },
        },
{
    match result {
        Ok(hits) => {
            let mut i: usize = 0;
            while i < hits.len()
                invariant
                    i <= hits.len(),
                    out.len() == old(out).len() + i,
                    *reg == *old(reg),
                    forall|q: int| 0 <= q < old(out).len() ==> #[trigger] out[q] == old(out)[q],
                    forall|q: int|
                        0 <= q < i ==> is_page_finding(
                            #[trigger] out[old(out).len() + q],
                            pid,
                            *page,
                            hits[q]@,
                        ),
                decreases hits.len() - i,
            {
                let rule = hits[i].clone();
                let mut message = match_message_text(rule.as_str(), page.base);
                push_text(&mut message, " ");
                push_text(&mut message, page.kind.as_str());
                push_text(&mut message, " ");
                push_text(&mut message, page.prot_text.as_str());
                let f = new_finding(pid, page.base, page.size, rule, message);
                out.push(f);
                assert(out[old(out).len() + i as int] == f);
                i = i + 1;
            }
        },
        Err(_) => {
            reg.inc_page_scan_errors();
        },
    }
}

} // verus!
