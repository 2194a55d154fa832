//! Counters of the scanner and their Prometheus text rendering, and the
//! answers of the metrics endpoint.

use vstd::prelude::*;
use crate::text::{dec, push_dec, push_text, same_text, text_of};

verus! {

/// The scanner's counters. Each one only grows, by one per event.
#[derive(Clone, Copy, Debug, PartialEq, Eq)]
pub struct Registry {
    pub pages_scanned: u64,
    pub pages_skipped_cache: u64,
    pub page_scan_errors: u64,
    pub process_scan_errors: u64,
    pub process_budget_exceeded: u64,
    pub findings: u64,
    pub quarantined_pages: u64,
}

/// All counters are zero.
pub open spec fn all_zero(r: Registry) -> bool {
    &&& r.pages_scanned == 0
    &&& r.pages_skipped_cache == 0
    &&& r.page_scan_errors == 0
    &&& r.process_scan_errors == 0
    &&& r.process_budget_exceeded == 0
    &&& r.findings == 0
    &&& r.quarantined_pages == 0
}

impl Default for Registry {
    fn default() -> (r: Self)
        ensures
            all_zero(r),
    {
        Registry {
            pages_scanned: 0,
            pages_skipped_cache: 0,
            page_scan_errors: 0,
            process_scan_errors: 0,
            process_budget_exceeded: 0,
            findings: 0,
            quarantined_pages: 0,
        }
    }
}

/// The seven counters, one kind of event each.
#[derive(Clone, Copy, Debug, PartialEq, Eq)]
pub enum CounterKind {
    Scanned,
    Skipped,
    PageScanError,
    ProcessScanError,
    BudgetExceeded,
    Finding,
    Quarantined,
}

/// The counter of `r` that counts events of kind `k`.
pub open spec fn counter(r: Registry, k: CounterKind) -> u64 {
    match k {
        CounterKind::Scanned => r.pages_scanned,
        CounterKind::Skipped => r.pages_skipped_cache,
        CounterKind::PageScanError => r.page_scan_errors,
        CounterKind::ProcessScanError => r.process_scan_errors,
        CounterKind::BudgetExceeded => r.process_budget_exceeded,
        CounterKind::Finding => r.findings,
        CounterKind::Quarantined => r.quarantined_pages,
    }
}

/// `r` after one event of kind `k`: its counter grows by one, the others
/// stay.
pub open spec fn bumped(r: Registry, k: CounterKind) -> Registry {
    match k {
        CounterKind::Scanned => Registry { pages_scanned: (r.pages_scanned + 1) as u64, ..r },
        CounterKind::Skipped => Registry {
            pages_skipped_cache: (r.pages_skipped_cache + 1) as u64,
            ..r
        },
        CounterKind::PageScanError => Registry {
            page_scan_errors: (r.page_scan_errors + 1) as u64,
            ..r
        },
        CounterKind::ProcessScanError => Registry {
            process_scan_errors: (r.process_scan_errors + 1) as u64,
            ..r
        },
        CounterKind::BudgetExceeded => Registry {
            process_budget_exceeded: (r.process_budget_exceeded + 1) as u64,
            ..r
        },
        CounterKind::Finding => Registry { findings: (r.findings + 1) as u64, ..r },
        CounterKind::Quarantined => Registry {
            quarantined_pages: (r.quarantined_pages + 1) as u64,
            ..r
        },
    }
}

/// `r` after the events `ks`, in order.
pub open spec fn after_events(r: Registry, ks: Seq<CounterKind>) -> Registry
    decreases ks.len(),
{
    if ks.len() == 0 {
        r
    } else {
        bumped(after_events(r, ks.drop_last()), ks.last())
    }
}

/// How many of the events `ks` are of kind `k`.
pub open spec fn count_of(ks: Seq<CounterKind>, k: CounterKind) -> nat
    decreases ks.len(),
{
    if ks.len() == 0 {
        0
    } else {
        count_of(ks.drop_last(), k) + if ks.last() == k {
            1nat
        } else {
            0nat
        }
    }
}

/// The registry whose counters hold how many of the events `ks` were theirs.
pub open spec fn counted(ks: Seq<CounterKind>) -> Registry {
    Registry {
        pages_scanned: count_of(ks, CounterKind::Scanned) as u64,
        pages_skipped_cache: count_of(ks, CounterKind::Skipped) as u64,
        page_scan_errors: count_of(ks, CounterKind::PageScanError) as u64,
        process_scan_errors: count_of(ks, CounterKind::ProcessScanError) as u64,
        process_budget_exceeded: count_of(ks, CounterKind::BudgetExceeded) as u64,
        findings: count_of(ks, CounterKind::Finding) as u64,
        quarantined_pages: count_of(ks, CounterKind::Quarantined) as u64,
    }
}

/// From a new registry, each counter holds how many of the events so far
/// were its own, and the exposition text shows exactly those numbers, in the
/// fixed order of the seven counters.
pub proof fn lemma_render_counts_events(r: Registry, ks: Seq<CounterKind>)
    requires
        all_zero(r),
        forall|k: CounterKind| count_of(ks, k) <= u64::MAX,
    ensures
        after_events(r, ks) == counted(ks),
        forall|k: CounterKind| #[trigger] counter(after_events(r, ks), k) == count_of(ks, k),
        rendered(after_events(r, ks)) == rendered(counted(ks)),
    decreases ks.len(),
{
    if ks.len() > 0 {
        let init = ks.drop_last();
        assert forall|k: CounterKind| count_of(init, k) <= u64::MAX by {
            assert(count_of(init, k) <= count_of(ks, k));
        }
        lemma_render_counts_events(r, init);
        assert(count_of(ks, ks.last()) <= u64::MAX);
    }
    assert forall|k: CounterKind| #[trigger] counter(after_events(r, ks), k) == count_of(ks, k) by {
        assert(count_of(ks, k) <= u64::MAX);
    }
}

/// One counter in the exposition format: its `# HELP` and `# TYPE` lines,
/// then `name value`.
pub open spec fn counter_block(header: Seq<char>, name: Seq<char>, value: u64) -> Seq<char> {
    header + name + " "@ + dec(value as nat) + "\n"@
}

pub open spec fn scanned_header() -> Seq<char> {
    "# HELP yom_pages_scanned_total Pages scanned\n# TYPE yom_pages_scanned_total counter\n"@
}

pub open spec fn skipped_header() -> Seq<char> {
    "# HELP yom_pages_skipped_cache_total Pages skipped due to cache\n# TYPE yom_pages_skipped_cache_total counter\n"@
}

pub open spec fn page_errors_header() -> Seq<char> {
    "# HELP yom_page_scan_errors_total Page-level scan errors\n# TYPE yom_page_scan_errors_total counter\n"@
}

pub open spec fn process_errors_header() -> Seq<char> {
    "# HELP yom_process_scan_errors_total Process-level scan errors\n# TYPE yom_process_scan_errors_total counter\n"@
}

pub open spec fn budget_header() -> Seq<char> {
    "# HELP yom_process_budget_exceeded_total Processes stopped after the configured budget\n# TYPE yom_process_budget_exceeded_total counter\n"@
}

pub open spec fn findings_header() -> Seq<char> {
    "# HELP yom_findings_total Findings\n# TYPE yom_findings_total counter\n"@
}

pub open spec fn quarantined_header() -> Seq<char> {
    "# HELP yom_quarantined_pages_total Pages quarantined\n# TYPE yom_quarantined_pages_total counter\n"@
}

/// The whole exposition text of `r`: the seven counters in a fixed order.
pub open spec fn rendered(r: Registry) -> Seq<char> {
    counter_block(scanned_header(), "yom_pages_scanned_total"@, r.pages_scanned)
        + counter_block(skipped_header(), "yom_pages_skipped_cache_total"@, r.pages_skipped_cache)
        + counter_block(page_errors_header(), "yom_page_scan_errors_total"@, r.page_scan_errors)
        + counter_block(
        process_errors_header(),
        "yom_process_scan_errors_total"@,
        r.process_scan_errors,
    ) + counter_block(
        budget_header(),
        "yom_process_budget_exceeded_total"@,
        r.process_budget_exceeded,
    ) + counter_block(findings_header(), "yom_findings_total"@, r.findings) + counter_block(
        quarantined_header(),
        "yom_quarantined_pages_total"@,
        r.quarantined_pages,
    )
}

fn push_counter(out: &mut String, header: &str, name: &str, value: u64)
    ensures
        final(out)@ == old(out)@ + counter_block(header@, name@, value),
{
    push_text(out, header);
    push_text(out, name);
    push_text(out, " ");
    push_dec(out, value);
    push_text(out, "\n");
    assert(out@ =~= old(out)@ + counter_block(header@, name@, value));
}

impl Registry {
    /// A registry with every counter at zero.
    pub fn new() -> (r: Self)
        ensures
            all_zero(r),
    {
        Self::default()
    }

    /// One more page went to the scanner.
    pub fn inc_scanned(&mut self)
        requires
            old(self).pages_scanned < u64::MAX,
        ensures
            *final(self) == (Registry { pages_scanned: (old(self).pages_scanned + 1) as u64, ..*old(self) }),
            *final(self) == bumped(*old(self), CounterKind::Scanned),
    {
        self.pages_scanned = self.pages_scanned + 1;
    }

    /// One more page was skipped because its digest was cached.
    pub fn inc_skipped(&mut self)
        requires
            old(self).pages_skipped_cache < u64::MAX,
        ensures
            *final(self) == (Registry {
                pages_skipped_cache: (old(self).pages_skipped_cache + 1) as u64,
                ..*old(self)
            }),
            *final(self) == bumped(*old(self), CounterKind::Skipped),
    {
        self.pages_skipped_cache = self.pages_skipped_cache + 1;
    }

    /// One more page could not be scanned.
    pub fn inc_page_scan_errors(&mut self)
        requires
            old(self).page_scan_errors < u64::MAX,
        ensures
            *final(self) == (Registry {
                page_scan_errors: (old(self).page_scan_errors + 1) as u64,
                ..*old(self)
            }),
            *final(self) == bumped(*old(self), CounterKind::PageScanError),
    {
        self.page_scan_errors = self.page_scan_errors + 1;
    }

    /// One more process could not be scanned.
    pub fn inc_process_scan_errors(&mut self)
        requires
            old(self).process_scan_errors < u64::MAX,
        ensures
            *final(self) == (Registry {
                process_scan_errors: (old(self).process_scan_errors + 1) as u64,
                ..*old(self)
            }),
            *final(self) == bumped(*old(self), CounterKind::ProcessScanError),
    {
        self.process_scan_errors = self.process_scan_errors + 1;
    }

    /// One more process scan stopped at its time budget.
    pub fn inc_process_budget_exceeded(&mut self)
        requires
            old(self).process_budget_exceeded < u64::MAX,
        ensures
            *final(self) == (Registry {
                process_budget_exceeded: (old(self).process_budget_exceeded + 1) as u64,
                ..*old(self)
            }),
            *final(self) == bumped(*old(self), CounterKind::BudgetExceeded),
    {
        self.process_budget_exceeded = self.process_budget_exceeded + 1;
    }

    /// One more pass produced findings.
    pub fn inc_findings(&mut self)
        requires
            old(self).findings < u64::MAX,
        ensures
            *final(self) == (Registry { findings: (old(self).findings + 1) as u64, ..*old(self) }),
            *final(self) == bumped(*old(self), CounterKind::Finding),
    {
        self.findings = self.findings + 1;
    }

    /// One more page was quarantined.
    pub fn inc_quarantined(&mut self)
        requires
            old(self).quarantined_pages < u64::MAX,
        ensures
            *final(self) == (Registry {
                quarantined_pages: (old(self).quarantined_pages + 1) as u64,
                ..*old(self)
            }),
            *final(self) == bumped(*old(self), CounterKind::Quarantined),
    {
        self.quarantined_pages = self.quarantined_pages + 1;
    }

    /// The counters in the Prometheus text exposition format.
    pub fn render(&self) -> (out: String)
        ensures
            out@ == rendered(*self),
    {
        let mut out = String::new();
        push_counter(
            &mut out,
            "# HELP yom_pages_scanned_total Pages scanned\n# TYPE yom_pages_scanned_total counter\n",
            "yom_pages_scanned_total",
            self.pages_scanned,
        );
        push_counter(
            &mut out,
            "# HELP yom_pages_skipped_cache_total Pages skipped due to cache\n# TYPE yom_pages_skipped_cache_total counter\n",
            "yom_pages_skipped_cache_total",
            self.pages_skipped_cache,
        );
        push_counter(
            &mut out,
            "# HELP yom_page_scan_errors_total Page-level scan errors\n# TYPE yom_page_scan_errors_total counter\n",
            "yom_page_scan_errors_total",
            self.page_scan_errors,
        );
        push_counter(
            &mut out,
            "# HELP yom_process_scan_errors_total Process-level scan errors\n# TYPE yom_process_scan_errors_total counter\n",
            "yom_process_scan_errors_total",
            self.process_scan_errors,
        );
        push_counter(
            &mut out,
            "# HELP yom_process_budget_exceeded_total Processes stopped after the configured budget\n# TYPE yom_process_budget_exceeded_total counter\n",
            "yom_process_budget_exceeded_total",
            self.process_budget_exceeded,
        );
        push_counter(
            &mut out,
            "# HELP yom_findings_total Findings\n# TYPE yom_findings_total counter\n",
            "yom_findings_total",
            self.findings,
        );
        push_counter(
            &mut out,
            "# HELP yom_quarantined_pages_total Pages quarantined\n# TYPE yom_quarantined_pages_total counter\n",
            "yom_quarantined_pages_total",
            self.quarantined_pages,
        );
        assert(out@ =~= rendered(*self));
        out
    }
}

/// An answer of the metrics endpoint.
#[derive(Clone, Debug)]
pub struct HttpReply {
    pub status: u16,
    pub body: String,
}

/// What the endpoint answers for `url`: the counters at `/metrics`, `ok` at
/// `/healthz`, and a 404 with a hint elsewhere.
pub open spec fn reply_for(url: Seq<char>, r: Registry) -> (u16, Seq<char>) {
    if url == "/metrics"@ {
        (200, rendered(r))
    } else if url == "/healthz"@ {
        (200, "ok"@)
    } else {
        (404, "use /metrics or /healthz"@)
    }
}

/// The answer of the metrics endpoint to a request for `url`.
pub fn http_response(url: &str, reg: &Registry) -> (reply: HttpReply)
    ensures
        (reply.status, reply.body@) == reply_for(url@, *reg),
{
    if same_text(url, "/metrics") {
        HttpReply { status: 200, body: reg.render() }
    } else if same_text(url, "/healthz") {
        HttpReply { status: 200, body: text_of("ok") }
    } else {
        HttpReply { status: 404, body: text_of("use /metrics or /healthz") }
    }
}

} // verus!
