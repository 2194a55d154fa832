use yara_on_map::metrics::{http_response, Registry};

#[test]
fn render_includes_runtime_error_counters() {
    let mut reg = Registry::new();
    reg.inc_page_scan_errors();
    reg.inc_process_scan_errors();
    reg.inc_process_budget_exceeded();

    let out = reg.render();

    assert!(out.contains("yom_page_scan_errors_total 1"));
    assert!(out.contains("yom_process_scan_errors_total 1"));
    assert!(out.contains("yom_process_budget_exceeded_total 1"));
}

#[test]
fn render_of_a_new_registry() {
    let out = Registry::new().render();
    let expected = "# HELP yom_pages_scanned_total Pages scanned\n# TYPE yom_pages_scanned_total counter\nyom_pages_scanned_total 0\n\
# HELP yom_pages_skipped_cache_total Pages skipped due to cache\n# TYPE yom_pages_skipped_cache_total counter\nyom_pages_skipped_cache_total 0\n\
# HELP yom_page_scan_errors_total Page-level scan errors\n# TYPE yom_page_scan_errors_total counter\nyom_page_scan_errors_total 0\n\
# HELP yom_process_scan_errors_total Process-level scan errors\n# TYPE yom_process_scan_errors_total counter\nyom_process_scan_errors_total 0\n\
# HELP yom_process_budget_exceeded_total Processes stopped after the configured budget\n# TYPE yom_process_budget_exceeded_total counter\nyom_process_budget_exceeded_total 0\n\
# HELP yom_findings_total Findings\n# TYPE yom_findings_total counter\nyom_findings_total 0\n\
# HELP yom_quarantined_pages_total Pages quarantined\n# TYPE yom_quarantined_pages_total counter\nyom_quarantined_pages_total 0\n";
    assert_eq!(out, expected);
}

#[test]
fn counters_count_one_each() {
    let mut reg = Registry::default();
    reg.inc_scanned();
    reg.inc_scanned();
    reg.inc_skipped();
    reg.inc_findings();
    reg.inc_quarantined();
    assert_eq!(reg.pages_scanned, 2);
    assert_eq!(reg.pages_skipped_cache, 1);
    assert_eq!(reg.findings, 1);
    assert_eq!(reg.quarantined_pages, 1);
    assert_eq!(reg.page_scan_errors, 0);
    let out = reg.render();
    assert!(out.contains("yom_pages_scanned_total 2\n"));
    assert!(out.contains("yom_pages_skipped_cache_total 1\n"));
    assert!(out.contains("yom_quarantined_pages_total 1\n"));
}

#[test]
fn large_counter_in_decimal() {
    let mut reg = Registry::new();
    reg.findings = 18_446_744_073_709_551_614;
    reg.inc_findings();
    assert!(reg.render().contains("yom_findings_total 18446744073709551615\n"));
}

#[test]
fn endpoint_answers() {
    let mut reg = Registry::new();
    reg.inc_scanned();
    let m = http_response("/metrics", &reg);
    assert_eq!(m.status, 200);
    assert_eq!(m.body, reg.render());
    let h = http_response("/healthz", &reg);
    assert_eq!(h.status, 200);
    assert_eq!(h.body, "ok");
    let x = http_response("/metrics/", &reg);
    assert_eq!(x.status, 404);
    assert_eq!(x.body, "use /metrics or /healthz");
}

#[test]
fn render_shows_how_many_increments_each_counter_had() {
    let mut reg = Registry::new();
    for _ in 0..3 {
        reg.inc_scanned();
    }
    reg.inc_skipped();
    reg.inc_skipped();
    reg.inc_page_scan_errors();
    reg.inc_process_budget_exceeded();
    for _ in 0..4 {
        reg.inc_findings();
    }
    reg.inc_quarantined();
    let expected = "# HELP yom_pages_scanned_total Pages scanned\n# TYPE yom_pages_scanned_total counter\nyom_pages_scanned_total 3\n\
# HELP yom_pages_skipped_cache_total Pages skipped due to cache\n# TYPE yom_pages_skipped_cache_total counter\nyom_pages_skipped_cache_total 2\n\
# HELP yom_page_scan_errors_total Page-level scan errors\n# TYPE yom_page_scan_errors_total counter\nyom_page_scan_errors_total 1\n\
# HELP yom_process_scan_errors_total Process-level scan errors\n# TYPE yom_process_scan_errors_total counter\nyom_process_scan_errors_total 0\n\
# HELP yom_process_budget_exceeded_total Processes stopped after the configured budget\n# TYPE yom_process_budget_exceeded_total counter\nyom_process_budget_exceeded_total 1\n\
# HELP yom_findings_total Findings\n# TYPE yom_findings_total counter\nyom_findings_total 4\n\
# HELP yom_quarantined_pages_total Pages quarantined\n# TYPE yom_quarantined_pages_total counter\nyom_quarantined_pages_total 1\n";
    assert_eq!(reg.render(), expected);
    assert_eq!(reg.render(), expected);
}
