use yara_on_map::config::Priorities;
use yara_on_map::engine::ScanError;
use yara_on_map::metrics::Registry;
use yara_on_map::pager::{
    budget_step, limit_reached, kind_text, order_by_priority, page_step, prot_text, record_scan_result, region_pages,
    PageCache, PageDesc, PageStep, MEM_COMMIT, MEM_IMAGE, MEM_MAPPED, PAGE_EXECUTE_READ, PAGE_READWRITE,
};
use yara_on_map::types::Finding;

#[test]
fn region_is_cut_into_pages() {
    let pages = region_pages(0x10000, 0x25000, MEM_COMMIT, PAGE_EXECUTE_READ, MEM_IMAGE, 0x10000);
    assert_eq!(pages.len(), 3);
    assert_eq!(pages[0].base, 0x10000);
    assert_eq!(pages[0].size, 0x10000);
    assert_eq!(pages[1].base, 0x20000);
    assert_eq!(pages[2].base, 0x30000);
    assert_eq!(pages[2].size, 0x5000);
    assert_eq!(pages[2].kind, "IMAGE");
    assert_eq!(pages[2].prot_text, "PAGE_PROTECTION_FLAGS(32)");
    assert_eq!(pages[2].prot, 0x20);
}

#[test]
fn region_of_whole_pages() {
    let pages = region_pages(0, 0x2000, MEM_COMMIT, PAGE_READWRITE, MEM_MAPPED, 0x1000);
    assert_eq!(pages.len(), 2);
    assert_eq!(pages[1].size, 0x1000);
    assert_eq!(pages[1].kind, "MAPPED");
}

#[test]
fn read_only_private_and_empty_regions_have_no_pages() {
    assert!(region_pages(0x1000, 0x1000, MEM_COMMIT, 0x02, 0x20000, 0x1000).is_empty());
    assert!(region_pages(0x1000, 0, MEM_COMMIT, PAGE_READWRITE, MEM_IMAGE, 0x1000).is_empty());
}

#[test]
fn read_only_image_and_section_regions_are_scanned() {
    let image = region_pages(0x1000, 0x1800, MEM_COMMIT, 0x02, MEM_IMAGE, 0x1000);
    assert_eq!(image.len(), 2);
    assert_eq!(image[1].base, 0x2000);
    assert_eq!(image[1].size, 0x800);
    assert_eq!(image[0].kind, "IMAGE");
    assert_eq!(image[0].prot_text, "PAGE_PROTECTION_FLAGS(2)");
    let section = region_pages(0x1000, 0x1000, MEM_COMMIT, 0x02, MEM_MAPPED, 0x1000);
    assert_eq!(section.len(), 1);
    assert_eq!(section[0].kind, "MAPPED");
}

#[test]
fn budget_stops_and_is_counted_once() {
    let mut reg = Registry::new();
    assert!(!budget_step(&mut reg, 4_999_999, 5));
    assert_eq!(reg, Registry::new());
    assert!(budget_step(&mut reg, 5_000_000, 5));
    assert_eq!(reg.process_budget_exceeded, 1);
    assert_eq!(reg.pages_scanned, 0);
}

#[test]
fn page_steps_scan_then_skip() {
    let mut cache = PageCache::new(60_000);
    let mut reg = Registry::new();
    let p = page();
    match page_step(&mut cache, &mut reg, 42, &p, Some(b"MZ\x90".to_vec())) {
        PageStep::Scan(bytes) => assert_eq!(bytes, b"MZ\x90".to_vec()),
        other => panic!("expected a scan, got {:?}", other),
    }
    assert_eq!(reg.pages_scanned, 1);
    assert_eq!(reg.pages_skipped_cache, 0);
    assert!(matches!(page_step(&mut cache, &mut reg, 42, &p, Some(b"MZ\x90".to_vec())), PageStep::Skipped));
    assert_eq!(reg.pages_scanned, 1);
    assert_eq!(reg.pages_skipped_cache, 1);
    assert!(matches!(page_step(&mut cache, &mut reg, 42, &p, None), PageStep::Unread));
    assert_eq!(reg.pages_scanned, 1);
    assert_eq!(reg.pages_skipped_cache, 1);
    assert!(matches!(page_step(&mut cache, &mut reg, 42, &p, Some(b"MZ\x91".to_vec())), PageStep::Scan(_)));
    assert!(matches!(page_step(&mut cache, &mut reg, 43, &p, Some(b"MZ\x91".to_vec())), PageStep::Scan(_)));
    assert_eq!(reg.pages_scanned, 3);
    assert_eq!(reg.pages_skipped_cache, 1);
    assert_eq!(reg.page_scan_errors, 0);
}

#[test]
fn kinds_and_protections() {
    assert_eq!(kind_text(0x20000), "PRIVATE");
    assert_eq!(kind_text(MEM_IMAGE), "IMAGE");
    assert_eq!(prot_text(0x40), "PAGE_PROTECTION_FLAGS(64)");
    assert_eq!(prot_text(0), "PAGE_PROTECTION_FLAGS(0)");
}

#[test]
fn limits_in_milliseconds() {
    assert!(!limit_reached(4_999_999, 5));
    assert!(limit_reached(5_000_000, 5));
    assert!(limit_reached(0, 0));
    assert!(!limit_reached(0, u64::MAX));
    assert!(limit_reached(u128::MAX, u64::MAX));
}

fn page() -> PageDesc {
    PageDesc {
        base: 0x7ff6_1234_0000,
        size: 4096,
        prot: 0x20,
        prot_text: "PAGE_PROTECTION_FLAGS(32)".to_string(),
        kind: "IMAGE".to_string(),
    }
}

#[test]
fn hits_become_findings() {
    let mut reg = Registry::new();
    let mut out: Vec<Finding> = Vec::new();
    record_scan_result(&mut reg, &mut out, 42, &page(), Ok(vec!["mz_header".to_string(), "pe".to_string()]));
    assert_eq!(out.len(), 2);
    assert_eq!(out[0].pid, 42);
    assert_eq!(out[0].base, 0x7ff6_1234_0000);
    assert_eq!(out[0].size, 4096);
    assert_eq!(out[0].rule, "mz_header");
    assert_eq!(out[0].severity, "high");
    assert_eq!(
        out[0].message,
        "match mz_header at 0x7ff612340000 IMAGE PAGE_PROTECTION_FLAGS(32)"
    );
    assert_eq!(out[1].rule, "pe");
    assert_eq!(reg, Registry::new());
}

#[test]
fn failed_scans_are_counted() {
    let mut reg = Registry::new();
    let mut out: Vec<Finding> = Vec::new();
    record_scan_result(&mut reg, &mut out, 42, &page(), Err(ScanError::Timeout));
    assert!(out.is_empty());
    assert_eq!(reg.page_scan_errors, 1);
    record_scan_result(&mut reg, &mut out, 42, &page(), Ok(Vec::new()));
    assert!(out.is_empty());
    assert_eq!(reg.page_scan_errors, 1);
}

#[test]
fn uncommitted_regions_have_no_pages() {
    assert!(region_pages(0x1000, 0x2000, 0x2000, PAGE_EXECUTE_READ, MEM_IMAGE, 0x1000).is_empty());
    assert!(region_pages(0x1000, 0x2000, 0x10000, PAGE_READWRITE, MEM_MAPPED, 0x1000).is_empty());
}

fn page_at(base: u64, prot: u32) -> PageDesc {
    PageDesc { base, size: 4096, prot, prot_text: String::new(), kind: "PRIVATE".to_string() }
}

#[test]
fn pages_are_ordered_by_priority() {
    let pages = vec![
        page_at(1, 0x02),
        page_at(2, PAGE_READWRITE),
        page_at(3, PAGE_EXECUTE_READ),
        page_at(4, 0x02),
        page_at(5, 0x40),
        page_at(6, 0x08),
    ];
    let bases = |v: Vec<PageDesc>| v.iter().map(|p| p.base).collect::<Vec<u64>>();
    let shipped = Priorities { execute: 10, write: 5, read: 1 };
    assert_eq!(bases(order_by_priority(pages.clone(), &shipped)), vec![3, 5, 2, 6, 1, 4]);
    let reversed = Priorities { execute: 0, write: 5, read: 10 };
    assert_eq!(bases(order_by_priority(pages.clone(), &reversed)), vec![1, 4, 2, 6, 3, 5]);
    let equal = Priorities { execute: 7, write: 7, read: 7 };
    assert_eq!(bases(order_by_priority(pages.clone(), &equal)), vec![1, 2, 3, 4, 5, 6]);
    let mixed = Priorities { execute: 3, write: 9, read: 3 };
    assert_eq!(bases(order_by_priority(pages, &mixed)), vec![2, 6, 1, 3, 4, 5]);
    assert!(order_by_priority(Vec::new(), &shipped).is_empty());
}
