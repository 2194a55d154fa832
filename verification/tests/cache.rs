use yara_on_map::pager::PageCache;

#[test]
fn cache_tracks_page_digest_until_ttl() {
    let mut cache = PageCache::new(10_000);
    let pid = 1234;
    let base = 0x1000;

    assert!(!cache.check(pid, base, b"abc"));
    assert!(cache.check(pid, base, b"abc"));
    assert!(!cache.check(pid, base, b"abd"));
}

#[test]
fn cache_ttl_and_crc() {
    let mut c = PageCache::new(10_000);
    let pid = 1234u32;
    let base = 0x1000u64;
    assert_eq!(c.check(pid, base, b"abc"), false);
    assert_eq!(c.check(pid, base, b"abc"), true);
    assert_eq!(c.check(pid, base, b"abd"), false);
}

#[test]
fn digest_expires_after_ttl() {
    let mut c = PageCache::new(1);
    assert!(!c.check_digest(1, 0x1000, 7, 0));
    assert!(c.check_digest(1, 0x1000, 7, 999_999));
    assert!(!c.check_digest(1, 0x1000, 7, 1_000_000));
    // the miss recorded the page again at 1 ms
    assert!(c.check_digest(1, 0x1000, 7, 1_500_000));
}

#[test]
fn digest_is_kept_per_process_and_base() {
    let mut c = PageCache::new(60_000);
    assert!(!c.check_digest(1, 0x1000, 7, 0));
    assert!(!c.check_digest(2, 0x1000, 7, 0));
    assert!(!c.check_digest(1, 0x2000, 7, 0));
    assert!(c.check_digest(1, 0x1000, 7, 10));
    assert!(c.check_digest(2, 0x1000, 7, 10));
}

#[test]
fn a_hit_keeps_the_old_timestamp() {
    let mut c = PageCache::new(1);
    assert!(!c.check_digest(9, 0, 5, 0));
    assert!(c.check_digest(9, 0, 5, 900_000));
    // the hit did not refresh the entry recorded at 0
    assert!(!c.check_digest(9, 0, 5, 1_200_000));
}

#[test]
fn a_clock_reading_before_the_entry_counts_as_no_time() {
    let mut c = PageCache::new(1);
    assert!(!c.check_digest(3, 0, 5, 5_000_000));
    assert!(c.check_digest(3, 0, 5, 10));
}

#[test]
fn a_changed_page_is_recorded_again() {
    let mut c = PageCache::new(60_000);
    assert!(!c.check(1, 0, b"first"));
    assert!(!c.check(1, 0, b"second"));
    assert!(c.check(1, 0, b"second"));
    assert!(!c.check(1, 0, b"first"));
}

#[test]
fn hits_do_not_refresh_the_digest_time() {
    let mut c = PageCache::new(1);
    assert!(!c.check_digest(7, 0x1000, 0xabcd, 0));
    assert!(c.check_digest(7, 0x1000, 0xabcd, 400_000));
    assert!(c.check_digest(7, 0x1000, 0xabcd, 800_000));
    assert!(c.check_digest(7, 0x1000, 0xabcd, 999_999));
    assert!(!c.check_digest(7, 0x1000, 0xabcd, 1_000_000));
    assert!(c.check_digest(7, 0x1000, 0xabcd, 1_999_999));
}
