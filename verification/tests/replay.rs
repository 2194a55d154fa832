use yara_on_map::cli::ReplayPid;
use yara_on_map::engine::ScanError;
use yara_on_map::replay::{ReplayError, ReplayFile, ReplayPage, ReplayRun, ReplayStep};

fn page(base: &str, data: &str) -> ReplayPage {
    ReplayPage { base: base.to_string(), data_hex: data.to_string() }
}

fn file(pages: Vec<ReplayPage>) -> ReplayFile {
    ReplayFile { pid: ReplayPid::Text("self".to_string()), pages }
}

#[test]
fn replay_scans_new_pages_and_skips_repeats() {
    let mut run = ReplayRun::start(
        file(vec![page("0x1000", "4D 5A 90 00"), page("4096", "4d5a9000"), page("0x2000", "00")]),
        77,
    )
    .expect("start");
    match run.next_page() {
        ReplayStep::Scan(base, bytes) => {
            assert_eq!(base, 0x1000);
            assert_eq!(bytes, vec![0x4d, 0x5a, 0x90, 0x00]);
        }
        other => panic!("unexpected {:?}", other),
    }
    assert!(run.awaiting_scan());
    run.record_scan(Ok(vec!["mz_header".to_string()])).expect("recorded");
    assert!(!run.awaiting_scan());
    assert!(matches!(run.next_page(), ReplayStep::Skip));
    match run.next_page() {
        ReplayStep::Scan(base, bytes) => {
            assert_eq!(base, 0x2000);
            assert_eq!(bytes, vec![0]);
        }
        other => panic!("unexpected {:?}", other),
    }
    run.record_scan(Ok(Vec::new())).expect("recorded");
    assert!(matches!(run.next_page(), ReplayStep::Finished));
    assert!(matches!(run.next_page(), ReplayStep::Finished));
    let findings = run.into_findings();
    assert_eq!(findings.len(), 1);
    assert_eq!(findings[0].pid, 77);
    assert_eq!(findings[0].base, 0x1000);
    assert_eq!(findings[0].size, 4);
    assert_eq!(findings[0].rule, "mz_header");
    assert_eq!(findings[0].severity, "high");
    assert_eq!(findings[0].message, "match mz_header at 0x1000");
}

#[test]
fn replay_stops_on_a_bad_base() {
    let mut run = ReplayRun::start(file(vec![page("0x1000", "00"), page("zz", "00")]), 1).unwrap();
    assert!(matches!(run.next_page(), ReplayStep::Scan(_, _)));
    run.record_scan(Ok(Vec::new())).unwrap();
    match run.next_page() {
        ReplayStep::Failed(e) => assert_eq!(e.message(), "invalid base on replay page 2"),
        other => panic!("unexpected {:?}", other),
    }
}

#[test]
fn replay_stops_on_bad_data() {
    let mut run = ReplayRun::start(file(vec![page("0x10", "abc")]), 1).unwrap();
    match run.next_page() {
        ReplayStep::Failed(e) => {
            assert!(matches!(e, ReplayError::Data(1)));
            assert_eq!(e.message(), "invalid data on replay page 1");
        }
        other => panic!("unexpected {:?}", other),
    }
}

#[test]
fn replay_stops_on_a_failed_scan() {
    let mut run = ReplayRun::start(file(vec![page("0xab", "00")]), 1).unwrap();
    assert!(matches!(run.next_page(), ReplayStep::Scan(0xab, _)));
    let err = run.record_scan(Err(ScanError::Timeout)).unwrap_err();
    assert_eq!(err.message(), "YARA scan failed for replay page 0xab");
    assert!(run.into_findings().is_empty());
}

#[test]
fn replay_pid_must_resolve() {
    let bad = ReplayFile { pid: ReplayPid::Text("me".to_string()), pages: vec![page("1", "00")] };
    let err = ReplayRun::start(bad, 1).err().expect("refused");
    assert_eq!(err.message(), "invalid PID `me`");
    let big = ReplayFile { pid: ReplayPid::Number(1 << 40), pages: vec![] };
    assert!(matches!(ReplayRun::start(big, 1), Err(ReplayError::Pid(_))));
}

#[test]
fn replay_file_without_pages_is_refused() {
    assert!(!file(Vec::new()).has_pages());
    assert!(file(vec![page("0x1000", "4d5a")]).has_pages());
}
