use std::path::PathBuf;
use yara_on_map::engine::{interpret_exit, rule_names, ScanError, YaraExternal};

#[test]
fn engine_keeps_its_settings() {
    let e = YaraExternal::new("yara64.exe".to_string(), PathBuf::from("rules/mz.yar"), 500)
        .expect("engine");
    assert_eq!(e.exe(), "yara64.exe");
    assert_eq!(e.rules(), &PathBuf::from("rules/mz.yar"));
    assert_eq!(e.timeout_ms(), 500);
}

#[test]
fn first_word_of_each_line() {
    let out = "mz_header 0x0:$mz: 4D 5A\n\n   pe_rule  extra\r\nlast";
    assert_eq!(rule_names(out), vec!["mz_header", "pe_rule", "last"]);
    assert!(rule_names("").is_empty());
    assert!(rule_names("\n \n\t\n").is_empty());
    assert_eq!(rule_names("a\r\n"), vec!["a"]);
}

#[test]
fn failed_run_with_error_text_is_an_error() {
    let r = interpret_exit(false, "  \n", "  ERROR: could not open file\n");
    match r {
        Err(ScanError::Failed(t)) => assert_eq!(t, "ERROR: could not open file"),
        other => panic!("unexpected {:?}", other),
    }
    let r = interpret_exit(false, "", "No Rules loaded");
    assert!(matches!(r, Err(ScanError::Failed(_))));
    assert_eq!(r.unwrap_err().message(), "yara failed: No Rules loaded");
}

#[test]
fn failed_run_without_error_text_has_no_hits() {
    assert_eq!(interpret_exit(false, "", "warning only").unwrap(), Vec::<String>::new());
}

#[test]
fn failed_run_with_output_still_reports_hits() {
    assert_eq!(interpret_exit(false, "rule_a f\n", "error").unwrap(), vec!["rule_a"]);
}

#[test]
fn successful_run_reports_hits() {
    assert_eq!(interpret_exit(true, "x y\nz\n", "error").unwrap(), vec!["x", "z"]);
}

#[test]
fn scan_error_messages() {
    assert_eq!(ScanError::Timeout.message(), "yara timeout");
    assert_eq!(ScanError::Io("disk full".to_string()).message(), "disk full");
}

#[test]
fn string_match_lines_are_not_rules() {
    assert_eq!(rule_names("r f\n0x0:$mz: 4D\n"), vec!["r"]);
    let out = "mz_header page.bin\n0x0:$mz: 4D 5A\n0x1a0:$pe: 50 45 00 00\npe_rule page.bin\n0xff:$s1: 41\n";
    assert_eq!(rule_names(out), vec!["mz_header", "pe_rule"]);
    assert_eq!(interpret_exit(true, out, "").unwrap(), vec!["mz_header", "pe_rule"]);
    // Words that only look alike are rule names.
    assert_eq!(rule_names("0x:$a: 1\n0x1:a\n0x1$a\n0xg:$a\n"), vec!["0x:$a:", "0x1:a", "0x1$a", "0xg:$a"]);
    assert!(rule_names("0x1:$: 41\n").is_empty());
}
