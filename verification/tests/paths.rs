use yara_on_map::paths::is_under_system_dir;

#[test]
fn system_directories_are_refused() {
    assert!(is_under_system_dir("C:\\Windows\\System32\\findings.jsonl"));
    assert!(is_under_system_dir("c:/windows/temp/out.jsonl"));
    assert!(is_under_system_dir("D:\\PROGRAM FILES\\yom\\out.jsonl"));
    assert!(is_under_system_dir("C:\\Program Files (x86)\\x.jsonl"));
    assert!(is_under_system_dir("\\Windows\\x.jsonl"));
    assert!(is_under_system_dir("C:\\Users\\..\\Windows\\x.jsonl"));
    assert!(is_under_system_dir("C:\\.\\\\Windows"));
    assert!(is_under_system_dir("C:\\..\\Windows\\x"));
}

#[test]
fn other_paths_are_allowed() {
    assert!(!is_under_system_dir("C:\\Users\\me\\findings.jsonl"));
    assert!(!is_under_system_dir("C:\\Windows.old\\x.jsonl"));
    assert!(!is_under_system_dir("C:\\Windows\\..\\out.jsonl"));
    assert!(!is_under_system_dir("out\\Windows\\x.jsonl"));
    assert!(!is_under_system_dir("/tmp/yom/findings.jsonl"));
    assert!(!is_under_system_dir("C:"));
    assert!(!is_under_system_dir(""));
}
