use yara_on_map::text::{
    contains_ignore_ascii_case_text, eq_ignore_ascii_case_text, parse_u32_text, parse_u64_radix,
    parse_u64_text, push_dec, push_hex, same_text, split_text, trim_text,
};

#[test]
fn trimming_is_unicode_white_space() {
    assert_eq!(trim_text("  a b \t\n"), "a b");
    assert_eq!(trim_text("\u{3000}x\u{a0}"), "x");
    assert_eq!(trim_text("\u{200b}x"), "\u{200b}x");
    assert_eq!(trim_text("   "), "");
    assert_eq!(trim_text(""), "");
}

#[test]
fn numbers_as_std_parses_them() {
    assert_eq!(parse_u32_text("+0"), Some(0));
    assert_eq!(parse_u32_text("007"), Some(7));
    assert_eq!(parse_u32_text("+"), None);
    assert_eq!(parse_u32_text(""), None);
    assert_eq!(parse_u32_text("-0"), None);
    assert_eq!(parse_u32_text("4294967296"), None);
    assert_eq!(parse_u64_text("18446744073709551616"), None);
    assert_eq!(parse_u64_text("99999999999999999999999"), None);
    assert_eq!(parse_u64_radix("DeadBeef", 16), Some(0xdeadbeef));
    assert_eq!(parse_u64_radix("g", 16), None);
    assert_eq!(parse_u64_radix("١", 10), None);
    for s in ["0", "+12", "12x", "", "4294967295", "4294967296", " 1", "1 "] {
        assert_eq!(parse_u32_text(s), s.parse::<u32>().ok(), "{}", s);
    }
}

#[test]
fn rendering_as_std_formats() {
    for n in [0u64, 9, 10, 255, 1 << 33, u64::MAX] {
        let mut s = String::from(">");
        push_dec(&mut s, n);
        assert_eq!(s, format!(">{}", n));
        let mut h = String::new();
        push_hex(&mut h, n);
        assert_eq!(h, format!("{:x}", n));
    }
}

#[test]
fn comparing_and_searching() {
    assert!(eq_ignore_ascii_case_text("SeLF", "self"));
    assert!(!eq_ignore_ascii_case_text("self ", "self"));
    assert!(!eq_ignore_ascii_case_text("ß", "SS"));
    assert!(same_text("abc", "abc"));
    assert!(!same_text("abc", "abd"));
    assert!(contains_ignore_ascii_case_text("Fatal ERROR here", "error"));
    assert!(contains_ignore_ascii_case_text("x: No Rules", "no rules"));
    assert!(!contains_ignore_ascii_case_text("err", "error"));
    assert!(contains_ignore_ascii_case_text("anything", ""));
}

#[test]
fn splitting_as_std_splits() {
    for s in ["", ",", "a,b", ",a,,b,", "abc"] {
        let mine: Vec<&str> = split_text(s, ',');
        let std_way: Vec<&str> = s.split(',').collect();
        assert_eq!(mine, std_way);
    }
}
