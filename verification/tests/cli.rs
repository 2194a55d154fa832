use yara_on_map::cli::{
    decode_hex_page, keep_running, parse_base, parse_pid_text, parse_pids, quarantine_enabled,
    resolve_replay_pid, BaseError, PidError, ReplayPid,
};

#[test]
fn parse_pids_accepts_lists_and_self() {
    assert_eq!(parse_pids("12, 34", 4242).expect("pid list"), vec![12, 34]);
    assert_eq!(parse_pids("self", 4242).expect("self pid"), vec![4242]);
}

#[test]
fn parse_pids_rejects_bad_values() {
    let err = parse_pids("12, nope", 1).unwrap_err();

    assert!(err.message().contains("invalid PID"));
}

#[test]
fn replay_base_accepts_hex_and_decimal() {
    assert_eq!(parse_base("0x1000").expect("hex"), 0x1000);
    assert_eq!(parse_base("4096").expect("decimal"), 4096);
}

#[test]
fn replay_hex_allows_whitespace() {
    assert_eq!(
        decode_hex_page("4D 5A\n90").expect("hex bytes"),
        vec![0x4d, 0x5a, 0x90]
    );
}

#[test]
fn pid_lists_in_detail() {
    assert_eq!(parse_pids("", 7).unwrap(), Vec::<u32>::new());
    assert_eq!(parse_pids("   ", 7).unwrap(), Vec::<u32>::new());
    assert_eq!(parse_pids(" SeLf ", 7).unwrap(), vec![7]);
    assert_eq!(parse_pids(",1,,2 ,", 7).unwrap(), vec![1, 2]);
    assert_eq!(parse_pids("+5", 7).unwrap(), vec![5]);
    assert_eq!(parse_pids("4294967295", 7).unwrap(), vec![4294967295]);
    assert_eq!(
        parse_pids("1, 4294967296, x", 7).unwrap_err().message(),
        "invalid PID `4294967296`"
    );
    assert_eq!(parse_pids("-1", 7).unwrap_err().message(), "invalid PID `-1`");
    assert_eq!(parse_pids("1 2", 7).unwrap_err().message(), "invalid PID `1 2`");
    assert_eq!(parse_pids("self,1", 7).unwrap_err().message(), "invalid PID `self`");
}

#[test]
fn pid_text() {
    assert_eq!(parse_pid_text(" 99 ").unwrap(), 99);
    assert!(matches!(parse_pid_text("  "), Err(PidError::Empty)));
    assert_eq!(parse_pid_text("").unwrap_err().message(), "PID is empty");
    assert_eq!(parse_pid_text("+").unwrap_err().message(), "invalid PID `+`");
}

#[test]
fn replay_pids() {
    assert_eq!(resolve_replay_pid(ReplayPid::Text(" self".to_string()), 5).unwrap(), 5);
    assert_eq!(resolve_replay_pid(ReplayPid::Text("12".to_string()), 5).unwrap(), 12);
    assert_eq!(resolve_replay_pid(ReplayPid::Number(12), 5).unwrap(), 12);
    assert_eq!(
        resolve_replay_pid(ReplayPid::Number(4294967296), 5).unwrap_err().message(),
        "replay PID 4294967296 is outside the u32 range"
    );
    assert!(matches!(
        resolve_replay_pid(ReplayPid::Text("".to_string()), 5),
        Err(PidError::Empty)
    ));
}

#[test]
fn base_addresses_in_detail() {
    assert_eq!(parse_base("  0XfF ").unwrap(), 255);
    assert_eq!(parse_base("0x+10").unwrap(), 16);
    assert_eq!(parse_base("0xffffffffffffffff").unwrap(), u64::MAX);
    assert_eq!(parse_base("18446744073709551615").unwrap(), u64::MAX);
    assert!(matches!(parse_base(" "), Err(BaseError::Empty)));
    assert_eq!(parse_base("").unwrap_err().message(), "base address is empty");
    assert_eq!(parse_base("0x").unwrap_err().message(), "invalid hex base address `0x`");
    assert_eq!(
        parse_base("0x10000000000000000").unwrap_err().message(),
        "invalid hex base address `0x10000000000000000`"
    );
    assert_eq!(parse_base("12a").unwrap_err().message(), "invalid base address `12a`");
    assert_eq!(parse_base("0b101").unwrap_err().message(), "invalid base address `0b101`");
}

#[test]
fn hex_rendering_reads_back() {
    for n in [0u64, 1, 9, 10, 15, 16, 255, 4096, 0x7ff6_1234_0000, u64::MAX] {
        assert_eq!(parse_base(&format!("0x{:x}", n)).unwrap(), n);
        assert_eq!(parse_base(&format!("{}", n)).unwrap(), n);
        assert_eq!(parse_base(&format!("0X{:X}", n)).unwrap(), n);
        assert_eq!(parse_base(&format!("0x{:X}", n)).unwrap(), n);
        assert_eq!(parse_base(&format!(" {}\t", n)).unwrap(), n);
        assert_eq!(parse_base(&format!("\u{a0}\n0X{:x}\u{3000}", n)).unwrap(), n);
    }
    for p in [0u32, 7, 4294967295] {
        assert_eq!(parse_pid_text(&format!("{}", p)).unwrap(), p);
    }
}

#[test]
fn hex_pages_in_detail() {
    assert_eq!(decode_hex_page("").unwrap(), Vec::<u8>::new());
    assert_eq!(decode_hex_page("ff\t00\r\n").unwrap(), vec![0xff, 0x00]);
    assert!(decode_hex_page("abc").is_none());
    assert!(decode_hex_page("zz").is_none());
    assert!(decode_hex_page("4\u{a0}D").is_none());
    assert!(decode_hex_page("4D\u{b}5A").is_none());
}

#[test]
fn hex_pages_read_back_in_any_case_and_spacing() {
    let bytes: Vec<u8> = vec![0x00, 0x4d, 0x5a, 0x90, 0xab, 0xff];
    let lower: String = bytes.iter().map(|b| format!("{:02x}", b)).collect();
    let upper: String = bytes.iter().map(|b| format!("{:02X}", b)).collect();
    assert_eq!(decode_hex_page(&lower).unwrap(), bytes);
    assert_eq!(decode_hex_page(&upper).unwrap(), bytes);
    assert_eq!(decode_hex_page(" 00 4d\n5A\t90\r\nAb f\u{c}F ").unwrap(), bytes);
    assert!(decode_hex_page(" 00 4d\n5A\t90\r\nAb f").is_none());
}

#[test]
fn live_loop_decisions() {
    assert!(!keep_running(0, 0));
    assert!(keep_running(5, 4));
    assert!(!keep_running(5, 5));
    assert!(quarantine_enabled(true, "audit"));
    assert!(quarantine_enabled(false, "enforce"));
    assert!(!quarantine_enabled(false, " enforce"));
    assert!(!quarantine_enabled(false, "Enforce"));
}
