use yara_on_map::sockaddr::is_socket_addr;

#[test]
fn socket_addresses_that_parse() {
    for s in [
        "127.0.0.1:9207",
        "0.0.0.0:0",
        "255.255.255.255:65535",
        "1.2.3.4:00080",
        "[::]:80",
        "[::1]:9207",
        "[1:2:3:4:5:6:7:8]:1",
        "[1::8]:1",
        "[1:2:3:4:5:6:7::]:1",
        "[::2:3:4:5:6:7:8]:1",
        "[::ffff:10.0.0.1]:443",
        "[1:2:3:4:5:6:10.0.0.1]:443",
        "[fe80::1%4]:22",
        "[FE80::ABCD%0042]:22",
        "[0000:0000::0001]:1",
    ] {
        assert!(is_socket_addr(s), "{}", s);
    }
}

#[test]
fn socket_addresses_that_do_not() {
    for s in [
        "",
        "127.0.0.1",
        "127.0.0.1:",
        "127.0.0.1:65536",
        "127.0.0.1:+80",
        "01.2.3.4:80",
        "256.0.0.1:80",
        "1.2.3:80",
        "1.2.3.4.5:80",
        "1234.0.0.1:80",
        "localhost:80",
        " 1.2.3.4:80",
        "::1:80",
        "[::1]",
        "[::1]:",
        "[::1]80",
        "[1:2:3:4:5:6:7:8:9]:1",
        "[1:2:3:4:5:6:7]:1",
        "[1::2::3]:1",
        "[:::]:1",
        "[1:::2]:1",
        "[12345::]:1",
        "[1:2:3:4:5:6:7:8::]:1",
        "[1::2:3:4:5:6:7:8]:1",
        "[1.2.3.4::]:1",
        "[::1.2.3.4:5]:1",
        "[1:2:3:4:5:6:7:1.2.3.4]:1",
        "[1:2:3:4:5:6::1.2.3.4]:1",
        "[fe80::1%]:22",
        "[fe80::1%4%5]:22",
        "[fe80::1%4294967296]:22",
        "[::g]:1",
        "[::1]:1:2",
    ] {
        assert!(!is_socket_addr(s), "{}", s);
    }
}
