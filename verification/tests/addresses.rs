//! The textual IP address grammar, held against std's parser.

use netgate::ip::{IpValue, parse_ip};

fn v4(a: u8, b: u8, c: u8, d: u8) -> Option<IpValue> {
    Some(IpValue::V4(a, b, c, d))
}

fn v6(g: [u16; 8]) -> Option<IpValue> {
    Some(IpValue::V6(g[0], g[1], g[2], g[3], g[4], g[5], g[6], g[7]))
}

#[test]
fn dotted_quads() {
    assert_eq!(parse_ip(b"127.0.0.1"), v4(127, 0, 0, 1));
    assert_eq!(parse_ip(b"0.0.0.0"), v4(0, 0, 0, 0));
    assert_eq!(parse_ip(b"255.255.255.255"), v4(255, 255, 255, 255));
    assert_eq!(parse_ip(b"256.0.0.1"), None);
    assert_eq!(parse_ip(b"01.0.0.1"), None);
    assert_eq!(parse_ip(b"1.2.3"), None);
    assert_eq!(parse_ip(b"1.2.3.4.5"), None);
    assert_eq!(parse_ip(b"1.2.3.4 "), None);
    assert_eq!(parse_ip(b""), None);
}

#[test]
fn six_groups_and_elisions() {
    assert_eq!(parse_ip(b"::"), v6([0, 0, 0, 0, 0, 0, 0, 0]));
    assert_eq!(parse_ip(b"::1"), v6([0, 0, 0, 0, 0, 0, 0, 1]));
    assert_eq!(parse_ip(b"1::"), v6([1, 0, 0, 0, 0, 0, 0, 0]));
    assert_eq!(
        parse_ip(b"2001:db8::7"),
        v6([0x2001, 0xdb8, 0, 0, 0, 0, 0, 7])
    );
    assert_eq!(
        parse_ip(b"1:2:3:4:5:6:7:8"),
        v6([1, 2, 3, 4, 5, 6, 7, 8])
    );
    assert_eq!(
        parse_ip(b"fe80::ABCD:ef01"),
        v6([0xfe80, 0, 0, 0, 0, 0, 0xabcd, 0xef01])
    );
    assert_eq!(parse_ip(b"1:2:3:4:5:6:7::"), v6([1, 2, 3, 4, 5, 6, 7, 0]));
    assert_eq!(parse_ip(b"1:2:3:4:5:6:7:8::"), None);
    assert_eq!(parse_ip(b"::1:2:3:4:5:6:7"), v6([0, 1, 2, 3, 4, 5, 6, 7]));
    assert_eq!(parse_ip(b"::1:2:3:4:5:6:7:8"), None);
    assert_eq!(parse_ip(b"1:2:3:4:5:6::7"), v6([1, 2, 3, 4, 5, 6, 0, 7]));
    assert_eq!(parse_ip(b"1:2:3:4:5:6:7:8:9"), None);
    assert_eq!(parse_ip(b"1:2:3:4:5:6:7"), None);
    assert_eq!(parse_ip(b"1::2::3"), None);
    assert_eq!(parse_ip(b"12345::"), None);
    assert_eq!(parse_ip(b":1:2:3:4:5:6:7"), None);
}

#[test]
fn embedded_dotted_quads() {
    assert_eq!(
        parse_ip(b"1:2:3:4:5::6.7.8.9"),
        v6([1, 2, 3, 4, 5, 0, 0x0607, 0x0809])
    );
    assert_eq!(
        parse_ip(b"::ffff:192.0.2.128"),
        v6([0, 0, 0, 0, 0, 0xffff, 0xc000, 0x0280])
    );
    assert_eq!(
        parse_ip(b"1:2:3:4:5:6:7.8.9.10"),
        v6([1, 2, 3, 4, 5, 6, 0x0708, 0x090a])
    );
    assert_eq!(parse_ip(b"1:2:3:4:5:6:7:7.8.9.10"), None);
}
