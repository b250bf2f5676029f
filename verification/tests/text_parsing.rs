use blacknoir::addr::{parse_ipv4, parse_ipv4_bytes, push_decimal, same_address};
use blacknoir::ports::{parse_port, plan_ports, PortSpecError};
use blacknoir::text::{contains_byte, split_bytes};

#[test]
fn split_keeps_empty_pieces() {
    let parts = split_bytes(b"a..b.", b'.');
    assert_eq!(parts, vec![b"a".to_vec(), vec![], b"b".to_vec(), vec![]]);
    assert_eq!(split_bytes(b"", b','), vec![Vec::<u8>::new()]);
    assert_eq!(split_bytes(b"abc", b','), vec![b"abc".to_vec()]);
}

#[test]
fn contains_byte_finds_separator() {
    assert!(contains_byte(b"1,2", b','));
    assert!(!contains_byte(b"12", b','));
    assert!(!contains_byte(b"", b'-'));
}

#[test]
fn parse_ipv4_reads_dotted_quads() {
    assert_eq!(parse_ipv4("192.168.1.10"), Some([192, 168, 1, 10]));
    assert_eq!(parse_ipv4("0.0.0.0"), Some([0, 0, 0, 0]));
    assert_eq!(parse_ipv4("255.255.255.255"), Some([255, 255, 255, 255]));
}

#[test]
fn parse_ipv4_rejects_malformed_text() {
    for bad in [
        "", "1.2.3", "1.2.3.4.5", "256.1.1.1", "192.168.01.1", "1.2.3.a", " 1.2.3.4", "1.2.3.4 ",
        "1234.1.1.1", "1..2.3", "+1.2.3.4", "1.2.3.", "0x1.2.3.4", "１.2.3.4",
    ] {
        assert_eq!(parse_ipv4(bad), None, "{:?}", bad);
    }
}

#[test]
fn parse_ipv4_follows_dotted_decimal_rules() {
    let samples: [(&str, Option<[u8; 4]>); 19] = [
        ("10.0.0.1", Some([10, 0, 0, 1])),
        ("10.0.0.01", None),
        ("010.0.0.1", None),
        ("1.1.1.256", None),
        ("1.1.1.255", Some([1, 1, 1, 255])),
        ("999.1.1.1", None),
        ("1.1.1", None),
        ("1.1.1.1.", None),
        (".1.1.1", None),
        ("1.1.1.1", Some([1, 1, 1, 1])),
        ("127.0.0.1", Some([127, 0, 0, 1])),
        ("00.1.1.1", None),
        ("0.0.0.00", None),
        ("172.16.254.3", Some([172, 16, 254, 3])),
        ("a.b.c.d", None),
        ("", None),
        ("....", None),
        ("1.2.3.4\n", None),
        ("255.255.255.2555", None),
    ];
    for (s, expected) in samples {
        assert_eq!(parse_ipv4(s), expected, "{:?}", s);
    }
    for a in [0u32, 1, 9, 10, 99, 100, 199, 200, 249, 250, 255] {
        let s = format!("{}.{}.{}.{}", a, a, a, a);
        assert_eq!(parse_ipv4(&s), Some([a as u8; 4]));
    }
}

#[test]
fn parse_ipv4_bytes_reads_raw_text() {
    assert_eq!(parse_ipv4_bytes(b"8.8.4.4"), Some([8, 8, 4, 4]));
    assert_eq!(parse_ipv4_bytes(b"8.8.4"), None);
}

#[test]
fn push_decimal_writes_shortest_text() {
    for n in 0..=255u8 {
        let mut v = b"x".to_vec();
        push_decimal(&mut v, n);
        assert_eq!(v, format!("x{}", n).into_bytes());
    }
}

#[test]
fn same_address_compares_all_octets() {
    assert!(same_address([1, 2, 3, 4], [1, 2, 3, 4]));
    assert!(!same_address([1, 2, 3, 4], [1, 2, 3, 5]));
    assert!(!same_address([0, 2, 3, 4], [1, 2, 3, 4]));
}

#[test]
fn parse_port_agrees_with_std() {
    let samples = [
        "80", "+80", "0080", "0", "65535", "65536", "99999999999", "-1", "-0", "+", "-", "", "8a",
        " 80", "80 ", "++1", "+-1", "00000000000000065535",
    ];
    for s in samples {
        assert_eq!(parse_port(s), s.parse::<u16>().ok(), "{:?}", s);
    }
}

#[test]
fn plan_single_port() {
    let plan = plan_ports("80");
    assert_eq!(plan.ports, vec![80]);
    assert_eq!(plan.error, None);
    let plan = plan_ports("http");
    assert_eq!(plan.ports, Vec::<u16>::new());
    assert_eq!(plan.error, Some(PortSpecError::InvalidPort));
}

#[test]
fn plan_port_list_keeps_order() {
    let plan = plan_ports("443,22,80");
    assert_eq!(plan.ports, vec![443, 22, 80]);
    assert_eq!(plan.error, None);
}

#[test]
fn plan_port_list_stops_at_first_bad_item() {
    let plan = plan_ports("22,x,80");
    assert_eq!(plan.ports, vec![22]);
    assert_eq!(plan.error, Some(PortSpecError::InvalidPort));
    let plan = plan_ports("22,80,");
    assert_eq!(plan.ports, vec![22, 80]);
    assert_eq!(plan.error, Some(PortSpecError::InvalidPort));
}

#[test]
fn plan_port_range_is_inclusive() {
    let plan = plan_ports("20-25");
    assert_eq!(plan.ports, vec![20, 21, 22, 23, 24, 25]);
    assert_eq!(plan.error, None);
    let plan = plan_ports("7-7");
    assert_eq!(plan.ports, vec![7]);
    let plan = plan_ports("25-20");
    assert_eq!(plan.ports, Vec::<u16>::new());
    assert_eq!(plan.error, None);
    let plan = plan_ports("1-3-9");
    assert_eq!(plan.ports, vec![1, 2, 3]);
}

#[test]
fn plan_port_range_errors() {
    assert_eq!(plan_ports("a-5").error, Some(PortSpecError::InvalidStartPort));
    assert_eq!(plan_ports("5-b").error, Some(PortSpecError::InvalidEndPort));
    assert_eq!(plan_ports("5-").error, Some(PortSpecError::InvalidEndPort));
    assert_eq!(plan_ports("-5").error, Some(PortSpecError::InvalidStartPort));
    assert_eq!(plan_ports("1,2-3").error, Some(PortSpecError::InvalidStartPort));
    let plan = plan_ports("65530-65535");
    assert_eq!(plan.ports, Vec::<u16>::new());
    assert_eq!(plan.error, Some(PortSpecError::RangeEndOverflow));
    assert_eq!(plan_ports("65530-65534").ports.len(), 5);
}
