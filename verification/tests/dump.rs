use rustic_stack::ipv4::dump;
use rustic_stack::utils::{push_decimal, push_hex, push_hex16};

#[test]
fn dump_writes_a_line_for_each_field() {
    let bytes: [u8; 20] = [
        0x45, 0x03, 0x00, 0x73, 0x0a, 0xbc, 0x40, 0x00, 0x40, 0x11, 0xb8, 0x61, 0xc0, 0xa8, 0x00,
        0x01, 0xc0, 0xa8, 0x00, 0xc7,
    ];
    let lines = dump(&bytes).unwrap();
    assert_eq!(
        lines,
        vec![
            "IPv4 Header ==========",
            "            vhl: 0x45 [version: 4, header length: 20]",
            "type of service: 0x03",
            "   total length: 0x73 (payload 0x5f)",
            "             id: abc",
            "           flag: 0x2",
            "         offset: 0x0",
            "   time to live: 0x40",
            "       protocol: UDP",
            "       checksum: 0xb861",
            "    src address: 192.168.0.1",
            "    dst address: 192.168.0.199",
        ]
    );
}

#[test]
fn dump_of_zeros() {
    let lines = dump(&[0u8; 24]).unwrap();
    assert_eq!(
        lines,
        vec![
            "IPv4 Header ==========",
            "            vhl: 0x00 [version: 0, header length: 0]",
            "type of service: 0x00",
            "   total length: 0x0 (payload 0x0)",
            "             id: 0",
            "           flag: 0x0",
            "         offset: 0x0",
            "   time to live: 0x0",
            "       protocol: Unimplement",
            "       checksum: 0x0000",
            "    src address: 0.0.0.0",
            "    dst address: 0.0.0.0",
        ]
    );
}

#[test]
fn dump_of_a_total_length_below_the_header_has_no_payload() {
    let mut bytes = [0xffu8; 20];
    bytes[2] = 0;
    bytes[3] = 10;
    let lines = dump(&bytes).unwrap();
    assert_eq!(lines[1], "            vhl: 0xff [version: 15, header length: 60]");
    assert_eq!(lines[3], "   total length: 0xa (payload 0x0)");
    assert_eq!(lines[4], "             id: ffff");
    assert_eq!(lines[5], "           flag: 0x7");
    assert_eq!(lines[6], "         offset: 0x1fff");
    assert_eq!(lines[9], "       checksum: 0xffff");
    assert_eq!(lines[11], "    dst address: 255.255.255.255");
}

#[test]
fn dump_needs_a_header() {
    assert!(dump(&[0x45; 19]).is_none());
    assert!(dump(&[]).is_none());
}

#[test]
fn numbers_are_written_like_the_formatter_writes_them() {
    for value in 0..=255u8 {
        let mut text = String::from("<");
        push_decimal(&mut text, value);
        assert_eq!(text, format!("<{}", value));
        let mut text = String::from("<");
        push_hex(&mut text, value);
        assert_eq!(text, format!("<{:X}", value));
    }
    for value in [0u16, 1, 9, 10, 15, 16, 0xff, 0x100, 0xabc, 0xfff, 0x1000, 0xbeef, 0xffff] {
        let mut text = String::new();
        push_hex16(&mut text, value, 0);
        assert_eq!(text, format!("{:x}", value));
        let mut text = String::new();
        push_hex16(&mut text, value, 1);
        assert_eq!(text, format!("{:x}", value));
        let mut text = String::new();
        push_hex16(&mut text, value, 2);
        assert_eq!(text, format!("{:02x}", value));
        let mut text = String::new();
        push_hex16(&mut text, value, 3);
        assert_eq!(text, format!("{:03x}", value));
        let mut text = String::new();
        push_hex16(&mut text, value, 4);
        assert_eq!(text, format!("{:04x}", value));
    }
}
