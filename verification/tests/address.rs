use rustic_stack::ethernet::MacAddress;
use rustic_stack::ipv4::{AddressError, IpInterface, Ipv4Address, IP_ADDRESS_BROADCAST};
use rustic_stack::net::NetInterfaceFamily;
use rustic_stack::utils::parse_fields;

#[test]
fn ipv4_from_str_reads_dotted_decimal() {
    assert_eq!(Ipv4Address::from_str("127.0.0.1").unwrap().0, [127, 0, 0, 1]);
    assert_eq!(Ipv4Address::from_str("255.0.0.0").unwrap().0, [255, 0, 0, 0]);
    assert_eq!(Ipv4Address::from_str("192.0.2.2").unwrap().0, [192, 0, 2, 2]);
    assert_eq!(Ipv4Address::from_str("0.0.0.0").unwrap().0, [0, 0, 0, 0]);
    assert_eq!(Ipv4Address::from_str("255.255.255.255").unwrap().0, [255, 255, 255, 255]);
}

#[test]
fn ipv4_from_str_takes_leading_zeros() {
    assert_eq!(Ipv4Address::from_str("010.001.000.0255").unwrap().0, [10, 1, 0, 255]);
}

#[test]
fn ipv4_from_str_rejects_what_is_no_address() {
    for text in [
        "", ".", "1", "1.2.3", "1.2.3.4.5", "1..3.4", ".1.2.3", "1.2.3.", "1.2.3.4.", "256.0.0.1",
        "1.2.3.999", "1.2.3.1000", "a.b.c.d", "1.2.3.4 ", " 1.2.3.4", "+1.2.3.4", "-1.2.3.4",
        "1,2,3,4", "1:2:3:4", "0x1.2.3.4", "1.2.3.f", "１.2.3.4",
    ] {
        assert_eq!(Ipv4Address::from_str(text).unwrap_err(), AddressError::InvalidAddress, "{}", text);
    }
}

#[test]
fn ipv4_to_string_writes_dotted_decimal() {
    assert_eq!(Ipv4Address([127, 0, 0, 1]).to_string(), "127.0.0.1");
    assert_eq!(Ipv4Address([0, 9, 10, 99]).to_string(), "0.9.10.99");
    assert_eq!(Ipv4Address([100, 101, 200, 255]).to_string(), "100.101.200.255");
}

#[test]
fn ipv4_text_round_trip() {
    for bytes in [[0u8, 0, 0, 0], [1, 2, 3, 4], [10, 100, 109, 110], [255, 255, 255, 255]] {
        let text = Ipv4Address(bytes).to_string();
        assert_eq!(Ipv4Address::from_str(&text).unwrap().0, bytes);
    }
}

#[test]
fn ipv4_to_u32_puts_the_first_byte_lowest() {
    assert_eq!(Ipv4Address([127, 0, 0, 1]).to_u32(), 0x0100_007f);
    assert_eq!(Ipv4Address([1, 2, 3, 4]).to_u32(), 0x0403_0201);
    assert_eq!(Ipv4Address::from_u32(0x0403_0201).0, [1, 2, 3, 4]);
    assert_eq!(Ipv4Address::from_u32(0x7f00_0001).0, [1, 0, 0, 127]);
}

#[test]
fn ipv4_u32_round_trip() {
    for u in [0u32, 1, 0x0100_007f, 0xdead_beef, 0xffff_ffff] {
        assert_eq!(Ipv4Address::from_u32(u).to_u32(), u);
    }
}

#[test]
fn ipv4_equality_is_by_bytes() {
    assert!(Ipv4Address([1, 2, 3, 4]) == Ipv4Address([1, 2, 3, 4]));
    assert!(Ipv4Address([1, 2, 3, 4]) != Ipv4Address([1, 2, 3, 5]));
    assert!(Ipv4Address([1, 2, 3, 4]) != Ipv4Address([0, 2, 3, 4]));
}

#[test]
fn ipv4_broadcast_is_all_ones() {
    assert_eq!(Ipv4Address::broadcast().0, [255, 255, 255, 255]);
    assert_eq!(Ipv4Address::broadcast().to_u32(), IP_ADDRESS_BROADCAST);
}

#[test]
fn interface_broadcast_is_network_with_host_bits_set() {
    let interface = IpInterface::allocate("192.168.1.10", "255.255.255.0").unwrap();
    assert_eq!(interface.unicast.0, [192, 168, 1, 10]);
    assert_eq!(interface.netmask.0, [255, 255, 255, 0]);
    assert_eq!(interface.broadcast.0, [192, 168, 1, 255]);
    assert_eq!(interface.net_interface.family, NetInterfaceFamily::Ip);
    assert_eq!(interface.net_interface.dev, None);

    let loopback = IpInterface::allocate("127.0.0.1", "255.0.0.0").unwrap();
    assert_eq!(loopback.broadcast.0, [127, 255, 255, 255]);

    let odd = IpInterface::allocate("10.11.12.13", "255.240.0.0").unwrap();
    assert_eq!(odd.broadcast.0, [10, 15, 255, 255]);
}

#[test]
fn interface_broadcast_law_on_values() {
    for (unicast, netmask) in [
        ("192.168.1.10", "255.255.255.0"),
        ("10.0.0.1", "255.0.0.0"),
        ("172.16.5.4", "255.255.240.0"),
        ("1.2.3.4", "0.0.0.0"),
        ("1.2.3.4", "255.255.255.255"),
        ("9.9.9.9", "255.0.255.0"),
    ] {
        let interface = IpInterface::allocate(unicast, netmask).unwrap();
        let u = interface.unicast.to_u32();
        let m = interface.netmask.to_u32();
        let b = interface.broadcast.to_u32();
        assert_eq!(b & m, u & m);
        assert_eq!(b | m, 0xffff_ffff);
    }
}

#[test]
fn interface_allocate_rejects_bad_text() {
    assert!(IpInterface::allocate("127.0.0", "255.0.0.0").is_none());
    assert!(IpInterface::allocate("127.0.0.1", "255.0.0.256").is_none());
    assert!(IpInterface::allocate("", "").is_none());
}

#[test]
fn mac_from_str_reads_hexadecimal() {
    assert_eq!(
        MacAddress::from_str("00:00:5e:00:53:FF").unwrap().0,
        [0x00, 0x00, 0x5e, 0x00, 0x53, 0xff]
    );
    assert_eq!(MacAddress::from_str("0:1:a:B:10:ff").unwrap().0, [0, 1, 10, 11, 16, 255]);
}

#[test]
fn mac_from_str_rejects_what_is_no_address() {
    for text in [
        "", "00:00:5e:00:53", "00:00:5e:00:53:ff:00", "00:00:5e:00:53:", "00:00:5e:00:53:100",
        "00:00:5e:00:53:fg", "00-00-5e-00-53-ff", "00:00:5e:00::ff", "00:00:5e:00:53:+f",
    ] {
        assert_eq!(MacAddress::from_str(text).unwrap_err(), AddressError::InvalidAddress, "{}", text);
    }
}

#[test]
fn mac_to_string_writes_capital_hexadecimal() {
    assert_eq!(MacAddress([0x00, 0x00, 0x5e, 0x00, 0x53, 0xff]).to_string(), "0:0:5E:0:53:FF");
    assert_eq!(MacAddress([0x10, 0x0f, 0xab, 0x9a, 0xa9, 0x01]).to_string(), "10:F:AB:9A:A9:1");
}

#[test]
fn mac_text_round_trip() {
    for bytes in [[0u8; 6], [0xff; 6], [0x00, 0x00, 0x5e, 0x00, 0x53, 0xff], [1, 16, 17, 160, 171, 9]] {
        let text = MacAddress(bytes).to_string();
        assert_eq!(MacAddress::from_str(&text).unwrap().0, bytes);
    }
}

#[test]
fn ipv4_text_round_trip_of_every_byte() {
    for b in 0..=255u8 {
        let a = Ipv4Address([b, 255 - b, b / 2, b.wrapping_mul(7)]);
        assert!(Ipv4Address::from_str(&a.to_string()).unwrap() == a);
        let m = MacAddress([b, 255 - b, b / 2, b.wrapping_mul(7), 0, 255]);
        assert!(MacAddress::from_str(&m.to_string()).unwrap() == m);
    }
}

#[test]
fn mac_constants() {
    assert_eq!(MacAddress::any().0, [0; 6]);
    assert_eq!(MacAddress::broadcast().0, [0xff; 6]);
    assert_eq!(MacAddress::default().0, [0; 6]);
    assert!(MacAddress::any() == MacAddress::default());
    assert!(MacAddress::any() != MacAddress::broadcast());
}

#[test]
fn parse_fields_splits_and_reads() {
    assert_eq!(parse_fields(b"1.22.255", b'.', false), Some(vec![1, 22, 255]));
    assert_eq!(parse_fields(b"7", b'.', false), Some(vec![7]));
    assert_eq!(parse_fields(b"ff:0:Ab", b':', true), Some(vec![255, 0, 171]));
    assert_eq!(parse_fields(b"", b'.', false), None);
    assert_eq!(parse_fields(b"1.", b'.', false), None);
    assert_eq!(parse_fields(b".1", b'.', false), None);
    assert_eq!(parse_fields(b"256", b'.', false), None);
    assert_eq!(parse_fields(b"100", b':', true), None);
    assert_eq!(parse_fields(b"a", b'.', false), None);
    assert_eq!(parse_fields(b"99999999999999999999", b'.', false), None);
    assert_eq!(parse_fields(b"000000000000000000001", b'.', false), Some(vec![1]));
    // a digit can separate too
    assert_eq!(parse_fields(b"10203", b'0', false), Some(vec![1, 2, 3]));
    assert_eq!(parse_fields(b"ff", b'.', false), None);
    assert_eq!(parse_fields(b"fF", b'.', true), Some(vec![255]));
}
