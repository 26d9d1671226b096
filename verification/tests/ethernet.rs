use rustic_stack::device::null::Null;
use rustic_stack::device::tap::{Tap, INTERFACE_NAME_SIZE, TAP_FLAGS};
use rustic_stack::net::{NetDeviceAddress, NetDeviceFlag, NetDeviceType, NetProtocolType};
use rustic_stack::ethernet::{frame_type, handle, EthernetPacket, PacketType, ETHERNET_HEADER_SIZE, MAC_LENGTH};

fn frame(ether_type: u16, payload: &[u8]) -> Vec<u8> {
    let mut f = vec![0xff, 0xff, 0xff, 0xff, 0xff, 0xff, 0x00, 0x00, 0x5e, 0x00, 0x53, 0xff];
    f.push((ether_type >> 8) as u8);
    f.push((ether_type & 0xff) as u8);
    f.extend_from_slice(payload);
    f
}

#[test]
fn frame_type_reads_bytes_twelve_and_thirteen() {
    assert_eq!(frame_type(&frame(0x0800, &[])), Some(0x0800));
    assert_eq!(frame_type(&frame(0x86dd, &[1, 2, 3])), Some(0x86dd));
    assert_eq!(frame_type(&frame(0x0800, &[])[..13]), None);
    assert_eq!(frame_type(&[]), None);
    assert_eq!(ETHERNET_HEADER_SIZE, 14);
    assert_eq!(MAC_LENGTH, 6);
}

#[test]
fn packet_parse_takes_a_frame_apart() {
    let packet = EthernetPacket::parse(&frame(0x0800, &[1, 2, 3])).unwrap();
    assert_eq!(packet.get_dst_mac().0, [0xff; 6]);
    assert_eq!(packet.get_src_mac().0, [0x00, 0x00, 0x5e, 0x00, 0x53, 0xff]);
    assert_eq!(packet.get_type(), PacketType::Ipv4);
    assert_eq!(packet.payload(), &vec![1, 2, 3]);
    let empty = EthernetPacket::parse(&frame(0x0806, &[])).unwrap();
    assert_eq!(empty.get_type(), PacketType::Arp);
    assert!(empty.payload().is_empty());
}

#[test]
fn packet_clone_is_the_same_packet() {
    let packet = EthernetPacket::parse(&frame(0x86dd, &[9, 8, 7])).unwrap();
    let copy = packet.clone();
    assert!(copy.dst_mac == packet.dst_mac);
    assert!(copy.src_mac == packet.src_mac);
    assert_eq!(copy.packet_type, PacketType::Ipv6);
    assert_eq!(copy.payload, vec![9, 8, 7]);
}

#[test]
fn packet_parse_rejects_short_frames_and_unknown_types() {
    assert!(EthernetPacket::parse(&frame(0x0800, &[])[..13]).is_none());
    assert!(EthernetPacket::parse(&frame(0x0801, &[1])).is_none());
    assert!(EthernetPacket::parse(&frame(0x0000, &[1])).is_none());
}

#[test]
fn packet_type_numbers_and_names() {
    for (number, packet_type, name) in [
        (0x0800u16, PacketType::Ipv4, "IPv4"),
        (0x0806, PacketType::Arp, "ARP"),
        (0x8035, PacketType::Rarp, "RARP"),
        (0x809b, PacketType::AppleTalk, "AppleTalk"),
        (0x8100, PacketType::Ieee802, "IEEE802"),
        (0x8137, PacketType::Ipx, "IPX"),
        (0x86dd, PacketType::Ipv6, "IPv6"),
    ] {
        assert_eq!(PacketType::from_u16(number), Some(packet_type));
        assert_eq!(packet_type.to_u16(), number);
        assert_eq!(packet_type.to_string(), name);
    }
    assert_eq!(PacketType::from_u16(0x0801), None);
    assert_eq!(PacketType::from_u16(0xffff), None);
}

#[test]
fn handle_hands_ipv4_payloads_on() {
    let mut header = vec![0x45u8; 20];
    header[8] = 33;
    let packet = EthernetPacket::parse(&frame(0x0800, &header)).unwrap();
    let handed = handle(&packet).unwrap();
    assert_eq!(handed.time_to_live(), 33);
    let short = EthernetPacket::parse(&frame(0x0800, &header[..19])).unwrap();
    assert!(handle(&short).is_none());
    let arp = EthernetPacket::parse(&frame(0x0806, &header)).unwrap();
    assert!(handle(&arp).is_none());
}

#[test]
fn tap_flags_are_those_of_the_host() {
    assert_eq!(Tap::flags(), 0x1002);
    assert_eq!(Tap::flags(), TAP_FLAGS);
    assert_eq!(Tap::flags() as i32, libc::IFF_TAP | libc::IFF_NO_PI);
    assert_eq!(libc::IFF_TAP, 0x0002);
    assert_eq!(libc::IFF_NO_PI, 0x1000);
    assert_eq!(INTERFACE_NAME_SIZE, libc::IFNAMSIZ);
}

#[test]
fn tap_request_carries_name_and_flags() {
    let request = Tap::request("tap0").unwrap();
    assert_eq!(request.get_name().unwrap(), "tap0");
    assert_eq!(request.get_flags(), 0x1002);
    let longest = Tap::request("abcdefghijklmno").unwrap();
    assert_eq!(longest.get_name().unwrap(), "abcdefghijklmno");
    let empty = Tap::request("").unwrap();
    assert_eq!(empty.get_name().unwrap(), "");
}

#[test]
fn tap_request_rejects_names_that_do_not_fit() {
    assert!(Tap::request("abcdefghijklmnop").is_none());
    assert!(Tap::request("a\0b").is_none());
    assert!(Tap::request("\0").is_none());
    assert!(Tap::request("tap0\0").is_none());
    // fifteen bytes fit, sixteen do not, whatever the number of characters
    assert!(Tap::request("ééééééé").is_some());
    assert!(Tap::request("éééééééé").is_none());
    // the outside crate agrees
    assert!(ifstructs::ifreq::from_name("abcdefghijklmnop").is_err());
    assert!(ifstructs::ifreq::from_name("tap0\0").is_err());
    assert!(ifstructs::ifreq::from_name("éééééééé").is_err());
}

#[test]
fn tap_opened_has_the_addresses_of_a_tap() {
    let tap = Tap::opened(5, "tap0");
    assert_eq!(tap.fd, 5);
    assert_eq!(tap.name, "tap0");
    assert_eq!(tap.ip_address.0, [192, 0, 2, 2]);
    assert_eq!(tap.mac_address.0, [0x00, 0x00, 0x5e, 0x00, 0x53, 0xff]);
}

#[test]
fn tap_received_hands_on_type_and_payload() {
    let mut buffer = frame(0x0800, &[1, 2, 3, 4]);
    buffer.extend_from_slice(&[0xee; 10]);
    let got = Tap::received(&buffer, 18).unwrap();
    assert_eq!(got.protocol_type, 0x0800);
    assert_eq!(got.data, vec![1, 2, 3, 4]);
    let bare = Tap::received(&buffer, 14).unwrap();
    assert_eq!(bare.protocol_type, 0x0800);
    assert!(bare.data.is_empty());
}

#[test]
fn tap_received_nothing() {
    let buffer = frame(0x0800, &[1, 2, 3, 4]);
    assert!(Tap::received(&buffer, -1).is_none());
    assert!(Tap::received(&buffer, 0).is_none());
    assert!(Tap::received(&buffer, 13).is_none());
    assert!(Tap::received(&buffer, 19).is_none());
    assert!(Tap::received(&buffer, isize::MIN).is_none());
    assert!(Tap::received(&buffer, isize::MAX).is_none());
}

#[test]
fn tap_device_is_an_ethernet_device() {
    let dev = Tap::device("tap0", Null());
    assert_eq!(dev.name, "tap0");
    assert_eq!(dev.index, 0);
    assert_eq!(NetDeviceType::from_u16(dev.device_type), NetDeviceType::Ethernet);
    assert_eq!(dev.device_type, NetDeviceType::Ethernet.to_u16() | NetProtocolType::Ip.to_u16());
    assert_eq!(dev.mtu, 1500);
    assert_eq!(dev.flags, NetDeviceFlag::Broadcast.to_u16() | NetDeviceFlag::NeedArp.to_u16());
    assert!(!dev.is_up());
    assert_eq!(dev.header_length, 14);
    assert_eq!(dev.address_length, 6);
    assert_eq!(dev.hwaddr, [0x00, 0x00, 0x5e, 0x00, 0x53, 0xff, 0, 0, 0, 0, 0, 0, 0, 0, 0, 0]);
    match dev.pb {
        NetDeviceAddress::Broadcast(all) => {
            assert_eq!(all, [0xff, 0xff, 0xff, 0xff, 0xff, 0xff, 0, 0, 0, 0, 0, 0, 0, 0, 0, 0])
        }
        NetDeviceAddress::Peer(_) => panic!("a tap device has no peer"),
    }
    assert!(dev.ops.open && dev.ops.close && dev.ops.transmit && dev.ops.poll);
    assert!(dev.interfaces.is_empty());
}
