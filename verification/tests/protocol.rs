use rustic_stack::device::loopback::Loopback;
use rustic_stack::ipv4::{init, Ipv4Error};
use rustic_stack::net::{
    net_dispatch, net_init, HandlerResult, LockableNetDevices, LockableNetProtocols, NetProtocol,
    NetProtocolErrorKind, NetProtocolType, ProtocolHandlerType,
};

#[test]
fn register_twice_fails_the_second_time() {
    let mut protocols = LockableNetProtocols::new();
    assert!(NetProtocol::register(&mut protocols, 0x0800, ProtocolHandlerType::Ip).is_ok());
    let second = NetProtocol::register(&mut protocols, 0x0800, ProtocolHandlerType::Ip);
    assert_eq!(second.unwrap_err().kind, NetProtocolErrorKind::AlreadyRegistered);
    assert_eq!(protocols.items.len(), 1);
}

#[test]
fn register_keeps_numbers_apart() {
    let mut protocols = LockableNetProtocols::new();
    for number in [0x0800u16, 0x0806, 0x86dd, 0x0800, 0x0806, 0x0801, 0x86dd] {
        let _ = NetProtocol::register(&mut protocols, number, ProtocolHandlerType::Ip);
    }
    let numbers: Vec<u16> = protocols.items.iter().map(|p| p.protocol_type).collect();
    assert_eq!(numbers, vec![0x0800, 0x0806, 0x86dd, 0x0801]);
    for p in protocols.items.iter() {
        assert_eq!(p.queue.len(), 0);
        assert_eq!(p.handler, ProtocolHandlerType::Ip);
    }
}

#[test]
fn net_init_twice_registers_ipv4_once() {
    let mut protocols = LockableNetProtocols::new();
    net_init(&mut protocols);
    net_init(&mut protocols);
    assert_eq!(protocols.items.len(), 1);
    assert_eq!(protocols.items[0].protocol_type, 0x0800);
    assert_eq!(protocols.items[0].handler, ProtocolHandlerType::Ip);
}

#[test]
fn ipv4_init_leaves_other_protocols() {
    let mut protocols = LockableNetProtocols::new();
    NetProtocol::register(&mut protocols, 0x0806, ProtocolHandlerType::Ip).unwrap();
    init(&mut protocols);
    init(&mut protocols);
    let numbers: Vec<u16> = protocols.items.iter().map(|p| p.protocol_type).collect();
    assert_eq!(numbers, vec![0x0806, 0x0800]);
}

#[test]
fn input_handler_copies_the_frame_into_the_queue() {
    let mut protocols = LockableNetProtocols::new();
    net_init(&mut protocols);
    let data = [1u8, 2, 3, 4, 5];
    assert!(NetProtocol::input_handler(&mut protocols, 0x0800, &data, 3, 7).is_ok());
    assert_eq!(protocols.items[0].queue.len(), 1);
    assert_eq!(protocols.items[0].queue[0].dev, 7);
    assert_eq!(protocols.items[0].queue[0].data, vec![1, 2, 3]);
}

#[test]
fn input_handler_drops_frames_of_unknown_protocols() {
    let mut protocols = LockableNetProtocols::new();
    net_init(&mut protocols);
    assert!(NetProtocol::input_handler(&mut protocols, 0x0806, &[1, 2, 3], 3, 0).is_ok());
    assert!(NetProtocol::input_handler(&mut protocols, 0x0801, &[1, 2, 3], 3, 0).is_ok());
    assert_eq!(protocols.items[0].queue.len(), 0);
}

#[test]
fn input_handler_takes_an_empty_frame() {
    let mut protocols = LockableNetProtocols::new();
    net_init(&mut protocols);
    assert!(NetProtocol::input_handler(&mut protocols, 0x0800, &[], 0, 0).is_ok());
    assert_eq!(protocols.items[0].queue.len(), 1);
    assert_eq!(protocols.items[0].queue[0].data.len(), 0);
}

#[test]
fn queue_is_first_in_first_out() {
    let mut devices = LockableNetDevices::new();
    Loopback::init(&mut devices).unwrap();
    let mut protocols = LockableNetProtocols::new();
    net_init(&mut protocols);
    for k in 0..5u8 {
        NetProtocol::input_handler(&mut protocols, 0x0800, &[k, k, k], 3, 0).unwrap();
    }
    for k in 0..5u8 {
        let handled = protocols.items[0].dispatch(&devices).unwrap();
        assert_eq!(handled.protocol_type, 0x0800);
        assert_eq!(handled.entry.dev, 0);
        assert_eq!(handled.entry.data, vec![k, k, k]);
        assert_eq!(protocols.items[0].queue.len(), (4 - k) as usize);
    }
    assert!(protocols.items[0].dispatch(&devices).is_none());
}

#[test]
fn dispatch_runs_the_ipv4_input() {
    let mut devices = LockableNetDevices::new();
    Loopback::init(&mut devices).unwrap();
    let mut protocols = LockableNetProtocols::new();
    net_init(&mut protocols);
    NetProtocol::input_handler(&mut protocols, 0x0800, &[0x45, 0, 0], 3, 0).unwrap();
    let handled = protocols.items[0].dispatch(&devices).unwrap();
    match handled.result {
        HandlerResult::Ip(r) => assert_eq!(r.unwrap_err(), Ipv4Error::HeaderTooShort),
        HandlerResult::NoDevice => panic!("device not found"),
    }
}

#[test]
fn dispatch_of_a_frame_from_no_device() {
    let devices = LockableNetDevices::new();
    let mut protocols = LockableNetProtocols::new();
    net_init(&mut protocols);
    NetProtocol::input_handler(&mut protocols, 0x0800, &[1, 2, 3], 3, 4).unwrap();
    let handled = protocols.items[0].dispatch(&devices).unwrap();
    assert!(matches!(handled.result, HandlerResult::NoDevice));
    assert_eq!(protocols.items[0].queue.len(), 0);
}

#[test]
fn net_dispatch_takes_one_frame_of_each_protocol() {
    let mut devices = LockableNetDevices::new();
    Loopback::init(&mut devices).unwrap();
    let mut protocols = LockableNetProtocols::new();
    NetProtocol::register(&mut protocols, 0x0800, ProtocolHandlerType::Ip).unwrap();
    NetProtocol::register(&mut protocols, 0x0806, ProtocolHandlerType::Ip).unwrap();
    NetProtocol::register(&mut protocols, 0x86dd, ProtocolHandlerType::Ip).unwrap();
    NetProtocol::input_handler(&mut protocols, 0x86dd, &[6, 1], 2, 0).unwrap();
    NetProtocol::input_handler(&mut protocols, 0x0800, &[4, 1], 2, 0).unwrap();
    NetProtocol::input_handler(&mut protocols, 0x0800, &[4, 2], 2, 0).unwrap();
    NetProtocol::input_handler(&mut protocols, 0x86dd, &[6, 2], 2, 0).unwrap();

    let first = net_dispatch(&mut protocols, &devices);
    let seen: Vec<(u16, Vec<u8>)> = first.iter().map(|h| (h.protocol_type, h.entry.data.clone())).collect();
    assert_eq!(seen, vec![(0x0800, vec![4, 1]), (0x86dd, vec![6, 1])]);

    let second = net_dispatch(&mut protocols, &devices);
    let seen: Vec<(u16, Vec<u8>)> = second.iter().map(|h| (h.protocol_type, h.entry.data.clone())).collect();
    assert_eq!(seen, vec![(0x0800, vec![4, 2]), (0x86dd, vec![6, 2])]);

    assert!(net_dispatch(&mut protocols, &devices).is_empty());
}

#[test]
fn protocol_type_numbers_and_names() {
    for (number, protocol, name) in [
        (0x0800u16, NetProtocolType::Ip, "IPv4"),
        (0x0806, NetProtocolType::Arp, "ARP"),
        (0x86dd, NetProtocolType::Ipv6, "IPv6"),
        (0x86de, NetProtocolType::Unknown, "Unknown"),
    ] {
        assert_eq!(NetProtocolType::from_u16(number), protocol);
        assert_eq!(protocol.to_u16(), number);
        assert_eq!(protocol.to_string(), name);
    }
}

#[test]
fn protocol_type_of_other_numbers() {
    for number in [0u16, 1, 0x0801, 0x0802, 0x0805, 0x0807, 0x0808, 0x86dc, 0x86df, 0xffff] {
        assert_eq!(NetProtocolType::from_u16(number), NetProtocolType::Unknown, "{:04x}", number);
    }
}

#[test]
fn protocols_lock_gives_the_table() {
    let mut protocols = LockableNetProtocols::new();
    net_init(&mut protocols);
    {
        let guard = protocols.lock();
        assert_eq!(guard.items.len(), 1);
        guard.items[0].protocol_type = 0x0806;
    }
    assert_eq!(protocols.items[0].protocol_type, 0x0806);
}
