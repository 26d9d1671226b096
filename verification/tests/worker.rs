use std::cell::RefCell;
use std::collections::VecDeque;

use rustic_stack::device::loopback::Loopback;
use rustic_stack::ipv4::{IpInterface, Ipv4Error, LockableIpInterfaces};
use rustic_stack::net::{
    net_init, net_poll, net_run, net_thread, HandlerResult, LockableNetDevices,
    LockableNetProtocols, NetDevice, NetDeviceAddress, NetDeviceFrame, NetDeviceOps, NetDriver,
    NetProtocol, NetThreadAction, ProtocolHandlerType, NET_THREAD_SLEEP_NANOS,
};
use rustic_stack::utils::checksum16;

/// A driver that hands out the frames that the test has put into it.
struct Wire {
    frames: RefCell<VecDeque<(u16, Vec<u8>)>>,
}

impl Wire {
    fn with(frames: Vec<(u16, Vec<u8>)>) -> Wire {
        Wire { frames: RefCell::new(frames.into_iter().collect()) }
    }
}

impl NetDriver for Wire {
    fn open(&self) -> isize {
        0
    }

    fn close(&self) -> isize {
        0
    }

    fn transmit(&self, _protocol_type: u16, _data: &[u8], size: usize, _dst: &mut [u8]) -> isize {
        size as isize
    }

    fn poll(&self) -> Option<NetDeviceFrame> {
        self.frames
            .borrow_mut()
            .pop_front()
            .map(|(protocol_type, data)| NetDeviceFrame { protocol_type, data })
    }
}

fn wired(name: &str, frames: Vec<(u16, Vec<u8>)>) -> NetDevice {
    NetDevice {
        index: 0,
        name: String::from(name),
        device_type: 0x0002,
        mtu: 1500,
        flags: 0,
        header_length: 14,
        address_length: 6,
        hwaddr: [0; 16],
        pb: NetDeviceAddress::Broadcast([0xff; 16]),
        ops: NetDeviceOps { open: true, close: true, transmit: true, poll: true, driver: Box::new(Wire::with(frames)) },
        interfaces: Vec::new(),
    }
}

fn datagram(ttl: u8, dst: [u8; 4]) -> Vec<u8> {
    let mut h = vec![0x45, 0, 0, 20, 0, 0, 0, 0, ttl, 17, 0, 0, 10, 0, 0, 1];
    h.extend_from_slice(&dst);
    let sum = checksum16(&h, 0);
    h[10] = (sum >> 8) as u8;
    h[11] = (sum & 0xff) as u8;
    h
}

#[test]
fn worker_sleeps_for_ten_milliseconds() {
    assert_eq!(NET_THREAD_SLEEP_NANOS, 10_000_000);
}

#[test]
fn worker_exits_when_told() {
    let mut devices = LockableNetDevices::new();
    NetDevice::register(&mut devices, wired("eth0", vec![(0x0800, datagram(64, [10, 0, 0, 2]))])).unwrap();
    net_run(&mut devices).unwrap();
    let mut protocols = LockableNetProtocols::new();
    net_init(&mut protocols);
    NetProtocol::input_handler(&mut protocols, 0x0800, &[1, 2, 3], 3, 0).unwrap();
    let step = net_thread(&devices, &mut protocols, true);
    assert_eq!(step.action, NetThreadAction::Exit);
    assert_eq!(step.polled, 0);
    assert!(step.handled.is_empty());
    // nothing was polled and nothing was taken from the queue
    assert_eq!(protocols.items[0].queue.len(), 1);
    let step = net_thread(&devices, &mut protocols, false);
    assert_eq!(step.polled, 1);
}

#[test]
fn worker_sleeps_without_work() {
    let mut devices = LockableNetDevices::new();
    Loopback::init(&mut devices).unwrap();
    NetDevice::register(&mut devices, wired("eth0", vec![])).unwrap();
    net_run(&mut devices).unwrap();
    let mut protocols = LockableNetProtocols::new();
    net_init(&mut protocols);
    let step = net_thread(&devices, &mut protocols, false);
    assert_eq!(step.action, NetThreadAction::Sleep);
    assert_eq!(step.polled, 0);
    assert!(step.handled.is_empty());
}

#[test]
fn worker_moves_a_frame_from_the_device_to_the_handler() {
    let mut devices = LockableNetDevices::new();
    Loopback::init(&mut devices).unwrap();
    let eth0 = NetDevice::register(&mut devices, wired("eth0", vec![(0x0800, datagram(64, [10, 0, 0, 2]))])).unwrap();
    let mut interfaces = LockableIpInterfaces::new();
    IpInterface::register(&mut interfaces, IpInterface::allocate("10.0.0.2", "255.255.255.0"), &mut devices.items[eth0])
        .unwrap();
    net_run(&mut devices).unwrap();
    let mut protocols = LockableNetProtocols::new();
    net_init(&mut protocols);

    let step = net_thread(&devices, &mut protocols, false);
    assert_eq!(step.action, NetThreadAction::Continue);
    assert_eq!(step.polled, 1);
    assert_eq!(step.handled.len(), 1);
    assert_eq!(step.handled[0].protocol_type, 0x0800);
    assert_eq!(step.handled[0].entry.dev, eth0);
    assert_eq!(step.handled[0].entry.data, datagram(64, [10, 0, 0, 2]));
    match step.handled[0].result {
        HandlerResult::Ip(Ok(Some(header))) => assert_eq!(header.dst_address().0, [10, 0, 0, 2]),
        other => panic!("not accepted: {:?}", other),
    }
    assert_eq!(protocols.items[0].queue.len(), 0);

    let step = net_thread(&devices, &mut protocols, false);
    assert_eq!(step.action, NetThreadAction::Sleep);
}

#[test]
fn worker_reports_what_the_handler_made_of_each_frame() {
    let mut devices = LockableNetDevices::new();
    let frames = vec![
        (0x0800, datagram(0, [10, 0, 0, 2])),
        (0x0800, datagram(64, [10, 0, 0, 9])),
        (0x0800, vec![0x45]),
    ];
    let eth0 = NetDevice::register(&mut devices, wired("eth0", frames)).unwrap();
    let mut interfaces = LockableIpInterfaces::new();
    IpInterface::register(&mut interfaces, IpInterface::allocate("10.0.0.2", "255.255.255.0"), &mut devices.items[eth0])
        .unwrap();
    net_run(&mut devices).unwrap();
    let mut protocols = LockableNetProtocols::new();
    net_init(&mut protocols);

    let step = net_thread(&devices, &mut protocols, false);
    assert!(matches!(step.handled[0].result, HandlerResult::Ip(Err(Ipv4Error::TTLExpired))));
    let step = net_thread(&devices, &mut protocols, false);
    assert!(matches!(step.handled[0].result, HandlerResult::Ip(Ok(None))));
    let step = net_thread(&devices, &mut protocols, false);
    assert!(matches!(step.handled[0].result, HandlerResult::Ip(Err(Ipv4Error::HeaderTooShort))));
    let step = net_thread(&devices, &mut protocols, false);
    assert_eq!(step.action, NetThreadAction::Sleep);
}

#[test]
fn worker_counts_frames_of_unknown_protocols_as_work() {
    let mut devices = LockableNetDevices::new();
    NetDevice::register(&mut devices, wired("eth0", vec![(0x0806, vec![1, 2, 3])])).unwrap();
    net_run(&mut devices).unwrap();
    let mut protocols = LockableNetProtocols::new();
    net_init(&mut protocols);
    let step = net_thread(&devices, &mut protocols, false);
    assert_eq!(step.polled, 1);
    assert!(step.handled.is_empty());
    assert_eq!(step.action, NetThreadAction::Continue);
    assert_eq!(protocols.items[0].queue.len(), 0);
}

#[test]
fn worker_does_not_poll_devices_that_are_down() {
    let mut devices = LockableNetDevices::new();
    NetDevice::register(&mut devices, wired("eth0", vec![(0x0800, vec![1, 2, 3])])).unwrap();
    let mut protocols = LockableNetProtocols::new();
    net_init(&mut protocols);
    let step = net_thread(&devices, &mut protocols, false);
    assert_eq!(step.polled, 0);
    assert_eq!(step.action, NetThreadAction::Sleep);
    net_run(&mut devices).unwrap();
    let step = net_thread(&devices, &mut protocols, false);
    assert_eq!(step.polled, 1);
    assert_eq!(step.action, NetThreadAction::Continue);
}

#[test]
fn worker_handles_queued_frames_in_their_order() {
    let mut devices = LockableNetDevices::new();
    let frames: Vec<(u16, Vec<u8>)> = (0..4u8).map(|k| (0x0800, vec![k; 3])).collect();
    NetDevice::register(&mut devices, wired("eth0", frames)).unwrap();
    net_run(&mut devices).unwrap();
    let mut protocols = LockableNetProtocols::new();
    net_init(&mut protocols);
    // two frames wait before the device gives its own
    NetProtocol::input_handler(&mut protocols, 0x0800, &[100, 100], 2, 0).unwrap();
    NetProtocol::input_handler(&mut protocols, 0x0800, &[101, 101], 2, 0).unwrap();
    let mut seen: Vec<Vec<u8>> = Vec::new();
    loop {
        let step = net_thread(&devices, &mut protocols, false);
        if step.action == NetThreadAction::Sleep {
            break;
        }
        for h in step.handled {
            seen.push(h.entry.data);
        }
    }
    assert_eq!(
        seen,
        vec![vec![100, 100], vec![101, 101], vec![0; 3], vec![1; 3], vec![2; 3], vec![3; 3]]
    );
}

#[test]
fn net_poll_takes_one_frame_of_each_device() {
    let mut devices = LockableNetDevices::new();
    NetDevice::register(&mut devices, wired("eth0", vec![(0x0800, vec![1]), (0x0800, vec![2])])).unwrap();
    NetDevice::register(&mut devices, wired("eth1", vec![(0x0806, vec![3])])).unwrap();
    NetDevice::register(&mut devices, wired("eth2", vec![])).unwrap();
    net_run(&mut devices).unwrap();
    let mut protocols = LockableNetProtocols::new();
    NetProtocol::register(&mut protocols, 0x0800, ProtocolHandlerType::Ip).unwrap();
    NetProtocol::register(&mut protocols, 0x0806, ProtocolHandlerType::Ip).unwrap();
    assert_eq!(net_poll(&devices, &mut protocols), 2);
    assert_eq!(protocols.items[0].queue.len(), 1);
    assert_eq!(protocols.items[0].queue[0].dev, 0);
    assert_eq!(protocols.items[0].queue[0].data, vec![1]);
    assert_eq!(protocols.items[1].queue.len(), 1);
    assert_eq!(protocols.items[1].queue[0].dev, 1);
    assert_eq!(net_poll(&devices, &mut protocols), 1);
    assert_eq!(protocols.items[0].queue.len(), 2);
    assert_eq!(net_poll(&devices, &mut protocols), 0);
}
