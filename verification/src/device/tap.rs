//! The tap device: what the stack computes for it. The host opens the
//! character device and reads and writes frames; the requests that it makes
//! and the frames that it gets are prepared and taken apart here.

use vstd::prelude::*;
use vstd::slice::{slice_subrange, slice_to_vec};
use vstd::string::StringSliceAdditionalSpecFns;

use crate::ethernet::{frame_type, frame_type_of, MacAddress, ETHERNET_HEADER_SIZE};
use crate::ipv4::Ipv4Address;
use crate::net::{NetDevice, NetDeviceAddress, NetDeviceFrame, NetDeviceOps, NetDriver};

verus! {

/// An interface request of the host, `ifstructs::ifreq`. Nothing is known
/// of what it holds.
#[verifier::external_type_specification]
#[verifier::external_body]
pub struct ExIfreq(ifstructs::ifreq);

/// The longest name of an interface, the closing zero byte included.
pub const INTERFACE_NAME_SIZE: usize = 16;

/// The flags of the request that makes a tap device: link-layer frames,
/// without a packet-information prefix.
pub const TAP_FLAGS: i16 = 0x1002;

/// The largest number of bytes that a tap device transmits at once.
pub const TAP_MTU: u16 = 1500;

/// The type word of a tap device: the Ethernet kind, with the number of IPv4.
pub const TAP_DEVICE_TYPE: u16 = 0x0802;

/// The flags of a tap device that is not open: it reaches all stations,
/// and needs their link addresses resolved.
pub const TAP_DEVICE_FLAGS: u16 = 0x0120;

/// Whether an interface can have the name: it holds no zero byte, and has
/// room for the closing one.
pub open spec fn interface_name_fits(name: Seq<u8>) -> bool {
    &&& name.len() < INTERFACE_NAME_SIZE
    &&& forall|i: int| 0 <= i < name.len() ==> name[i] != 0
}

/// `libc::IFF_TAP`, the flag that asks for link-layer frames. Its value is
/// taken on trust from the header of the host.
#[verifier::external_body]
fn iff_tap() -> (flag: i32)
    ensures
        flag == 0x0002,
{
    libc::IFF_TAP
}

/// `libc::IFF_NO_PI`, the flag that asks for frames without a prefix. Its
/// value is taken on trust from the header of the host.
#[verifier::external_body]
fn iff_no_pi() -> (flag: i32)
    ensures
        flag == 0x1000,
{
    libc::IFF_NO_PI
}

/// `ifstructs::ifreq::from_name`: a request, zero but for the name. It is
/// taken on trust that the call fails exactly where the name holds a zero
/// byte or, with its closing zero byte, is longer than `libc::IFNAMSIZ`,
/// which is 16.
#[verifier::external_body]
fn ifreq_from_name(name: &str) -> (request: Option<ifstructs::ifreq>)
    ensures
        request is Some <==> interface_name_fits(name.spec_bytes()),
{
    ifstructs::ifreq::from_name(name).ok()
}

/// `ifstructs::ifreq::set_flags`: stores the flags in the request. Nothing
/// is claimed of it.
#[verifier::external_body]
fn ifreq_set_flags(request: &mut ifstructs::ifreq, flags: i16) {
    request.set_flags(flags);
}

/// A tap device of the host that is open.
#[derive(Debug)]
pub struct Tap {
    /// The descriptor that the host gave.
    pub fd: i32,
    pub name: String,
    pub ip_address: Ipv4Address,
    pub mac_address: MacAddress,
}

impl Tap {
    /// The flags of the request that makes a tap device.
    pub fn flags() -> (flags: i16)
        ensures
            flags == TAP_FLAGS,
    {
        let tap: i32 = iff_tap();
        let no_pi: i32 = iff_no_pi();
        assert(0x0002i32 | 0x1000i32 == 0x1002i32) by (bit_vector);
        (tap | no_pi) as i16
    }

    /// The request that makes the tap device `tap_name`, for the host to
    /// hand to the character device. There is none where an interface
    /// cannot have the name.
    pub fn request(tap_name: &str) -> (request: Option<ifstructs::ifreq>)
        ensures
            request is Some <==> interface_name_fits(tap_name.spec_bytes()),
    {
        match ifreq_from_name(tap_name) {
            None => None,
            Some(request) => {
                let mut request = request;
                ifreq_set_flags(&mut request, Tap::flags());
                Some(request)
            },
        }
    }

    /// The tap device `tap_name` that the host has opened as `fd`, with
    /// the addresses that a tap device has: 192.0.2.2 and 00:00:5e:00:53:ff.
    pub fn opened(fd: i32, tap_name: &str) -> (tap: Tap)
        ensures
            tap.fd == fd,
            tap.name@ == tap_name@,
            tap.ip_address.bytes() == seq![192u8, 0u8, 2u8, 2u8],
            tap.mac_address.bytes() == seq![0x00u8, 0x00u8, 0x5eu8, 0x00u8, 0x53u8, 0xffu8],
    {
        let ip_address = Ipv4Address([192, 0, 2, 2]);
        let mac_address = MacAddress([0x00, 0x00, 0x5e, 0x00, 0x53, 0xff]);
        assert(ip_address.bytes() =~= seq![192u8, 0u8, 2u8, 2u8]);
        assert(mac_address.bytes() =~= seq![0x00u8, 0x00u8, 0x5eu8, 0x00u8, 0x53u8, 0xffu8]);
        Tap { fd, name: tap_name.to_owned(), ip_address, mac_address }
    }

    /// Whether `dev` is a tap device as `device` makes it: not open, an
    /// Ethernet device with the link address 00:00:5e:00:53:ff and no
    /// interface, whose driver supplies all four callbacks.
    pub open spec fn made(dev: NetDevice) -> bool {
        &&& dev.device_type == TAP_DEVICE_TYPE
        &&& dev.mtu == TAP_MTU
        &&& dev.flags == TAP_DEVICE_FLAGS
        &&& dev.header_length == ETHERNET_HEADER_SIZE
        &&& dev.address_length == 6
        &&& dev.hwaddr@ == seq![
            0x00u8,
            0x00u8,
            0x5eu8,
            0x00u8,
            0x53u8,
            0xffu8,
            0u8,
            0u8,
            0u8,
            0u8,
            0u8,
            0u8,
            0u8,
            0u8,
            0u8,
            0u8,
        ]
        &&& dev.pb matches NetDeviceAddress::Broadcast(all)
        &&& forall|i: int| 0 <= i < 16 ==> all[i] == if i < 6 {
            0xffu8
        } else {
            0u8
        }
        &&& dev.interfaces@.len() == 0
        &&& dev.ops.open
        &&& dev.ops.close
        &&& dev.ops.transmit
        &&& dev.ops.poll
        &&& !dev.spec_is_up()
    }

    /// A tap device of the given name with the given driver, not open and
    /// not registered.
    pub fn device<D: NetDriver + 'static>(tap_name: &str, driver: D) -> (dev: NetDevice)
        ensures
            Self::made(dev),
            dev.name@ == tap_name@,
            dev.index == 0,
            !dev.spec_is_up(),
    {
        assert(0x0120u16 & 0x0001 == 0) by (bit_vector);
        let hwaddr: [u8; 16] = [0x00, 0x00, 0x5e, 0x00, 0x53, 0xff, 0, 0, 0, 0, 0, 0, 0, 0, 0, 0];
        assert(hwaddr@ =~= seq![
            0x00u8,
            0x00u8,
            0x5eu8,
            0x00u8,
            0x53u8,
            0xffu8,
            0u8,
            0u8,
            0u8,
            0u8,
            0u8,
            0u8,
            0u8,
            0u8,
            0u8,
            0u8,
        ]);
        NetDevice {
            index: 0,
            name: tap_name.to_owned(),
            device_type: TAP_DEVICE_TYPE,
            mtu: TAP_MTU,
            flags: TAP_DEVICE_FLAGS,
            header_length: 14,
            address_length: 6,
            hwaddr,
            pb: NetDeviceAddress::Broadcast(
                [0xff, 0xff, 0xff, 0xff, 0xff, 0xff, 0, 0, 0, 0, 0, 0, 0, 0, 0, 0],
            ),
            ops: NetDeviceOps {
                open: true,
                close: true,
                transmit: true,
                poll: true,
                driver: Box::new(driver),
            },
            interfaces: Vec::new(),
        }
    }

    /// What a read of `count` bytes into `buffer` gave: an Ethernet frame,
    /// of which the number of the protocol and the payload are handed on.
    /// A read that failed, or gave less than a header, gave no frame.
    pub open spec fn frame_of(buffer: Seq<u8>, count: isize) -> Option<(u16, Seq<u8>)> {
        if ETHERNET_HEADER_SIZE <= count <= buffer.len() {
            Some(
                (
                    frame_type_of(buffer.take(count as int)).unwrap(),
                    buffer.subrange(ETHERNET_HEADER_SIZE as int, count as int),
                ),
            )
        } else {
            None
        }
    }

    /// Takes apart what the host has read from the device: `count` is the
    /// result of the read, the number of bytes that it put into `buffer`,
    /// or -1.
    pub fn received(buffer: &[u8], count: isize) -> (frame: Option<NetDeviceFrame>)
        ensures
            frame is Some <==> Self::frame_of(buffer@, count) is Some,
            frame matches Some(f) ==> Self::frame_of(buffer@, count) == Some(
                (f.protocol_type, f.data@),
            ),
    {
        if count < 0 {
            return None;
        }
        let size: usize = count as usize;
        if size > buffer.len() || size < ETHERNET_HEADER_SIZE {
            return None;
        }
        let whole: &[u8] = slice_subrange(buffer, 0, size);
        match frame_type(whole) {
            None => None,
            Some(protocol_type) => {
                let data: Vec<u8> = slice_to_vec(
                    slice_subrange(buffer, ETHERNET_HEADER_SIZE, size),
                );
                Some(NetDeviceFrame { protocol_type, data })
            },
        }
    }
}

} // verus!
