//! The null device: what is sent to it is gone.

use vstd::prelude::*;

use crate::net::{
    LockableNetDevices, NetDevice, NetDeviceAddress, NetDeviceError, NetDeviceErrorKind,
    NetDeviceFrame, NetDeviceOps, NetDriver,
};

verus! {

/// The largest number of bytes that a null device transmits at once.
pub const NULL_MTU: u16 = 65535;

/// The type word of a null device: the null kind, with the number of IPv4.
pub const NULL_DEVICE_TYPE: u16 = 0x0800;

/// The driver of the null device.
pub struct Null();

impl NetDriver for Null {
    open spec fn may_open(&self, status: isize) -> bool {
        status == 0
    }

    open spec fn may_close(&self, status: isize) -> bool {
        status == 0
    }

    /// A transmission leaves the destination buffer as it was, and succeeds.
    open spec fn may_transmit(
        &self,
        protocol_type: u16,
        data: Seq<u8>,
        size: usize,
        dst: Seq<u8>,
        sent: Seq<u8>,
        status: isize,
    ) -> bool {
        status == 0 && sent == dst
    }

    /// A poll gives no frame.
    open spec fn may_poll(&self, frame: Option<(u16, Seq<u8>)>) -> bool {
        frame is None
    }

    fn open(&self) -> (status: isize) {
        0
    }

    fn close(&self) -> (status: isize) {
        0
    }

    fn transmit(&self, protocol_type: u16, data: &[u8], size: usize, dst: &mut [u8]) -> (status:
        isize) {
        0
    }

    fn poll(&self) -> (frame: Option<NetDeviceFrame>) {
        None
    }
}

impl Null {
    /// Whether `dev` is a null device, open or not: its driver supplies
    /// the transmit callback alone, which discards, and its MTU is that of
    /// a null device.
    pub open spec fn drives(dev: NetDevice) -> bool {
        &&& dev.mtu == NULL_MTU
        &&& !dev.ops.open
        &&& !dev.ops.close
        &&& dev.ops.transmit
        &&& !dev.ops.poll
        &&& forall|
            protocol_type: u16,
            data: Seq<u8>,
            size: usize,
            dst: Seq<u8>,
            sent: Seq<u8>,
            status: isize,
        |
            #[trigger] dev.ops.driver.may_transmit(protocol_type, data, size, dst, sent, status)
                == (status == 0 && sent == dst)
    }

    /// Whether `dev` is a null device as `new` makes it: not open, with
    /// no address and no interface.
    pub open spec fn made(dev: NetDevice) -> bool {
        &&& Self::drives(dev)
        &&& dev.name@ == "null"@
        &&& dev.device_type == NULL_DEVICE_TYPE
        &&& dev.flags == 0
        &&& dev.header_length == 0
        &&& dev.address_length == 0
        &&& forall|i: int| 0 <= i < 16 ==> dev.hwaddr[i] == 0
        &&& dev.pb matches NetDeviceAddress::Peer(peer)
        &&& forall|i: int| 0 <= i < 16 ==> peer[i] == 0
        &&& dev.interfaces@.len() == 0
        &&& !dev.spec_is_up()
    }

    /// A null device, not open and not registered.
    pub fn new() -> (dev: NetDevice)
        ensures
            Self::made(dev),
            dev.index == 0,
            !dev.spec_is_up(),
    {
        assert(0u16 & 0x0001 == 0) by (bit_vector);
        NetDevice {
            index: 0,
            name: "null".to_owned(),
            device_type: NULL_DEVICE_TYPE,
            mtu: NULL_MTU,
            flags: 0,
            header_length: 0,
            address_length: 0,
            hwaddr: [0; 16],
            pb: NetDeviceAddress::Peer([0; 16]),
            ops: NetDeviceOps {
                open: false,
                close: false,
                transmit: true,
                poll: false,
                driver: Box::new(Null()),
            },
            interfaces: Vec::new(),
        }
    }

    /// Registers a null device, and returns its place in the table.
    /// Fails where a device of that name is in the table.
    pub fn init(devices: &mut LockableNetDevices) -> (r: Result<usize, NetDeviceError>)
        ensures
            exists|dev: NetDevice|
                Self::made(dev) && #[trigger] NetDevice::registers(
                    old(devices).items@,
                    dev,
                    final(devices).items@,
                    r,
                ),
            old(devices).wf() ==> final(devices).wf(),
    {
        let null_dev = Null::new();
        NetDevice::register(devices, null_dev)
    }
}

/// On a null device that is up, every output within the MTU succeeds, and
/// none else; the destination buffer stays as it was.
pub proof fn lemma_null_output(
    dev: NetDevice,
    protocol_type: u16,
    data: Seq<u8>,
    size: usize,
    dst: Seq<u8>,
    sent: Seq<u8>,
    r: Result<(), NetDeviceError>,
)
    requires
        Null::drives(dev),
        dev.outputs(protocol_type, data, size, dst, sent, r),
    ensures
        r is Ok <==> dev.spec_is_up() && size <= dev.mtu,
        sent == dst,
{
    if dev.spec_is_up() && size <= dev.mtu {
        let status = choose|status: isize|
            {
                &&& #[trigger] dev.transmit_status(protocol_type, data, size, dst, sent, status)
                &&& r == NetDeviceError::check(status, NetDeviceErrorKind::TransmitError)
            };
        assert(dev.ops.driver.may_transmit(protocol_type, data, size, dst, sent, status));
    }
}

/// A null device stays one when it is opened or closed, when it gets
/// its place in the table, and when an interface is attached to it: through
/// whatever changes its flags, its index and its interfaces alone.
pub proof fn lemma_null_stays(before: NetDevice, after: NetDevice)
    requires
        Null::drives(before),
        after == (NetDevice {
            index: after.index,
            flags: after.flags,
            interfaces: after.interfaces,
            ..before
        }),
    ensures
        Null::drives(after),
{
}

} // verus!
