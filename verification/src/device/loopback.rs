//! The loopback device: what is sent to it arrives where it was sent.

use vstd::prelude::*;

use crate::net::{
    LockableNetDevices, NetDevice, NetDeviceAddress, NetDeviceError, NetDeviceErrorKind,
    NetDeviceFrame, NetDeviceOps, NetDriver,
};

verus! {

/// The largest number of bytes that a loopback device transmits at once.
pub const LOOPBACK_MTU: u16 = 65535;

/// The type word of a loopback device: the loopback kind, with the number of IPv4.
pub const LOOPBACK_DEVICE_TYPE: u16 = 0x0801;

/// The flags of a loopback device that is not open: the loopback bit.
pub const LOOPBACK_FLAGS: u16 = 0x0010;

/// The driver of the loopback device.
pub struct Loopback();

/// What a transmission of `size` bytes on the loopback device does. Where
/// both buffers hold `size` bytes, the first `size` bytes of the destination
/// become those of `data`, the rest of it stays, and the status is `size`;
/// otherwise nothing is copied and the status is -1.
pub open spec fn loopback_transmit(
    data: Seq<u8>,
    size: usize,
    dst: Seq<u8>,
    sent: Seq<u8>,
    status: isize,
) -> bool {
    if size <= data.len() && size <= dst.len() && size <= isize::MAX {
        &&& status == size
        &&& sent == data.take(size as int) + dst.skip(size as int)
    } else {
        &&& status == -1
        &&& sent == dst
    }
}

impl NetDriver for Loopback {
    open spec fn may_open(&self, status: isize) -> bool {
        status == 0
    }

    open spec fn may_close(&self, status: isize) -> bool {
        status == 0
    }

    open spec fn may_transmit(
        &self,
        protocol_type: u16,
        data: Seq<u8>,
        size: usize,
        dst: Seq<u8>,
        sent: Seq<u8>,
        status: isize,
    ) -> bool {
        loopback_transmit(data, size, dst, sent, status)
    }

    /// A poll gives no frame.
    open spec fn may_poll(&self, frame: Option<(u16, Seq<u8>)>) -> bool {
        frame is None
    }

    fn open(&self) -> (status: isize) {
        0
    }

    fn close(&self) -> (status: isize) {
        0
    }

    fn transmit(&self, protocol_type: u16, data: &[u8], size: usize, dst: &mut [u8]) -> (status:
        isize) {
        if size > data.len() || size > dst.len() || size > isize::MAX as usize {
            return -1;
        }
        let mut i: usize = 0;
        while i < size
            invariant
                i <= size,
                size <= data@.len(),
                size <= dst@.len(),
                dst@.len() == old(dst)@.len(),
                forall|k: int| 0 <= k < i ==> dst@[k] == data@[k],
                forall|k: int| i <= k < dst@.len() ==> dst@[k] == old(dst)@[k],
            decreases size - i,
        {
            dst[i] = data[i];
            i = i + 1;
        }
        assert(dst@ =~= data@.take(size as int) + old(dst)@.skip(size as int));
        size as isize
    }

    fn poll(&self) -> (frame: Option<NetDeviceFrame>) {
        None
    }
}

impl Loopback {
    /// Whether `dev` is a loopback device, open or not: its driver supplies
    /// the transmit callback alone, which copies, and its MTU is that of
    /// a loopback device.
    pub open spec fn drives(dev: NetDevice) -> bool {
        &&& dev.mtu == LOOPBACK_MTU
        &&& !dev.ops.open
        &&& !dev.ops.close
        &&& dev.ops.transmit
        &&& !dev.ops.poll
        &&& forall|
            protocol_type: u16,
            data: Seq<u8>,
            size: usize,
            dst: Seq<u8>,
            sent: Seq<u8>,
            status: isize,
        |
            #[trigger] dev.ops.driver.may_transmit(protocol_type, data, size, dst, sent, status)
                == loopback_transmit(data, size, dst, sent, status)
    }

    /// Whether `dev` is a loopback device as `new` makes it: not open, with
    /// no address and no interface.
    pub open spec fn made(dev: NetDevice) -> bool {
        &&& Self::drives(dev)
        &&& dev.name@ == "loopback"@
        &&& dev.device_type == LOOPBACK_DEVICE_TYPE
        &&& dev.flags == LOOPBACK_FLAGS
        &&& dev.header_length == 0
        &&& dev.address_length == 0
        &&& forall|i: int| 0 <= i < 16 ==> dev.hwaddr[i] == 0
        &&& dev.pb matches NetDeviceAddress::Peer(peer)
        &&& forall|i: int| 0 <= i < 16 ==> peer[i] == 0
        &&& dev.interfaces@.len() == 0
        &&& !dev.spec_is_up()
    }

    /// A loopback device, not open and not registered.
    pub fn new() -> (dev: NetDevice)
        ensures
            Self::made(dev),
            dev.index == 0,
            !dev.spec_is_up(),
    {
        assert(0x0010u16 & 0x0001 == 0) by (bit_vector);
        NetDevice {
            index: 0,
            name: "loopback".to_owned(),
            device_type: LOOPBACK_DEVICE_TYPE,
            mtu: LOOPBACK_MTU,
            flags: LOOPBACK_FLAGS,
            header_length: 0,
            address_length: 0,
            hwaddr: [0; 16],
            pb: NetDeviceAddress::Peer([0; 16]),
            ops: NetDeviceOps {
                open: false,
                close: false,
                transmit: true,
                poll: false,
                driver: Box::new(Loopback()),
            },
            interfaces: Vec::new(),
        }
    }

    /// Registers a loopback device, and returns its place in the table.
    /// Fails where a device of that name is in the table.
    pub fn init(devices: &mut LockableNetDevices) -> (r: Result<usize, NetDeviceError>)
        ensures
            exists|dev: NetDevice|
                Self::made(dev) && #[trigger] NetDevice::registers(
                    old(devices).items@,
                    dev,
                    final(devices).items@,
                    r,
                ),
            old(devices).wf() ==> final(devices).wf(),
    {
        let loopback_dev = Loopback::new();
        NetDevice::register(devices, loopback_dev)
    }
}

/// On a loopback device that is up, an output within the MTU and within
/// both buffers succeeds, and none else; after a success the destination
/// buffer holds the bytes that were sent, one for one.
pub proof fn lemma_loopback_output(
    dev: NetDevice,
    protocol_type: u16,
    data: Seq<u8>,
    size: usize,
    dst: Seq<u8>,
    sent: Seq<u8>,
    r: Result<(), NetDeviceError>,
)
    requires
        Loopback::drives(dev),
        dev.outputs(protocol_type, data, size, dst, sent, r),
    ensures
        r is Ok <==> dev.spec_is_up() && size <= dev.mtu && size <= data.len() && size
            <= dst.len(),
        r is Ok ==> sent.len() == dst.len() && sent.take(size as int) == data.take(size as int)
            && sent.skip(size as int) == dst.skip(size as int),
        r is Err ==> sent == dst,
{
    if dev.spec_is_up() && size <= dev.mtu {
        let status = choose|status: isize|
            {
                &&& #[trigger] dev.transmit_status(protocol_type, data, size, dst, sent, status)
                &&& r == NetDeviceError::check(status, NetDeviceErrorKind::TransmitError)
            };
        assert(dev.ops.driver.may_transmit(protocol_type, data, size, dst, sent, status));
        assert(loopback_transmit(data, size, dst, sent, status));
        if r is Ok {
            assert(sent.take(size as int) =~= data.take(size as int));
            assert(sent.skip(size as int) =~= dst.skip(size as int));
        }
    }
}

/// A loopback device stays one when it is opened or closed, when it gets
/// its place in the table, and when an interface is attached to it: through
/// whatever changes its flags, its index and its interfaces alone.
pub proof fn lemma_loopback_stays(before: NetDevice, after: NetDevice)
    requires
        Loopback::drives(before),
        after == (NetDevice {
            index: after.index,
            flags: after.flags,
            interfaces: after.interfaces,
            ..before
        }),
    ensures
        Loopback::drives(after),
{
}

} // verus!
