//! Network devices and protocols: the device table, the protocol table with
//! its queues, and the worker that moves frames from the one to the other.
//!
//! Nothing here is shared behind the caller's back. Each table is a value
//! that the caller owns; exclusive access to it stands for holding its lock,
//! and a host that runs the worker beside other threads keeps the tables
//! behind a mutex of its own.

use std::collections::VecDeque;
use vstd::prelude::*;

use crate::ipv4::{init, input, input_verdict, IpInterface, Ipv4Error, Ipv4Header};

verus! {

/// The number of bytes that a device keeps for a link address.
pub const HARDWARE_ADDRESS_LENGTH: usize = 16;

/// The protocols that a frame can carry, by their 16-bit number.
#[derive(Debug, Clone, Copy, PartialEq, Eq, Structural)]
pub enum NetProtocolType {
    Ip,
    Arp,
    Ipv6,
    Unknown,
}

impl NetProtocolType {
    /// The protocol of the number `u`.
    pub open spec fn of_u16(u: u16) -> NetProtocolType {
        if u == 0x0800 {
            NetProtocolType::Ip
        } else if u == 0x0806 {
            NetProtocolType::Arp
        } else if u == 0x86dd {
            NetProtocolType::Ipv6
        } else {
            NetProtocolType::Unknown
        }
    }

    /// The number of the protocol; that of an unknown protocol is the
    /// number behind the last known one.
    pub open spec fn number(self) -> u16 {
        match self {
            NetProtocolType::Ip => 0x0800,
            NetProtocolType::Arp => 0x0806,
            NetProtocolType::Ipv6 => 0x86dd,
            NetProtocolType::Unknown => 0x86de,
        }
    }

    /// The name of the protocol.
    pub open spec fn name(self) -> Seq<char> {
        match self {
            NetProtocolType::Ip => "IPv4"@,
            NetProtocolType::Arp => "ARP"@,
            NetProtocolType::Ipv6 => "IPv6"@,
            NetProtocolType::Unknown => "Unknown"@,
        }
    }

    /// The protocol of the number `u`.
    pub fn from_u16(u: u16) -> (t: NetProtocolType)
        ensures
            t == Self::of_u16(u),
    {
        if u == 0x0800 {
            NetProtocolType::Ip
        } else if u == 0x0806 {
            NetProtocolType::Arp
        } else if u == 0x86dd {
            NetProtocolType::Ipv6
        } else {
            NetProtocolType::Unknown
        }
    }

    /// The number of the protocol.
    pub fn to_u16(&self) -> (u: u16)
        ensures
            u == self.number(),
    {
        match self {
            NetProtocolType::Ip => 0x0800,
            NetProtocolType::Arp => 0x0806,
            NetProtocolType::Ipv6 => 0x86dd,
            NetProtocolType::Unknown => 0x86de,
        }
    }

    /// The name of the protocol.
    pub fn to_string(&self) -> (s: String)
        ensures
            s@ == self.name(),
    {
        match self {
            NetProtocolType::Ip => "IPv4".to_owned(),
            NetProtocolType::Arp => "ARP".to_owned(),
            NetProtocolType::Ipv6 => "IPv6".to_owned(),
            NetProtocolType::Unknown => "Unknown".to_owned(),
        }
    }
}

/// A protocol's number names the protocol.
pub proof fn lemma_protocol_type_round_trip(t: NetProtocolType)
    ensures
        NetProtocolType::of_u16(t.number()) == t,
{
}

/// The kinds of device.
#[derive(Debug, Clone, Copy, PartialEq, Eq, Structural)]
pub enum NetDeviceType {
    Null,
    Loopback,
    Ethernet,
    Unknown,
}

impl NetDeviceType {
    /// The kind that the two lowest bits of a device's type word name.
    pub open spec fn of_u16(u: u16) -> NetDeviceType {
        if u & 0b11 == 0 {
            NetDeviceType::Null
        } else if u & 0b11 == 1 {
            NetDeviceType::Loopback
        } else if u & 0b11 == 2 {
            NetDeviceType::Ethernet
        } else {
            NetDeviceType::Unknown
        }
    }

    /// The number of the kind.
    pub open spec fn number(self) -> u16 {
        match self {
            NetDeviceType::Null => 0,
            NetDeviceType::Loopback => 1,
            NetDeviceType::Ethernet => 2,
            NetDeviceType::Unknown => 3,
        }
    }

    /// The name of the kind.
    pub open spec fn name(self) -> Seq<char> {
        match self {
            NetDeviceType::Null => "Null"@,
            NetDeviceType::Loopback => "Loopback"@,
            NetDeviceType::Ethernet => "Ethernet"@,
            NetDeviceType::Unknown => "Unknown"@,
        }
    }

    /// The kind that the two lowest bits of `u` name.
    pub fn from_u16(u: u16) -> (t: NetDeviceType)
        ensures
            t == Self::of_u16(u),
    {
        let low: u16 = u & 0b11;
        if low == 0 {
            NetDeviceType::Null
        } else if low == 1 {
            NetDeviceType::Loopback
        } else if low == 2 {
            NetDeviceType::Ethernet
        } else {
            NetDeviceType::Unknown
        }
    }

    /// The number of the kind.
    pub fn to_u16(&self) -> (u: u16)
        ensures
            u == self.number(),
    {
        match self {
            NetDeviceType::Null => 0,
            NetDeviceType::Loopback => 1,
            NetDeviceType::Ethernet => 2,
            NetDeviceType::Unknown => 3,
        }
    }

    /// The name of the kind.
    pub fn to_string(&self) -> (s: String)
        ensures
            s@ == self.name(),
    {
        match self {
            NetDeviceType::Null => "Null".to_owned(),
            NetDeviceType::Loopback => "Loopback".to_owned(),
            NetDeviceType::Ethernet => "Ethernet".to_owned(),
            NetDeviceType::Unknown => "Unknown".to_owned(),
        }
    }
}

/// A device kind's number names the kind, also where the number of IPv4
/// shares the type word with it.
pub proof fn lemma_device_type_round_trip(t: NetDeviceType)
    ensures
        NetDeviceType::of_u16(t.number()) == t,
        NetDeviceType::of_u16(t.number() | 0x0800) == t,
{
    let tn = t.number();
    assert(tn <= 3 ==> (tn & 0b11 == tn) && ((tn | 0x0800) & 0b11 == tn)) by (bit_vector);
}

/// The bits of a device's flags.
#[derive(Debug, Clone, Copy, PartialEq, Eq, Structural)]
pub enum NetDeviceFlag {
    Up,
    Loopback,
    Broadcast,
    P2P,
    NeedArp,
}

/// The bit that says that a device is open.
pub const NET_DEVICE_FLAG_UP: u16 = 0x0001;

impl NetDeviceFlag {
    /// The bit of the flag.
    pub open spec fn bit(self) -> u16 {
        match self {
            NetDeviceFlag::Up => 0x0001,
            NetDeviceFlag::Loopback => 0x0010,
            NetDeviceFlag::Broadcast => 0x0020,
            NetDeviceFlag::P2P => 0x0040,
            NetDeviceFlag::NeedArp => 0x0100,
        }
    }

    /// The bit of the flag.
    pub fn to_u16(&self) -> (u: u16)
        ensures
            u == self.bit(),
    {
        match self {
            NetDeviceFlag::Up => 0x0001,
            NetDeviceFlag::Loopback => 0x0010,
            NetDeviceFlag::Broadcast => 0x0020,
            NetDeviceFlag::P2P => 0x0040,
            NetDeviceFlag::NeedArp => 0x0100,
        }
    }
}

/// The address at the other end of a device: that of its one peer, or that
/// which reaches all stations.
#[derive(Debug, Clone, Copy)]
pub enum NetDeviceAddress {
    Peer([u8; 16]),
    Broadcast([u8; 16]),
}

/// Why an operation on a device failed.
#[derive(Debug, Clone, Copy, PartialEq, Eq, Structural)]
pub enum NetDeviceErrorKind {
    AlreadyUp,
    AlreadyDown,
    NotOpen,
    OpenError,
    CloseError,
    TransmitError,
    DataSizeTooBig,
    AlreadyRegistered,
}

/// A failed operation on a device.
#[derive(Debug, Clone, Copy, PartialEq, Eq, Structural)]
pub struct NetDeviceError {
    pub kind: NetDeviceErrorKind,
}

impl NetDeviceError {
    /// The error of the given kind.
    pub open spec fn of(kind: NetDeviceErrorKind) -> NetDeviceError {
        NetDeviceError { kind }
    }

    /// What a driver's status means to the caller: -1 is a failure of the
    /// given kind, anything else a success.
    pub open spec fn check(status: isize, kind: NetDeviceErrorKind) -> Result<(), NetDeviceError> {
        if status == -1 {
            Err(NetDeviceError::of(kind))
        } else {
            Ok(())
        }
    }

    /// The error of the given kind.
    pub fn new(kind: NetDeviceErrorKind) -> (e: Self)
        ensures
            e == Self::of(kind),
    {
        Self { kind }
    }

    /// Turns the status that a driver's callback returned into a result.
    pub fn from_status(status: isize, kind: NetDeviceErrorKind) -> (r: Result<(), NetDeviceError>)
        ensures
            r == Self::check(status, kind),
    {
        if status == -1 {
            Err(NetDeviceError::new(kind))
        } else {
            Ok(())
        }
    }
}

/// A frame that a device has received: the number of its protocol, and its
/// bytes.
pub struct NetDeviceFrame {
    pub protocol_type: u16,
    pub data: Vec<u8>,
}

impl View for NetDeviceFrame {
    type V = (u16, Seq<u8>);

    open spec fn view(&self) -> (u16, Seq<u8>) {
        (self.protocol_type, self.data@)
    }
}

/// What a poll gave, by its view.
pub open spec fn frame_view(frame: Option<NetDeviceFrame>) -> Option<(u16, Seq<u8>)> {
    match frame {
        Some(f) => Some(f@),
        None => None,
    }
}

/// The callbacks of a device driver. Each returns a status, -1 for failure
/// and zero or more for success.
///
/// A driver states which statuses its callbacks can return, what a
/// transmission does to the destination buffer, and which frames a poll can
/// give; a driver that states nothing promises nothing. A driver can move
/// to another thread with its device.
pub trait NetDriver: Send {
    /// Whether `open` can return `status`.
    open spec fn may_open(&self, status: isize) -> bool {
        true
    }

    /// Whether `close` can return `status`.
    open spec fn may_close(&self, status: isize) -> bool {
        true
    }

    /// Whether `transmit`, called with a destination buffer that holds
    /// `dst`, can leave `sent` in it and return `status`.
    open spec fn may_transmit(
        &self,
        protocol_type: u16,
        data: Seq<u8>,
        size: usize,
        dst: Seq<u8>,
        sent: Seq<u8>,
        status: isize,
    ) -> bool {
        true
    }

    /// Whether `poll` can give `frame`.
    open spec fn may_poll(&self, frame: Option<(u16, Seq<u8>)>) -> bool {
        true
    }

    /// Acquires what the device needs to run.
    fn open(&self) -> (status: isize)
        ensures
            self.may_open(status),
    ;

    /// Releases what `open` acquired.
    fn close(&self) -> (status: isize)
        ensures
            self.may_close(status),
    ;

    /// Sends the first `size` bytes of `data` under the protocol
    /// `protocol_type` to `dst`, and returns how many bytes were sent.
    fn transmit(&self, protocol_type: u16, data: &[u8], size: usize, dst: &mut [u8]) -> (status:
        isize)
        ensures
            self.may_transmit(protocol_type, data@, size, old(dst)@, final(dst)@, status),
    ;

    /// Looks for a received frame, without waiting long.
    fn poll(&self) -> (frame: Option<NetDeviceFrame>)
        ensures
            self.may_poll(frame_view(frame)),
    ;
}

/// The operations of a device: its driver, and which of the four callbacks
/// the driver supplies. A callback that is not supplied is never called, and
/// counts as a success without effect.
pub struct NetDeviceOps {
    pub open: bool,
    pub close: bool,
    pub transmit: bool,
    pub poll: bool,
    pub driver: Box<dyn NetDriver>,
}

impl NetDeviceOps {
    /// The callback that does nothing, and succeeds.
    pub fn empty(_dev: &NetDevice) -> (status: isize)
        ensures
            status == 0,
    {
        0
    }
}

/// The address families of interfaces.
#[derive(Debug, Clone, Copy, PartialEq, Eq, Structural)]
pub enum NetInterfaceFamily {
    Ip,
    Ipv6,
}

/// What every interface holds: its family, and the index of the device that
/// it is attached to, once it is.
#[derive(Debug, Clone, Copy)]
pub struct NetInterface {
    pub family: NetInterfaceFamily,
    pub dev: Option<usize>,
}

impl Default for NetInterface {
    /// An IPv4 interface that is attached to no device.
    fn default() -> (interface: NetInterface)
        ensures
            interface.family == NetInterfaceFamily::Ip,
            interface.dev is None,
    {
        NetInterface { family: NetInterfaceFamily::Ip, dev: None }
    }
}

/// An interface of a device.
#[derive(Debug, Clone, Copy)]
pub enum NetInterfaceType {
    Ip(IpInterface),
}

impl NetInterfaceType {
    /// The family of the interface.
    pub open spec fn spec_family(&self) -> NetInterfaceFamily {
        match self {
            NetInterfaceType::Ip(_) => NetInterfaceFamily::Ip,
        }
    }

    /// The family of the interface.
    #[verifier::when_used_as_spec(spec_family)]
    pub fn family(&self) -> (f: NetInterfaceFamily)
        ensures
            f == self.spec_family(),
    {
        match self {
            NetInterfaceType::Ip(_) => NetInterfaceFamily::Ip,
        }
    }
}

/// The first interface of the family among `interfaces`.
pub open spec fn interface_of(interfaces: Seq<NetInterfaceType>, family: NetInterfaceFamily)
    -> Option<NetInterfaceType>
    decreases interfaces.len(),
{
    if interfaces.len() == 0 {
        None
    } else if interfaces[0].spec_family() == family {
        Some(interfaces[0])
    } else {
        interface_of(interfaces.skip(1), family)
    }
}

/// A network device.
pub struct NetDevice {
    /// The place of the device in the table that it is registered in.
    pub index: usize,
    pub name: String,
    /// The kind of the device in the two lowest bits, see `NetDeviceType`.
    pub device_type: u16,
    /// The largest number of bytes that the device transmits at once.
    pub mtu: u16,
    /// The bits of `NetDeviceFlag`.
    pub flags: u16,
    pub header_length: u16,
    pub address_length: u16,
    pub hwaddr: [u8; 16],
    pub pb: NetDeviceAddress,
    pub ops: NetDeviceOps,
    pub interfaces: Vec<NetInterfaceType>,
}

impl NetDevice {
    /// Whether the device is open.
    pub open spec fn spec_is_up(&self) -> bool {
        self.flags & NET_DEVICE_FLAG_UP != 0
    }

    /// The device with other flags.
    pub open spec fn with_flags(self, flags: u16) -> NetDevice {
        NetDevice { flags, ..self }
    }

    /// Whether `after` is the device with the interfaces `interfaces`, and
    /// otherwise as it was.
    pub open spec fn with_interfaces(self, interfaces: Seq<NetInterfaceType>, after: NetDevice)
        -> bool {
        &&& after.interfaces@ == interfaces
        &&& after == NetDevice { interfaces: after.interfaces, ..self }
    }

    /// What `add_interface` does: `after` is the device after the call that
    /// returned `r`.
    pub open spec fn adds(
        self,
        interface: NetInterfaceType,
        after: NetDevice,
        r: Result<(), NetDeviceError>,
    ) -> bool {
        if self.spec_get_interface(interface.spec_family()) is Some {
            &&& r == Err::<(), NetDeviceError>(
                NetDeviceError::of(NetDeviceErrorKind::AlreadyRegistered),
            )
            &&& after == self
        } else {
            &&& r is Ok
            &&& self.with_interfaces(self.interfaces@.push(interface), after)
        }
    }

    /// Whether the driver's open callback can return `status`: zero alone
    /// where the driver supplies none.
    pub open spec fn open_status(&self, status: isize) -> bool {
        if self.ops.open {
            self.ops.driver.may_open(status)
        } else {
            status == 0
        }
    }

    /// Whether the driver's close callback can return `status`: zero alone
    /// where the driver supplies none.
    pub open spec fn close_status(&self, status: isize) -> bool {
        if self.ops.close {
            self.ops.driver.may_close(status)
        } else {
            status == 0
        }
    }

    /// Whether the driver's transmit callback can leave `sent` in a
    /// destination buffer that held `dst` and return `status`. Where the
    /// driver supplies none, the buffer stays and the status is zero.
    pub open spec fn transmit_status(
        &self,
        protocol_type: u16,
        data: Seq<u8>,
        size: usize,
        dst: Seq<u8>,
        sent: Seq<u8>,
        status: isize,
    ) -> bool {
        if self.ops.transmit {
            self.ops.driver.may_transmit(protocol_type, data, size, dst, sent, status)
        } else {
            status == 0 && sent == dst
        }
    }

    /// What `open` does: `after` is the device after the call that returned `r`.
    pub open spec fn opens(self, after: NetDevice, r: Result<(), NetDeviceError>) -> bool {
        if self.spec_is_up() {
            &&& r == Err::<(), NetDeviceError>(NetDeviceError::of(NetDeviceErrorKind::AlreadyUp))
            &&& after == self
        } else {
            exists|status: isize|
                {
                    &&& #[trigger] self.open_status(status)
                    &&& r == NetDeviceError::check(status, NetDeviceErrorKind::OpenError)
                    &&& after == if status == -1 {
                        self
                    } else {
                        self.with_flags(self.flags | NET_DEVICE_FLAG_UP)
                    }
                }
        }
    }

    /// What `close` does: `after` is the device after the call that returned `r`.
    pub open spec fn closes(self, after: NetDevice, r: Result<(), NetDeviceError>) -> bool {
        if !self.spec_is_up() {
            &&& r == Err::<(), NetDeviceError>(NetDeviceError::of(NetDeviceErrorKind::AlreadyDown))
            &&& after == self
        } else {
            exists|status: isize|
                {
                    &&& #[trigger] self.close_status(status)
                    &&& r == NetDeviceError::check(status, NetDeviceErrorKind::CloseError)
                    &&& after == if status == -1 {
                        self
                    } else {
                        self.with_flags(self.flags & !NET_DEVICE_FLAG_UP)
                    }
                }
        }
    }

    /// What `output` does: `sent` is what the destination buffer, which held
    /// `dst`, holds after the call that returned `r`.
    pub open spec fn outputs(
        self,
        protocol_type: u16,
        data: Seq<u8>,
        size: usize,
        dst: Seq<u8>,
        sent: Seq<u8>,
        r: Result<(), NetDeviceError>,
    ) -> bool {
        if !self.spec_is_up() {
            &&& r == Err::<(), NetDeviceError>(NetDeviceError::of(NetDeviceErrorKind::NotOpen))
            &&& sent == dst
        } else if size > self.mtu {
            &&& r == Err::<(), NetDeviceError>(
                NetDeviceError::of(NetDeviceErrorKind::DataSizeTooBig),
            )
            &&& sent == dst
        } else {
            exists|status: isize|
                {
                    &&& #[trigger] self.transmit_status(
                        protocol_type,
                        data,
                        size,
                        dst,
                        sent,
                        status,
                    )
                    &&& r == NetDeviceError::check(status, NetDeviceErrorKind::TransmitError)
                }
        }
    }

    /// The interface of the family that is attached to the device.
    pub open spec fn spec_get_interface(&self, family: NetInterfaceFamily) -> Option<
        NetInterfaceType,
    > {
        interface_of(self.interfaces@, family)
    }

    /// Whether the device is open.
    #[verifier::when_used_as_spec(spec_is_up)]
    pub fn is_up(&self) -> (up: bool)
        ensures
            up == self.spec_is_up(),
    {
        self.flags & NET_DEVICE_FLAG_UP != 0
    }

    /// Opens the device. A device that is up is left alone; otherwise the
    /// driver's open callback runs, and the device is up unless it fails.
    pub fn open(&mut self) -> (r: Result<(), NetDeviceError>)
        ensures
            old(self).opens(*final(self), r),
            r is Ok ==> final(self).spec_is_up(),
            r is Err ==> final(self).spec_is_up() == old(self).spec_is_up(),
    {
        if self.is_up() {
            return Err(NetDeviceError::new(NetDeviceErrorKind::AlreadyUp));
        }
        let status: isize = if self.ops.open {
            self.ops.driver.open()
        } else {
            0
        };
        assert(self.open_status(status));
        if status == -1 {
            return Err(NetDeviceError::new(NetDeviceErrorKind::OpenError));
        }
        let flags: u16 = self.flags;
        assert((flags | 0x0001) & 0x0001 != 0) by (bit_vector);
        self.flags = flags | NET_DEVICE_FLAG_UP;
        Ok(())
    }

    /// Closes the device. A device that is down is left alone; otherwise
    /// the driver's close callback runs, and the device is down unless it
    /// fails.
    pub fn close(&mut self) -> (r: Result<(), NetDeviceError>)
        ensures
            old(self).closes(*final(self), r),
            r is Ok ==> !final(self).spec_is_up(),
            r is Err ==> final(self).spec_is_up() == old(self).spec_is_up(),
    {
        if !self.is_up() {
            return Err(NetDeviceError::new(NetDeviceErrorKind::AlreadyDown));
        }
        let status: isize = if self.ops.close {
            self.ops.driver.close()
        } else {
            0
        };
        assert(self.close_status(status));
        if status == -1 {
            return Err(NetDeviceError::new(NetDeviceErrorKind::CloseError));
        }
        let flags: u16 = self.flags;
        assert((flags & !0x0001u16) & 0x0001 == 0) by (bit_vector);
        self.flags = flags & !NET_DEVICE_FLAG_UP;
        Ok(())
    }

    /// Hands the first `size` bytes of `data` to the driver for
    /// transmission to `dst`. The device must be up and `size` within its
    /// MTU; the driver is not called otherwise.
    pub fn output(&self, protocol_type: u16, data: &[u8], size: usize, dst: &mut [u8]) -> (r:
        Result<(), NetDeviceError>)
        ensures
            self.outputs(protocol_type, data@, size, old(dst)@, final(dst)@, r),
    {
        if !self.is_up() {
            return Err(NetDeviceError::new(NetDeviceErrorKind::NotOpen));
        }
        if size > self.mtu as usize {
            return Err(NetDeviceError::new(NetDeviceErrorKind::DataSizeTooBig));
        }
        let status: isize = if self.ops.transmit {
            self.ops.driver.transmit(protocol_type, data, size, dst)
        } else {
            0
        };
        assert(self.transmit_status(protocol_type, data@, size, old(dst)@, dst@, status));
        NetDeviceError::from_status(status, NetDeviceErrorKind::TransmitError)
    }

    /// The interface of the family that is attached to the device.
    #[verifier::when_used_as_spec(spec_get_interface)]
    pub fn get_interface(&self, family: NetInterfaceFamily) -> (found: Option<NetInterfaceType>)
        ensures
            found == self.spec_get_interface(family),
    {
        let mut i: usize = 0;
        assert(self.interfaces@.skip(0) == self.interfaces@);
        while i < self.interfaces.len()
            invariant
                i <= self.interfaces@.len(),
                interface_of(self.interfaces@, family) == interface_of(
                    self.interfaces@.skip(i as int),
                    family,
                ),
            decreases self.interfaces@.len() - i,
        {
            let interface: NetInterfaceType = self.interfaces[i];
            assert(self.interfaces@.skip(i as int)[0] == interface);
            if interface.family() == family {
                return Some(interface);
            }
            assert(self.interfaces@.skip(i as int).skip(1) == self.interfaces@.skip(i + 1));
            i = i + 1;
        }
        None
    }

    /// Attaches an interface to the device. A device has one interface of a
    /// family at most.
    pub fn add_interface(&mut self, interface: NetInterfaceType) -> (r: Result<(), NetDeviceError>)
        ensures
            old(self).adds(interface, *final(self), r),
    {
        if self.get_interface(interface.family()).is_some() {
            return Err(NetDeviceError::new(NetDeviceErrorKind::AlreadyRegistered));
        }
        self.interfaces.push(interface);
        Ok(())
    }
}

/// Whether a device among `items` has the name `name`.
pub open spec fn name_taken(items: Seq<NetDevice>, name: Seq<char>) -> bool {
    exists|i: int| 0 <= i < items.len() && (#[trigger] items[i]).name@ == name
}

/// The table of devices, in the order of their registration. Devices are
/// added and never removed.
pub struct LockableNetDevices {
    pub items: Vec<NetDevice>,
}

/// Exclusive access to the table of devices, for as long as the value lives.
pub struct LockedNetDevices<'a> {
    pub items: &'a mut Vec<NetDevice>,
}

impl LockableNetDevices {
    /// The table is well formed: each device knows its place, and no two
    /// devices have the same name.
    pub open spec fn wf(&self) -> bool {
        &&& forall|i: int| 0 <= i < self.items@.len() ==> (#[trigger] self.items@[i]).index == i
        &&& forall|i: int, j: int|
            0 <= i < j < self.items@.len() ==> (#[trigger] self.items@[i]).name@ != (
            #[trigger] self.items@[j]).name@
    }

    /// An empty table.
    pub fn new() -> (devices: Self)
        ensures
            devices.items@.len() == 0,
            devices.wf(),
    {
        LockableNetDevices { items: Vec::new() }
    }

    /// Takes exclusive access to the table. What is done to the devices
    /// through the returned value is done to the table.
    pub fn lock(&mut self) -> (guard: LockedNetDevices<'_>)
        ensures
            guard.items@ == old(self).items@,
            final(self).items@ == final(guard.items)@,
    {
        LockedNetDevices { items: &mut self.items }
    }
}

impl NetDevice {
    /// The device at another place in the table.
    pub open spec fn with_index(self, index: usize) -> NetDevice {
        NetDevice { index, ..self }
    }

    /// What `register` does to the table `before` when it is given `dev`.
    pub open spec fn registers(
        before: Seq<NetDevice>,
        dev: NetDevice,
        after: Seq<NetDevice>,
        r: Result<usize, NetDeviceError>,
    ) -> bool {
        if name_taken(before, dev.name@) {
            &&& r == Err::<usize, NetDeviceError>(
                NetDeviceError::of(NetDeviceErrorKind::AlreadyRegistered),
            )
            &&& after == before
        } else {
            &&& r == Ok::<usize, NetDeviceError>(before.len() as usize)
            &&& after == before.push(dev.with_index(before.len() as usize))
        }
    }

    /// Adds a device at the end of the table and returns its place there.
    /// Fails where a device of that name is in the table.
    pub fn register(devices: &mut LockableNetDevices, dev: NetDevice) -> (r: Result<
        usize,
        NetDeviceError,
    >)
        ensures
            Self::registers(old(devices).items@, dev, final(devices).items@, r),
            old(devices).wf() ==> final(devices).wf(),
    {
        let n: usize = devices.items.len();
        let mut i: usize = 0;
        while i < n
            invariant
                n == devices.items@.len(),
                i <= n,
                *devices == *old(devices),
                forall|k: int| 0 <= k < i ==> (#[trigger] devices.items@[k]).name@ != dev.name@,
            decreases n - i,
        {
            if devices.items[i].name == dev.name {
                return Err(NetDeviceError::new(NetDeviceErrorKind::AlreadyRegistered));
            }
            i = i + 1;
        }
        let mut dev = dev;
        dev.index = n;
        devices.items.push(dev);
        Ok(n)
    }
}

/// Why an operation on the protocol table failed.
#[derive(Debug, Clone, Copy, PartialEq, Eq, Structural)]
pub enum NetProtocolErrorKind {
    AlreadyRegistered,
}

/// A failed operation on the protocol table.
#[derive(Debug, Clone, Copy, PartialEq, Eq, Structural)]
pub struct NetProtocolError {
    pub kind: NetProtocolErrorKind,
}

/// The handlers that a protocol can be registered with.
#[derive(Debug, Clone, Copy, PartialEq, Eq, Structural)]
pub enum ProtocolHandlerType {
    /// The IPv4 input path, `ipv4::input`.
    Ip,
}

/// A frame that waits in a protocol's queue: the index of the device that
/// it came from, and its bytes, which the queue owns.
pub struct NetProtocolQueueEntry {
    pub dev: usize,
    pub data: Vec<u8>,
}

impl View for NetProtocolQueueEntry {
    type V = (usize, Seq<u8>);

    open spec fn view(&self) -> (usize, Seq<u8>) {
        (self.dev, self.data@)
    }
}

/// A registered protocol: its number, the frames that wait for its handler,
/// oldest first, and the handler.
pub struct NetProtocol {
    pub protocol_type: u16,
    pub queue: VecDeque<NetProtocolQueueEntry>,
    pub handler: ProtocolHandlerType,
}

/// What a handler made of a frame.
#[derive(Debug, Clone, Copy)]
pub enum HandlerResult {
    /// The frame's device is not in the table; no handler ran.
    NoDevice,
    /// The verdict of the IPv4 input path.
    Ip(Result<Option<Ipv4Header>, Ipv4Error>),
}

/// A frame that was taken from a protocol's queue and handed to the
/// protocol's handler.
pub struct NetProtocolHandled {
    pub protocol_type: u16,
    pub entry: NetProtocolQueueEntry,
    pub result: HandlerResult,
}

impl View for NetProtocolHandled {
    type V = (u16, (usize, Seq<u8>), HandlerResult);

    open spec fn view(&self) -> (u16, (usize, Seq<u8>), HandlerResult) {
        (self.protocol_type, self.entry@, self.result)
    }
}

/// What the handler `handler` makes of the frame `entry`, with the devices
/// `devices` registered.
pub open spec fn handler_result(
    handler: ProtocolHandlerType,
    entry: (usize, Seq<u8>),
    devices: Seq<NetDevice>,
) -> HandlerResult {
    if entry.0 < devices.len() {
        match handler {
            ProtocolHandlerType::Ip => HandlerResult::Ip(
                input_verdict(
                    entry.1,
                    devices[entry.0 as int].spec_get_interface(NetInterfaceFamily::Ip),
                ),
            ),
        }
    } else {
        HandlerResult::NoDevice
    }
}

impl NetProtocol {
    /// The frames that wait in the queue, oldest first.
    pub open spec fn pending(&self) -> Seq<(usize, Seq<u8>)> {
        self.queue@.map_values(|e: NetProtocolQueueEntry| e@)
    }

    /// Whether `after` is this protocol with `entry` added at the end of its queue.
    pub open spec fn enqueued(&self, entry: (usize, Seq<u8>), after: NetProtocol) -> bool {
        &&& after.protocol_type == self.protocol_type
        &&& after.handler == self.handler
        &&& after.pending() == self.pending().push(entry)
    }

    /// Whether `after` is this protocol without the oldest frame of its queue.
    pub open spec fn dequeued(&self, after: NetProtocol) -> bool {
        &&& after.protocol_type == self.protocol_type
        &&& after.handler == self.handler
        &&& after.pending() == self.pending().skip(1)
    }

    /// Takes the oldest frame from the queue, if there is one, and hands it
    /// to the handler.
    pub fn dispatch(&mut self, devices: &LockableNetDevices) -> (handled: Option<
        NetProtocolHandled,
    >)
        ensures
            old(self).pending().len() == 0 ==> handled is None && *final(self) == *old(self),
            old(self).pending().len() > 0 ==> handled is Some && old(self).dequeued(*final(self))
                && handled.unwrap()@ == (
                old(self).protocol_type,
                old(self).pending()[0],
                handler_result(old(self).handler, old(self).pending()[0], devices.items@),
            ),
    {
        if self.queue.len() == 0 {
            return None;
        }
        match self.queue.pop_front() {
            None => None,
            Some(entry) => {
                proof {
                    assert(self.pending() =~= old(self).pending().skip(1));
                }
                let result: HandlerResult = if entry.dev < devices.items.len() {
                    match self.handler {
                        ProtocolHandlerType::Ip => HandlerResult::Ip(
                            input(&entry.data, &devices.items[entry.dev]),
                        ),
                    }
                } else {
                    HandlerResult::NoDevice
                };
                Some(NetProtocolHandled { protocol_type: self.protocol_type, entry, result })
            },
        }
    }
}

/// No two protocols among `items` have the same number.
pub open spec fn numbers_unique(items: Seq<NetProtocol>) -> bool {
    forall|i: int, j: int|
        0 <= i < j < items.len() ==> (#[trigger] items[i]).protocol_type != (
        #[trigger] items[j]).protocol_type
}

/// Every frame that waits in a queue of `items` came from one of the first
/// `devices` devices of the device table.
pub open spec fn frames_from(items: Seq<NetProtocol>, devices: nat) -> bool {
    forall|k: int, m: int|
        0 <= k < items.len() && 0 <= m < items[k].pending().len() ==> (
        #[trigger] items[k].pending()[m]).0 < devices
}

/// Whether a protocol among `items` has the number `protocol_type`.
pub open spec fn number_taken(items: Seq<NetProtocol>, protocol_type: u16) -> bool {
    exists|i: int| 0 <= i < items.len() && (#[trigger] items[i]).protocol_type == protocol_type
}

/// The table of protocols, in the order of their registration.
pub struct LockableNetProtocols {
    pub items: Vec<NetProtocol>,
}

/// Exclusive access to the table of protocols, for as long as the value lives.
pub struct LockedNetProtocols<'a> {
    pub items: &'a mut Vec<NetProtocol>,
}

impl LockableNetProtocols {
    /// The table is well formed: no two protocols have the same number.
    pub open spec fn wf(&self) -> bool {
        numbers_unique(self.items@)
    }

    /// Every frame that waits in a queue came from a device of the table
    /// `devices`.
    pub open spec fn refers_to(&self, devices: &LockableNetDevices) -> bool {
        frames_from(self.items@, devices.items@.len())
    }

    /// An empty table.
    pub fn new() -> (protocols: Self)
        ensures
            protocols.items@.len() == 0,
            protocols.wf(),
    {
        LockableNetProtocols { items: Vec::new() }
    }

    /// Takes exclusive access to the table. What is done to the protocols
    /// through the returned value is done to the table.
    pub fn lock(&mut self) -> (guard: LockedNetProtocols<'_>)
        ensures
            guard.items@ == old(self).items@,
            final(self).items@ == final(guard.items)@,
    {
        LockedNetProtocols { items: &mut self.items }
    }
}

impl NetProtocol {
    /// What `register` does to the table.
    pub open spec fn registers(
        before: Seq<NetProtocol>,
        protocol_type: u16,
        handler: ProtocolHandlerType,
        after: Seq<NetProtocol>,
        r: Result<(), NetProtocolError>,
    ) -> bool {
        if number_taken(before, protocol_type) {
            &&& r == Err::<(), NetProtocolError>(
                NetProtocolError { kind: NetProtocolErrorKind::AlreadyRegistered },
            )
            &&& after == before
        } else {
            &&& r is Ok
            &&& after.len() == before.len() + 1
            &&& after.drop_last() == before
            &&& after.last().protocol_type == protocol_type
            &&& after.last().handler == handler
            &&& after.last().pending().len() == 0
        }
    }

    /// Adds a protocol with an empty queue at the end of the table. Fails
    /// where a protocol of that number is in the table.
    pub fn register(
        protocols: &mut LockableNetProtocols,
        protocol_type: u16,
        handler: ProtocolHandlerType,
    ) -> (r: Result<(), NetProtocolError>)
        ensures
            Self::registers(
                old(protocols).items@,
                protocol_type,
                handler,
                final(protocols).items@,
                r,
            ),
            old(protocols).wf() ==> final(protocols).wf(),
    {
        let n: usize = protocols.items.len();
        let mut i: usize = 0;
        while i < n
            invariant
                n == protocols.items@.len(),
                i <= n,
                *protocols == *old(protocols),
                forall|k: int|
                    0 <= k < i ==> (#[trigger] protocols.items@[k]).protocol_type != protocol_type,
            decreases n - i,
        {
            if protocols.items[i].protocol_type == protocol_type {
                return Err(NetProtocolError { kind: NetProtocolErrorKind::AlreadyRegistered });
            }
            i = i + 1;
        }
        let protocol = NetProtocol { protocol_type, queue: VecDeque::new(), handler };
        protocols.items.push(protocol);
        proof {
            assert(final(protocols).items@.drop_last() =~= old(protocols).items@);
        }
        Ok(())
    }

    /// What `input_handler` does to the table: a copy of the frame is added
    /// to the queue of each protocol of the number, and nothing else changes.
    pub open spec fn inputs(
        before: Seq<NetProtocol>,
        protocol_type: u16,
        entry: (usize, Seq<u8>),
        after: Seq<NetProtocol>,
    ) -> bool {
        &&& after.len() == before.len()
        &&& forall|k: int|
            0 <= k < before.len() ==> if (#[trigger] before[k]).protocol_type == protocol_type {
                before[k].enqueued(entry, after[k])
            } else {
                after[k] == before[k]
            }
    }

    /// Puts the first `size` bytes of `data`, a frame that the device `dev`
    /// has received, into the queue of the protocol `protocol_type`. A
    /// frame of a protocol that is not registered is dropped.
    pub fn input_handler(
        protocols: &mut LockableNetProtocols,
        protocol_type: u16,
        data: &[u8],
        size: usize,
        dev: usize,
    ) -> (r: Result<(), NetProtocolError>)
        requires
            size <= data@.len(),
        ensures
            r is Ok,
            Self::inputs(
                old(protocols).items@,
                protocol_type,
                (dev, data@.take(size as int)),
                final(protocols).items@,
            ),
            old(protocols).wf() ==> final(protocols).wf(),
            forall|devices: nat|
                #![trigger frames_from(final(protocols).items@, devices)]
                frames_from(old(protocols).items@, devices) && dev < devices ==> frames_from(
                    final(protocols).items@,
                    devices,
                ),
    {
        let n: usize = protocols.items.len();
        let mut i: usize = 0;
        while i < n
            invariant
                n == protocols.items@.len(),
                n == old(protocols).items@.len(),
                i <= n,
                size <= data@.len(),
                forall|k: int|
                    0 <= k < i ==> if (#[trigger] old(protocols).items@[k]).protocol_type
                        == protocol_type {
                        old(protocols).items@[k].enqueued(
                            (dev, data@.take(size as int)),
                            protocols.items@[k],
                        )
                    } else {
                        protocols.items@[k] == old(protocols).items@[k]
                    },
                forall|k: int|
                    i <= k < n ==> (#[trigger] protocols.items@[k]) == old(protocols).items@[k],
            decreases n - i,
        {
            if protocols.items[i].protocol_type == protocol_type {
                let frame: Vec<u8> = vstd::slice::slice_to_vec(
                    vstd::slice::slice_subrange(data, 0, size),
                );
                let ghost before = protocols.items@[i as int];
                protocols.items[i].queue.push_back(NetProtocolQueueEntry { dev, data: frame });
                proof {
                    let after = protocols.items@[i as int];
                    assert(after.pending() =~= before.pending().push(
                        (dev, data@.take(size as int)),
                    ));
                }
            }
            i = i + 1;
        }
        proof {
            let entry = (dev, data@.take(size as int));
            assert(Self::inputs(old(protocols).items@, protocol_type, entry, protocols.items@));
            assert forall|devices: nat|
                #![trigger frames_from(protocols.items@, devices)]
                frames_from(old(protocols).items@, devices) && dev < devices implies frames_from(
                protocols.items@,
                devices,
            ) by {
                lemma_inputs_keeps(
                    old(protocols).items@,
                    protocol_type,
                    entry,
                    protocols.items@,
                    devices,
                );
            }
            lemma_inputs_keeps(old(protocols).items@, protocol_type, entry, protocols.items@, 0);
        }
        Ok(())
    }
}

/// Whether `after` is the device `before` opened with success and then
/// closed, with whatever result.
pub open spec fn opened_and_closed(before: NetDevice, after: NetDevice) -> bool {
    exists|opened: NetDevice, closed: Result<(), NetDeviceError>|
        (#[trigger] before.opens(opened, Ok(()))) && (#[trigger] opened.closes(after, closed))
}

/// Whether `after` is the device `before` after a call of `close`, with
/// whatever result.
pub open spec fn close_tried(before: NetDevice, after: NetDevice) -> bool {
    exists|closed: Result<(), NetDeviceError>| #[trigger] before.closes(after, closed)
}

/// Whether the tables hold the same devices, up to their flags.
pub open spec fn same_devices(before: Seq<NetDevice>, after: Seq<NetDevice>) -> bool {
    &&& after.len() == before.len()
    &&& forall|k: int|
        0 <= k < before.len() ==> (#[trigger] after[k]) == before[k].with_flags(after[k].flags)
}

/// Calls of `open` and `close` change a device's flags and nothing else.
pub proof fn lemma_calls_keep_device(before: NetDevice, after: NetDevice)
    requires
        (exists|r: Result<(), NetDeviceError>| #[trigger] before.opens(after, r))
            || close_tried(before, after) || opened_and_closed(before, after),
    ensures
        after == before.with_flags(after.flags),
{
    if exists|r: Result<(), NetDeviceError>| #[trigger] before.opens(after, r) {
        let r = choose|r: Result<(), NetDeviceError>| #[trigger] before.opens(after, r);
        lemma_called(before, NetDeviceCall::Open, after, r);
    } else if close_tried(before, after) {
        let r = choose|r: Result<(), NetDeviceError>| #[trigger] before.closes(after, r);
        lemma_called(before, NetDeviceCall::Close, after, r);
    } else {
        let (opened, closed) = choose|opened: NetDevice, closed: Result<(), NetDeviceError>|
            (#[trigger] before.opens(opened, Ok(()))) && (#[trigger] opened.closes(
                after,
                closed,
            ));
        lemma_called(before, NetDeviceCall::Open, opened, Ok(()));
        lemma_called(opened, NetDeviceCall::Close, after, closed);
    }
}

/// Tables that hold the same devices up to their flags are well formed
/// together.
pub proof fn lemma_same_devices_wf(before: LockableNetDevices, after: LockableNetDevices)
    requires
        same_devices(before.items@, after.items@),
        before.wf(),
    ensures
        after.wf(),
{
    assert forall|i: int| 0 <= i < after.items@.len() implies (#[trigger] after.items@[i]).index
        == i by {
        assert(before.items@[i].index == i);
    }
    assert forall|i: int, j: int| 0 <= i < j < after.items@.len() implies (
    #[trigger] after.items@[i]).name@ != (#[trigger] after.items@[j]).name@ by {
        assert(before.items@[i].name@ != before.items@[j].name@);
    }
}

/// Whether a call of `open` on the device succeeds, whatever the driver
/// does: the device is down, and its open callback cannot fail.
pub open spec fn opens_surely(dev: NetDevice) -> bool {
    &&& !dev.spec_is_up()
    &&& forall|status: isize| #[trigger] dev.open_status(status) ==> status != -1
}

/// Whether a call of `close` on the device succeeds, whatever the driver
/// does: the device is up, and its close callback cannot fail.
pub open spec fn closes_surely(dev: NetDevice) -> bool {
    &&& dev.spec_is_up()
    &&& forall|status: isize| #[trigger] dev.close_status(status) ==> status != -1
}

/// Whether `net_run` failed at the device `at` with the error `e`: that
/// device did not open, the devices before it were opened and then closed
/// again, and the devices behind it were not touched.
pub open spec fn run_failed_at(
    before: Seq<NetDevice>,
    after: Seq<NetDevice>,
    at: int,
    e: NetDeviceError,
) -> bool {
    &&& 0 <= at < before.len()
    &&& before[at].opens(after[at], Err(e))
    &&& forall|k: int| at < k < before.len() ==> #[trigger] after[k] == before[k]
    &&& forall|k: int| 0 <= k < at ==> #[trigger] opened_and_closed(before[k], after[k])
}

/// Opens every device of the table, in the order of the table. Where a
/// device does not open, the devices that were opened before it are closed
/// again, and the error of that device is returned.
pub fn net_run(devices: &mut LockableNetDevices) -> (r: Result<(), NetDeviceError>)
    ensures
        final(devices).items@.len() == old(devices).items@.len(),
        r is Ok ==> forall|k: int|
            0 <= k < old(devices).items@.len() ==> (#[trigger] old(devices).items@[k]).opens(
                final(devices).items@[k],
                Ok(()),
            ),
        r matches Err(e) ==> exists|at: int|
            run_failed_at(old(devices).items@, final(devices).items@, at, e),
        (forall|k: int|
            0 <= k < old(devices).items@.len() ==> opens_surely(#[trigger] old(devices).items@[k]))
            ==> r is Ok,
        same_devices(old(devices).items@, final(devices).items@),
        old(devices).wf() ==> final(devices).wf(),
{
    let n: usize = devices.items.len();
    let mut i: usize = 0;
    while i < n
        invariant
            n == devices.items@.len(),
            n == old(devices).items@.len(),
            i <= n,
            forall|k: int|
                0 <= k < i ==> (#[trigger] old(devices).items@[k]).opens(
                    devices.items@[k],
                    Ok(()),
                ),
            forall|k: int| i <= k < n ==> (#[trigger] devices.items@[k]) == old(devices).items@[k],
        decreases n - i,
    {
        let opened = devices.items[i].open();
        match opened {
            Ok(()) => {},
            Err(e) => {
                let mut j: usize = 0;
                while j < i
                    invariant
                        n == devices.items@.len(),
                        n == old(devices).items@.len(),
                        j <= i < n,
                        old(devices).items@[i as int].opens(devices.items@[i as int], Err(e)),
                        forall|k: int|
                            0 <= k < j ==> #[trigger] opened_and_closed(
                                old(devices).items@[k],
                                devices.items@[k],
                            ),
                        forall|k: int|
                            j <= k < i ==> (#[trigger] old(devices).items@[k]).opens(
                                devices.items@[k],
                                Ok(()),
                            ),
                        forall|k: int|
                            i < k < n ==> (#[trigger] devices.items@[k]) == old(
                                devices,
                            ).items@[k],
                    decreases i - j,
                {
                    let ghost was = devices.items@[j as int];
                    let closed = devices.items[j].close();
                    proof {
                        assert(old(devices).items@[j as int].opens(was, Ok(())));
                        assert(was.closes(devices.items@[j as int], closed));
                        assert(opened_and_closed(
                            old(devices).items@[j as int],
                            devices.items@[j as int],
                        ));
                    }
                    j = j + 1;
                }
                proof {
                    assert(run_failed_at(old(devices).items@, devices.items@, i as int, e));
                    assert forall|k: int| 0 <= k < n implies (#[trigger] devices.items@[k]) == old(
                        devices,
                    ).items@[k].with_flags(devices.items@[k].flags) by {
                        if k < i {
                            assert(opened_and_closed(old(devices).items@[k], devices.items@[k]));
                        }
                        if k <= i {
                            lemma_calls_keep_device(old(devices).items@[k], devices.items@[k]);
                        }
                    }
                    if old(devices).wf() {
                        lemma_same_devices_wf(*old(devices), *devices);
                    }
                }
                return Err(e);
            },
        }
        i = i + 1;
    }
    proof {
        assert forall|k: int| 0 <= k < n implies (#[trigger] devices.items@[k]) == old(
            devices,
        ).items@[k].with_flags(devices.items@[k].flags) by {
            assert(old(devices).items@[k].opens(devices.items@[k], Ok(())));
            lemma_calls_keep_device(old(devices).items@[k], devices.items@[k]);
        }
        if old(devices).wf() {
            lemma_same_devices_wf(*old(devices), *devices);
        }
    }
    Ok(())
}

/// Whether `net_shutdown` met its first failure at the device `at`, with
/// the error `e`: the devices before it were closed, that device was not,
/// and the devices behind it were closed as far as they could be.
pub open spec fn shutdown_failed_at(
    before: Seq<NetDevice>,
    after: Seq<NetDevice>,
    at: int,
    e: NetDeviceError,
) -> bool {
    &&& 0 <= at < before.len()
    &&& before[at].closes(after[at], Err(e))
    &&& forall|k: int| 0 <= k < at ==> (#[trigger] before[k]).closes(after[k], Ok(()))
    &&& forall|k: int| at < k < before.len() ==> #[trigger] close_tried(before[k], after[k])
}

/// Closes every device of the table, in the order of the table. A device
/// that does not close does not keep the others from being closed; the
/// error of the first such device is returned.
pub fn net_shutdown(devices: &mut LockableNetDevices) -> (r: Result<(), NetDeviceError>)
    ensures
        final(devices).items@.len() == old(devices).items@.len(),
        r is Ok ==> forall|k: int|
            0 <= k < old(devices).items@.len() ==> (#[trigger] old(devices).items@[k]).closes(
                final(devices).items@[k],
                Ok(()),
            ),
        r matches Err(e) ==> exists|at: int|
            shutdown_failed_at(old(devices).items@, final(devices).items@, at, e),
        (forall|k: int|
            0 <= k < old(devices).items@.len() ==> closes_surely(
                #[trigger] old(devices).items@[k],
            )) ==> r is Ok,
        same_devices(old(devices).items@, final(devices).items@),
        old(devices).wf() ==> final(devices).wf(),
{
    let n: usize = devices.items.len();
    let mut first: Option<(usize, NetDeviceError)> = None;
    let mut i: usize = 0;
    while i < n
        invariant
            n == devices.items@.len(),
            n == old(devices).items@.len(),
            i <= n,
            first is None ==> forall|k: int|
                0 <= k < i ==> (#[trigger] old(devices).items@[k]).closes(
                    devices.items@[k],
                    Ok(()),
                ),
            first matches Some((at, e)) ==> {
                &&& at < i
                &&& old(devices).items@[at as int].closes(devices.items@[at as int], Err(e))
                &&& forall|k: int|
                    0 <= k < at ==> (#[trigger] old(devices).items@[k]).closes(
                        devices.items@[k],
                        Ok(()),
                    )
                &&& forall|k: int|
                    at < k < i ==> #[trigger] close_tried(
                        old(devices).items@[k],
                        devices.items@[k],
                    )
            },
            forall|k: int| i <= k < n ==> (#[trigger] devices.items@[k]) == old(devices).items@[k],
            forall|k: int|
                0 <= k < i ==> #[trigger] close_tried(old(devices).items@[k], devices.items@[k]),
        decreases n - i,
    {
        let closed = devices.items[i].close();
        proof {
            assert(old(devices).items@[i as int].closes(devices.items@[i as int], closed));
            assert(close_tried(old(devices).items@[i as int], devices.items@[i as int]));
        }
        match closed {
            Ok(()) => {},
            Err(e) => {
                if first.is_none() {
                    first = Some((i, e));
                }
            },
        }
        i = i + 1;
    }
    proof {
        assert forall|k: int| 0 <= k < n implies (#[trigger] devices.items@[k]) == old(
            devices,
        ).items@[k].with_flags(devices.items@[k].flags) by {
            assert(close_tried(old(devices).items@[k], devices.items@[k]));
            lemma_calls_keep_device(old(devices).items@[k], devices.items@[k]);
        }
        if old(devices).wf() {
            lemma_same_devices_wf(*old(devices), *devices);
        }
    }
    match first {
        None => Ok(()),
        Some((at, e)) => {
            proof {
                assert(shutdown_failed_at(old(devices).items@, devices.items@, at as int, e));
            }
            Err(e)
        },
    }
}

/// Registers the protocols that the stack brings with it: IPv4. A second
/// call changes nothing.
pub fn net_init(protocols: &mut LockableNetProtocols)
    ensures
        exists|r: Result<(), NetProtocolError>|
            NetProtocol::registers(
                old(protocols).items@,
                0x0800,
                ProtocolHandlerType::Ip,
                final(protocols).items@,
                r,
            ),
        old(protocols).wf() ==> final(protocols).wf(),
{
    init(protocols);
}

/// How long the worker sleeps where a round found no work: 10 ms, in nanoseconds.
pub const NET_THREAD_SLEEP_NANOS: u32 = 10_000_000;

/// What the worker does after a round.
#[derive(Debug, Clone, Copy, PartialEq, Eq, Structural)]
pub enum NetThreadAction {
    /// The worker ends.
    Exit,
    /// The next round follows at once.
    Continue,
    /// The worker sleeps for `NET_THREAD_SLEEP_NANOS` before the next round.
    Sleep,
}

/// A round of the worker: how many frames the devices gave, what was taken
/// from the queues and handled, and what the worker does next.
pub struct NetThreadStep {
    pub action: NetThreadAction,
    pub polled: usize,
    pub handled: Vec<NetProtocolHandled>,
}

/// Whether the device is up and its driver supplies the poll callback.
pub open spec fn polls(dev: NetDevice) -> bool {
    dev.spec_is_up() && dev.ops.poll
}

/// Whether the device at `i` can have given `frame` when the devices were
/// polled: a device that is not polled gives none.
pub open spec fn may_give(devices: Seq<NetDevice>, i: int, frame: Option<(u16, Seq<u8>)>) -> bool {
    if polls(devices[i]) {
        devices[i].ops.driver.may_poll(frame)
    } else {
        frame is None
    }
}

/// The frames of the protocol `protocol_type` among those that the first
/// `n` devices gave, each with the index of its device, in the order of the
/// devices. Here `frames` holds what each device gave.
pub open spec fn frames_for(frames: Seq<Option<(u16, Seq<u8>)>>, protocol_type: u16, n: nat) -> Seq<
    (usize, Seq<u8>),
>
    decreases n,
{
    if n == 0 {
        Seq::empty()
    } else {
        let earlier = frames_for(frames, protocol_type, (n - 1) as nat);
        match frames[n - 1] {
            Some((number, data)) => if number == protocol_type {
                earlier.push(((n - 1) as usize, data))
            } else {
                earlier
            },
            None => earlier,
        }
    }
}

/// The number of frames that the first `n` devices gave.
pub open spec fn frames_count(frames: Seq<Option<(u16, Seq<u8>)>>, n: nat) -> nat
    decreases n,
{
    if n == 0 {
        0
    } else {
        frames_count(frames, (n - 1) as nat) + if frames[n - 1] is Some {
            1nat
        } else {
            0nat
        }
    }
}

/// What polling the first `frames.len()` devices does to the protocol
/// table, where `frames` holds what each of them gave: each protocol stays,
/// and the frames of its number are added at the end of its queue. A frame
/// of a number that no protocol has is dropped.
pub open spec fn polled(
    before: Seq<NetProtocol>,
    frames: Seq<Option<(u16, Seq<u8>)>>,
    after: Seq<NetProtocol>,
    devices: Seq<NetDevice>,
) -> bool {
    &&& frames.len() <= devices.len()
    &&& forall|i: int| 0 <= i < frames.len() ==> may_give(devices, i, #[trigger] frames[i])
    &&& after.len() == before.len()
    &&& forall|k: int|
        0 <= k < before.len() ==> {
            &&& (#[trigger] after[k]).protocol_type == before[k].protocol_type
            &&& after[k].handler == before[k].handler
            &&& after[k].pending() == before[k].pending() + frames_for(
                frames,
                before[k].protocol_type,
                frames.len(),
            )
        }
}

/// What the first `n` devices gave does not depend on what the others gave.
proof fn lemma_frames_prefix(
    frames: Seq<Option<(u16, Seq<u8>)>>,
    next: Option<(u16, Seq<u8>)>,
    protocol_type: u16,
    n: nat,
)
    requires
        n <= frames.len(),
    ensures
        frames_for(frames.push(next), protocol_type, n) == frames_for(frames, protocol_type, n),
        frames_count(frames.push(next), n) == frames_count(frames, n),
    decreases n,
{
    if n > 0 {
        lemma_frames_prefix(frames, next, protocol_type, (n - 1) as nat);
        assert(frames.push(next)[n - 1] == frames[n - 1]);
    }
}

/// There are no more frames than devices, and none where no device gave one.
pub proof fn lemma_frames_count(frames: Seq<Option<(u16, Seq<u8>)>>, protocol_type: u16, n: nat)
    requires
        n <= frames.len(),
    ensures
        frames_count(frames, n) <= n,
        frames_count(frames, n) == 0 <==> forall|i: int| 0 <= i < n ==> frames[i] is None,
        frames_count(frames, n) == 0 ==> frames_for(frames, protocol_type, n).len() == 0,
        forall|m: int|
            0 <= m < frames_for(frames, protocol_type, n).len() ==> (#[trigger] frames_for(
                frames,
                protocol_type,
                n,
            )[m]).0 < n,
    decreases n,
{
    if n > 0 {
        lemma_frames_count(frames, protocol_type, (n - 1) as nat);
        if frames_count(frames, n) == 0 {
            assert forall|i: int| 0 <= i < n implies frames[i] is None by {
                if i < n - 1 {
                }
            }
        }
    }
}

/// Polls every device that is up and whose driver supplies the callback,
/// in the order of the table, and puts each frame that comes into the
/// queue of its protocol. Returns the number of frames that came.
pub fn net_poll(devices: &LockableNetDevices, protocols: &mut LockableNetProtocols) -> (count:
    usize)
    ensures
        exists|frames: Seq<Option<(u16, Seq<u8>)>>|
            {
                &&& frames.len() == devices.items@.len()
                &&& #[trigger] polled(
                    old(protocols).items@,
                    frames,
                    final(protocols).items@,
                    devices.items@,
                )
                &&& count == frames_count(frames, frames.len())
            },
        count <= devices.items@.len(),
        count == 0 ==> final(protocols).items@ == old(protocols).items@,
        (forall|i: int| 0 <= i < devices.items@.len() ==> !polls(#[trigger] devices.items@[i]))
            ==> count == 0,
        old(protocols).wf() ==> final(protocols).wf(),
        old(protocols).refers_to(devices) ==> final(protocols).refers_to(devices),
{
    let n: usize = devices.items.len();
    let mut count: usize = 0;
    let mut i: usize = 0;
    let ghost mut frames: Seq<Option<(u16, Seq<u8>)>> = Seq::empty();
    proof {
        assert forall|k: int| 0 <= k < protocols.items@.len() implies (
        #[trigger] protocols.items@[k]).pending() == protocols.items@[k].pending() + frames_for(
            frames,
            protocols.items@[k].protocol_type,
            0,
        ) by {
            let q = protocols.items@[k].pending();
            assert(q + Seq::<(usize, Seq<u8>)>::empty() =~= q);
        }
    }
    while i < n
        invariant
            n == devices.items@.len(),
            i <= n,
            frames.len() == i,
            count == frames_count(frames, i as nat),
            count <= i,
            polled(old(protocols).items@, frames, protocols.items@, devices.items@),
            count == 0 ==> protocols.items@ == old(protocols).items@,
        decreases n - i,
    {
        let ghost before = protocols.items@;
        let ghost earlier = frames;
        let mut given: Option<NetDeviceFrame> = None;
        if devices.items[i].is_up() && devices.items[i].ops.poll {
            given = devices.items[i].ops.driver.poll();
        }
        let ghost next = frame_view(given);
        assert(may_give(devices.items@, i as int, next));
        match given {
            None => {},
            Some(frame) => {
                let _ = NetProtocol::input_handler(
                    protocols,
                    frame.protocol_type,
                    frame.data.as_slice(),
                    frame.data.len(),
                    i,
                );
                proof {
                    assert(frame.data@.take(frame.data@.len() as int) == frame.data@);
                }
                count = count + 1;
            },
        }
        proof {
            frames = earlier.push(next);
            let origin = old(protocols).items@;
            let after = protocols.items@;
            lemma_frames_prefix(earlier, next, 0, i as nat);
            assert forall|j: int| 0 <= j < frames.len() implies may_give(
                devices.items@,
                j,
                #[trigger] frames[j],
            ) by {
                if j < i {
                    assert(frames[j] == earlier[j]);
                }
            }
            assert forall|k: int| 0 <= k < origin.len() implies {
                &&& (#[trigger] after[k]).protocol_type == origin[k].protocol_type
                &&& after[k].handler == origin[k].handler
                &&& after[k].pending() == origin[k].pending() + frames_for(
                    frames,
                    origin[k].protocol_type,
                    frames.len(),
                )
            } by {
                let number = origin[k].protocol_type;
                lemma_frames_prefix(earlier, next, number, i as nat);
                let had = frames_for(earlier, number, i as nat);
                assert(before[k].pending() == origin[k].pending() + had);
                match next {
                    Some((protocol_type, data)) => {
                        if before[k].protocol_type == protocol_type {
                            assert(before[k].enqueued((i, data), after[k]));
                            assert((origin[k].pending() + had).push((i, data))
                                =~= origin[k].pending() + had.push((i, data)));
                        } else {
                            assert(after[k] == before[k]);
                        }
                    },
                    None => {},
                }
            }
        }
        i = i + 1;
    }
    proof {
        lemma_polled_keeps(old(protocols).items@, frames, protocols.items@, devices.items@);
        lemma_frames_count(frames, 0, frames.len());
        if forall|i: int| 0 <= i < devices.items@.len() ==> !polls(#[trigger] devices.items@[i]) {
            assert forall|i: int| 0 <= i < frames.len() implies frames[i] is None by {
                assert(may_give(devices.items@, i, frames[i]));
                assert(!polls(devices.items@[i]));
            }
        }
    }
    count
}

/// What `net_dispatch` hands to the handlers among the first `n` protocols
/// of `before`: the oldest frame of each queue that holds one, in the order
/// of the table, each with its protocol's number and its handler's result.
pub open spec fn dispatch_of(before: Seq<NetProtocol>, devices: Seq<NetDevice>, n: nat) -> Seq<
    (u16, (usize, Seq<u8>), HandlerResult),
>
    decreases n,
{
    if n == 0 {
        Seq::empty()
    } else {
        let earlier = dispatch_of(before, devices, (n - 1) as nat);
        let protocol = before[n - 1];
        if protocol.pending().len() > 0 {
            earlier.push(
                (
                    protocol.protocol_type,
                    protocol.pending()[0],
                    handler_result(protocol.handler, protocol.pending()[0], devices),
                ),
            )
        } else {
            earlier
        }
    }
}

/// What `net_dispatch` does to the protocol table: a queue that holds a
/// frame loses its oldest, and nothing else changes.
pub open spec fn dispatched(before: Seq<NetProtocol>, after: Seq<NetProtocol>) -> bool {
    &&& after.len() == before.len()
    &&& forall|k: int|
        0 <= k < before.len() ==> if (#[trigger] before[k]).pending().len() > 0 {
            before[k].dequeued(after[k])
        } else {
            after[k] == before[k]
        }
}

/// Takes the oldest frame from the queue of each protocol, in the order of
/// the table, and hands it to the protocol's handler. Returns what was
/// handled.
pub fn net_dispatch(protocols: &mut LockableNetProtocols, devices: &LockableNetDevices) -> (handled:
    Vec<NetProtocolHandled>)
    ensures
        dispatched(old(protocols).items@, final(protocols).items@),
        handled@.map_values(|h: NetProtocolHandled| h@) == dispatch_of(
            old(protocols).items@,
            devices.items@,
            old(protocols).items@.len(),
        ),
        handled@.len() == 0 ==> final(protocols).items@ == old(protocols).items@,
        old(protocols).wf() ==> final(protocols).wf(),
        old(protocols).refers_to(devices) ==> final(protocols).refers_to(devices),
{
    let n: usize = protocols.items.len();
    let mut handled: Vec<NetProtocolHandled> = Vec::new();
    let mut i: usize = 0;
    proof {
        assert(handled@.map_values(|h: NetProtocolHandled| h@) =~= dispatch_of(
            old(protocols).items@,
            devices.items@,
            0,
        ));
    }
    while i < n
        invariant
            n == protocols.items@.len(),
            n == old(protocols).items@.len(),
            i <= n,
            forall|k: int|
                0 <= k < i ==> if (#[trigger] old(protocols).items@[k]).pending().len() > 0 {
                    old(protocols).items@[k].dequeued(protocols.items@[k])
                } else {
                    protocols.items@[k] == old(protocols).items@[k]
                },
            forall|k: int|
                i <= k < n ==> (#[trigger] protocols.items@[k]) == old(protocols).items@[k],
            handled@.map_values(|h: NetProtocolHandled| h@) == dispatch_of(
                old(protocols).items@,
                devices.items@,
                i as nat,
            ),
            handled@.len() == 0 ==> protocols.items@ == old(protocols).items@,
        decreases n - i,
    {
        let ghost views = handled@.map_values(|h: NetProtocolHandled| h@);
        match protocols.items[i].dispatch(devices) {
            None => {},
            Some(h) => {
                handled.push(h);
                proof {
                    assert(handled@.map_values(|h: NetProtocolHandled| h@) =~= views.push(h@));
                }
            },
        }
        i = i + 1;
    }
    proof {
        lemma_dispatched_keeps(old(protocols).items@, protocols.items@, devices.items@.len());
    }
    handled
}

/// One round of the worker. With `terminate` set the worker ends and
/// nothing is touched. Otherwise the devices are polled, then each
/// protocol's handler gets the oldest frame of its queue; a round without
/// work is followed by a sleep.
pub fn net_thread(
    devices: &LockableNetDevices,
    protocols: &mut LockableNetProtocols,
    terminate: bool,
) -> (step: NetThreadStep)
    ensures
        terminate ==> {
            &&& step.action == NetThreadAction::Exit
            &&& step.polled == 0
            &&& step.handled@.len() == 0
            &&& final(protocols).items@ == old(protocols).items@
        },
        !terminate ==> exists|frames: Seq<Option<(u16, Seq<u8>)>>, between: Seq<NetProtocol>|
            {
                &&& frames.len() == devices.items@.len()
                &&& #[trigger] polled(old(protocols).items@, frames, between, devices.items@)
                &&& step.polled == frames_count(frames, frames.len())
                &&& step.polled == 0 ==> between == old(protocols).items@
                &&& dispatched(between, final(protocols).items@)
                &&& step.handled@.map_values(|h: NetProtocolHandled| h@) == dispatch_of(
                    between,
                    devices.items@,
                    between.len(),
                )
            },
        !terminate ==> step.polled <= devices.items@.len(),
        !terminate ==> ((forall|i: int|
            0 <= i < devices.items@.len() ==> !polls(#[trigger] devices.items@[i]))
            ==> step.polled == 0),
        !terminate ==> step.action == if step.polled == 0 && step.handled@.len() == 0 {
            NetThreadAction::Sleep
        } else {
            NetThreadAction::Continue
        },
        step.action == NetThreadAction::Sleep ==> final(protocols).items@ == old(protocols).items@,
        old(protocols).wf() ==> final(protocols).wf(),
        old(protocols).refers_to(devices) ==> final(protocols).refers_to(devices),
{
    if terminate {
        return NetThreadStep { action: NetThreadAction::Exit, polled: 0, handled: Vec::new() };
    }
    let polled_count: usize = net_poll(devices, protocols);
    let ghost between = protocols.items@;
    let handled: Vec<NetProtocolHandled> = net_dispatch(protocols, devices);
    let action: NetThreadAction = if polled_count == 0 && handled.len() == 0 {
        NetThreadAction::Sleep
    } else {
        NetThreadAction::Continue
    };
    NetThreadStep { action, polled: polled_count, handled }
}

/// Putting a frame into the queues keeps the protocol numbers apart, and
/// keeps the frames within the devices where the frame is from one of them.
pub proof fn lemma_inputs_keeps(
    before: Seq<NetProtocol>,
    protocol_type: u16,
    entry: (usize, Seq<u8>),
    after: Seq<NetProtocol>,
    devices: nat,
)
    requires
        NetProtocol::inputs(before, protocol_type, entry, after),
    ensures
        numbers_unique(before) ==> numbers_unique(after),
        frames_from(before, devices) && entry.0 < devices ==> frames_from(after, devices),
{
    assert forall|k: int| 0 <= k < before.len() implies (#[trigger] after[k]).protocol_type
        == before[k].protocol_type by {
        let b = before[k];
    }
    if numbers_unique(before) {
        assert forall|i: int, j: int| 0 <= i < j < after.len() implies (
        #[trigger] after[i]).protocol_type != (#[trigger] after[j]).protocol_type by {
            assert(before[i].protocol_type != before[j].protocol_type);
        }
    }
    if frames_from(before, devices) && entry.0 < devices {
        assert forall|k: int, m: int|
            0 <= k < after.len() && 0 <= m < after[k].pending().len() implies (
        #[trigger] after[k].pending()[m]).0 < devices by {
            let b = before[k];
            if m < b.pending().len() {
                assert(after[k].pending()[m] == b.pending()[m]);
            }
        }
    }
}

/// Polling the devices keeps the protocol numbers apart and the frames
/// within the devices.
pub proof fn lemma_polled_keeps(
    before: Seq<NetProtocol>,
    frames: Seq<Option<(u16, Seq<u8>)>>,
    after: Seq<NetProtocol>,
    devices: Seq<NetDevice>,
)
    requires
        polled(before, frames, after, devices),
    ensures
        numbers_unique(before) ==> numbers_unique(after),
        frames_from(before, devices.len()) ==> frames_from(after, devices.len()),
{
    if numbers_unique(before) {
        assert forall|i: int, j: int| 0 <= i < j < after.len() implies (
        #[trigger] after[i]).protocol_type != (#[trigger] after[j]).protocol_type by {
            assert(before[i].protocol_type != before[j].protocol_type);
        }
    }
    if frames_from(before, devices.len()) {
        assert forall|k: int, m: int|
            0 <= k < after.len() && 0 <= m < after[k].pending().len() implies (
        #[trigger] after[k].pending()[m]).0 < devices.len() by {
            let b = before[k].pending();
            let came = frames_for(frames, before[k].protocol_type, frames.len());
            assert(after[k].pending() == b + came);
            if m < b.len() {
                assert(after[k].pending()[m] == b[m]);
            } else {
                lemma_frames_count(frames, before[k].protocol_type, frames.len());
                assert(after[k].pending()[m] == came[m - b.len()]);
            }
        }
    }
}

/// Dispatching keeps the protocol numbers apart and the frames within the
/// devices.
pub proof fn lemma_dispatched_keeps(
    before: Seq<NetProtocol>,
    after: Seq<NetProtocol>,
    devices: nat,
)
    requires
        dispatched(before, after),
    ensures
        numbers_unique(before) ==> numbers_unique(after),
        frames_from(before, devices) ==> frames_from(after, devices),
{
    assert forall|k: int| 0 <= k < before.len() implies (#[trigger] after[k]).protocol_type
        == before[k].protocol_type by {
        let b = before[k];
    }
    if numbers_unique(before) {
        assert forall|i: int, j: int| 0 <= i < j < after.len() implies (
        #[trigger] after[i]).protocol_type != (#[trigger] after[j]).protocol_type by {
            assert(before[i].protocol_type != before[j].protocol_type);
        }
    }
    if frames_from(before, devices) {
        assert forall|k: int, m: int|
            0 <= k < after.len() && 0 <= m < after[k].pending().len() implies (
        #[trigger] after[k].pending()[m]).0 < devices by {
            let b = before[k];
            if b.pending().len() > 0 {
                assert(after[k].pending()[m] == b.pending()[m + 1]);
            }
        }
    }
}

/// The two calls that change whether a device is up.
#[derive(Debug, Clone, Copy, PartialEq, Eq, Structural)]
pub enum NetDeviceCall {
    Open,
    Close,
}

/// Whether `after` is the device `before` after the call `call` that
/// returned `r`.
pub open spec fn called(
    before: NetDevice,
    call: NetDeviceCall,
    after: NetDevice,
    r: Result<(), NetDeviceError>,
) -> bool {
    match call {
        NetDeviceCall::Open => before.opens(after, r),
        NetDeviceCall::Close => before.closes(after, r),
    }
}

/// The last call among `calls` that returned success.
pub open spec fn last_success(calls: Seq<(NetDeviceCall, Result<(), NetDeviceError>)>) -> Option<
    NetDeviceCall,
>
    decreases calls.len(),
{
    if calls.len() == 0 {
        None
    } else if calls.last().1 is Ok {
        Some(calls.last().0)
    } else {
        last_success(calls.drop_last())
    }
}

/// A call that succeeds leaves the device up if it is `open` and down if it
/// is `close`; a call that fails leaves the device as it was.
pub proof fn lemma_called(
    before: NetDevice,
    call: NetDeviceCall,
    after: NetDevice,
    r: Result<(), NetDeviceError>,
)
    requires
        called(before, call, after, r),
    ensures
        r is Ok ==> after.spec_is_up() == (call == NetDeviceCall::Open),
        r is Ok ==> after == before.with_flags(after.flags),
        r is Err ==> after == before,
{
    let flags = before.flags;
    assert((flags | 0x0001) & 0x0001 != 0) by (bit_vector);
    assert((flags & !0x0001u16) & 0x0001 == 0) by (bit_vector);
}

/// A device is up if and only if, of the calls of `open` and `close` that
/// were made on it and returned success, the last was `open`; a device on
/// which no call succeeded is as it was at first. Here `states` holds the
/// device before the first call and after each call of `calls`.
pub proof fn lemma_up_after_calls(
    states: Seq<NetDevice>,
    calls: Seq<(NetDeviceCall, Result<(), NetDeviceError>)>,
)
    requires
        states.len() == calls.len() + 1,
        forall|i: int|
            0 <= i < calls.len() ==> called(
                states[i],
                (#[trigger] calls[i]).0,
                states[i + 1],
                calls[i].1,
            ),
    ensures
        states.last().spec_is_up() == match last_success(calls) {
            Some(call) => call == NetDeviceCall::Open,
            None => states[0].spec_is_up(),
        },
    decreases calls.len(),
{
    if calls.len() > 0 {
        let n = calls.len() as int;
        assert(called(states[n - 1], calls[n - 1].0, states[n], calls[n - 1].1));
        lemma_called(states[n - 1], calls[n - 1].0, states[n], calls[n - 1].1);
        if calls.last().1 is Err {
            let earlier = states.drop_last();
            let earlier_calls = calls.drop_last();
            assert forall|i: int| 0 <= i < earlier_calls.len() implies called(
                earlier[i],
                (#[trigger] earlier_calls[i]).0,
                earlier[i + 1],
                earlier_calls[i].1,
            ) by {
                assert(called(states[i], calls[i].0, states[i + 1], calls[i].1));
            }
            lemma_up_after_calls(earlier, earlier_calls);
            assert(earlier.last() == states[n - 1]);
            assert(earlier[0] == states[0]);
        }
    }
}

/// In a well-formed table a protocol number has one entry at most: two
/// entries with the same number are the same entry.
pub proof fn lemma_protocol_number_unique(protocols: LockableNetProtocols, i: int, j: int)
    requires
        protocols.wf(),
        0 <= i < protocols.items@.len(),
        0 <= j < protocols.items@.len(),
        protocols.items@[i].protocol_type == protocols.items@[j].protocol_type,
    ensures
        i == j,
{
    if i < j {
        assert(protocols.items@[i].protocol_type != protocols.items@[j].protocol_type);
    } else if j < i {
        assert(protocols.items@[j].protocol_type != protocols.items@[i].protocol_type);
    }
}

/// Registering a number twice: the second call fails with
/// `AlreadyRegistered` and leaves the table as the first call left it,
/// whatever the first call returned. From an empty table the first call
/// succeeds, and the table holds one entry.
pub proof fn lemma_register_twice(
    before: Seq<NetProtocol>,
    protocol_type: u16,
    handler: ProtocolHandlerType,
    once: Seq<NetProtocol>,
    first: Result<(), NetProtocolError>,
    twice: Seq<NetProtocol>,
    second: Result<(), NetProtocolError>,
)
    requires
        NetProtocol::registers(before, protocol_type, handler, once, first),
        NetProtocol::registers(once, protocol_type, handler, twice, second),
    ensures
        second == Err::<(), NetProtocolError>(
            NetProtocolError { kind: NetProtocolErrorKind::AlreadyRegistered },
        ),
        twice == once,
        number_taken(twice, protocol_type),
        before.len() == 0 ==> first is Ok && twice.len() == 1,
{
    if number_taken(before, protocol_type) {
        assert(once == before);
    } else {
        assert(once.last() == once[once.len() - 1]);
        assert(number_taken(once, protocol_type));
    }
}

/// Frames leave a queue in the order in which they came: a frame that is
/// put into a queue that holds `n` frames is handled by the dispatch after
/// the next `n`, which handle those frames in their order, and by no other.
/// Here `chain` holds the protocol after the frame was put in and after
/// each of `n + 1` dispatches.
pub proof fn lemma_queue_fifo(before: NetProtocol, entry: (usize, Seq<u8>), chain: Seq<NetProtocol>)
    requires
        chain.len() == before.pending().len() + 2,
        before.enqueued(entry, chain[0]),
        forall|j: int| 0 <= j < chain.len() - 1 ==> (#[trigger] chain[j]).dequeued(chain[j + 1]),
    ensures
        forall|j: int|
            0 <= j < before.pending().len() ==> (#[trigger] chain[j]).pending().len() > 0
                && chain[j].pending()[0] == before.pending()[j],
        chain[before.pending().len() as int].pending() == seq![entry],
        chain.last().pending().len() == 0,
{
    let n = before.pending().len() as int;
    let full = before.pending().push(entry);
    assert forall|j: int| 0 <= j <= n + 1 implies (#[trigger] chain[j]).pending() == full.skip(
        j,
    ) by {
        lemma_queue_chain(full, chain, j);
    }
    assert(chain[n].pending() =~= seq![entry]);
    assert forall|j: int| 0 <= j < n implies (#[trigger] chain[j]).pending().len() > 0
        && chain[j].pending()[0] == before.pending()[j] by {
        assert(chain[j].pending() == full.skip(j));
    }
    assert(chain.last() == chain[n + 1]);
}

/// After `j` dispatches a queue has lost its `j` oldest frames.
proof fn lemma_queue_chain(full: Seq<(usize, Seq<u8>)>, chain: Seq<NetProtocol>, j: int)
    requires
        chain.len() == full.len() + 1,
        chain[0].pending() == full,
        forall|i: int| 0 <= i < chain.len() - 1 ==> (#[trigger] chain[i]).dequeued(chain[i + 1]),
        0 <= j <= full.len(),
    ensures
        chain[j].pending() == full.skip(j),
    decreases j,
{
    if j == 0 {
        assert(full.skip(0) =~= full);
    } else {
        lemma_queue_chain(full, chain, j - 1);
        assert(chain[j - 1].dequeued(chain[j]));
        assert(full.skip(j - 1).skip(1) =~= full.skip(j));
    }
}

} // verus!
