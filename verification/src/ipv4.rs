//! IPv4: addresses, the header, interfaces, and the input path.

use vstd::prelude::*;
use vstd::slice::slice_subrange;
use vstd::std_specs::cmp::PartialEqSpecImpl;
use vstd::string::{StringExecFns, StringSliceAdditionalSpecFns};
use vstd::utf8::{encode_utf8, is_ascii_chars, is_ascii_chars_encode_utf8};

use crate::net::{
    LockableNetProtocols, NetDevice, NetDeviceError, NetInterface, NetInterfaceFamily,
    NetInterfaceType, NetProtocol, NetProtocolError, ProtocolHandlerType,
};
use crate::utils::{
    ascii, checksum16, checksum16_spec, decimal_text, field_value, hex16_text, join_fields,
    lemma_ascii_concat, lemma_decimal_round_trip, lemma_split_joined, parse_fields,
    parse_fields_spec, push_decimal, push_hex16,
};

verus! {

/// The length of a header without options, in bytes.
pub const IP_HEADER_SIZE_MIN: u16 = 20;

/// The length of the longest header, in bytes.
pub const IP_HEADER_SIZE_MAX: u16 = 60;

/// The version that the header of an IPv4 datagram carries.
pub const IP_VERSION_IPV4: u8 = 4;

/// The length of the longest datagram, in bytes.
pub const IP_TOTAL_SIZE_MAX: u16 = 65535;

/// The length of the longest payload: that of the longest datagram less
/// that of the shortest header.
pub const IP_PAYLOAD_SIZE_MAX: u16 = 65515;

/// The number of bytes of an address.
pub const IPV4_ADDRESS_SIZE: usize = 4;

/// An IPv4 address: its four bytes in the order of the wire, which is the
/// order in which dotted-decimal text writes them.
#[derive(Debug, Clone, Copy)]
pub struct Ipv4Address(pub [u8; 4]);

/// The limited broadcast address, 255.255.255.255, as an integer.
pub const IP_ADDRESS_BROADCAST: u32 = 0xffff_ffff;

/// An address that cannot be read.
#[derive(Debug, Clone, Copy, PartialEq, Eq, Structural)]
pub enum AddressError {
    /// The text is not an address of the kind asked for.
    InvalidAddress,
}

impl PartialEq for Ipv4Address {
    fn eq(&self, other: &Self) -> (equal: bool) {
        self.0[0] == other.0[0] && self.0[1] == other.0[1] && self.0[2] == other.0[2] && self.0[3]
            == other.0[3]
    }
}

impl Eq for Ipv4Address {

}

impl PartialEqSpecImpl for Ipv4Address {
    open spec fn obeys_eq_spec() -> bool {
        true
    }

    open spec fn eq_spec(&self, other: &Self) -> bool {
        self.same(*other)
    }
}

/// The integer of four bytes of which the first is the least significant.
pub open spec fn u32_of_bytes(b0: u8, b1: u8, b2: u8, b3: u8) -> u32 {
    ((b3 as u32) << 24) | ((b2 as u32) << 16) | ((b1 as u32) << 8) | (b0 as u32)
}

/// The broadcast address of the network of `unicast` under `netmask`, as
/// integers: the network's bits, and ones where the mask has zeros.
pub open spec fn broadcast_of(unicast: u32, netmask: u32) -> u32 {
    (unicast & netmask) | !netmask
}

/// A broadcast address lies in the network of its unicast address, and all
/// of its host bits are set.
pub proof fn lemma_broadcast_of(unicast: u32, netmask: u32)
    ensures
        broadcast_of(unicast, netmask) & netmask == unicast & netmask,
        broadcast_of(unicast, netmask) | netmask == 0xffff_ffffu32,
{
    assert(((unicast & netmask) | !netmask) & netmask == unicast & netmask) by (bit_vector);
    assert(((unicast & netmask) | !netmask) | netmask == 0xffff_ffffu32) by (bit_vector);
}

impl Ipv4Address {
    /// The four bytes of the address, in the order of the wire.
    pub open spec fn bytes(&self) -> Seq<u8> {
        self.0@
    }

    /// Whether the two addresses have the same four bytes: what `==` tests.
    pub open spec fn same(&self, other: Ipv4Address) -> bool {
        self.0[0] == other.0[0] && self.0[1] == other.0[1] && self.0[2] == other.0[2] && self.0[3]
            == other.0[3]
    }

    /// The address as an integer; see `to_u32`.
    pub open spec fn as_u32(&self) -> u32 {
        u32_of_bytes(self.0[0], self.0[1], self.0[2], self.0[3])
    }

    /// The address that the dotted-decimal `text` writes, if it is one: four
    /// decimal numbers of at most 255, separated by dots.
    pub open spec fn parse(text: Seq<u8>) -> Option<Seq<u8>> {
        match parse_fields_spec(text, 0x2e, false) {
            Some(bytes) => if bytes.len() == 4 {
                Some(bytes)
            } else {
                None
            },
            None => None,
        }
    }

    /// Reads a dotted-decimal address, such as `192.0.2.1`.
    pub fn from_str(address_str: &str) -> (r: Result<Self, AddressError>)
        ensures
            r is Ok <==> Self::parse(address_str.spec_bytes()) is Some,
            r matches Ok(a) ==> a.bytes() == Self::parse(address_str.spec_bytes()).unwrap(),
            r matches Err(e) ==> e == AddressError::InvalidAddress,
    {
        match parse_fields(address_str.as_bytes(), 0x2e, false) {
            Some(v) => {
                if v.len() == 4 {
                    let a = Ipv4Address([v[0], v[1], v[2], v[3]]);
                    assert(a.bytes() == v@);
                    Ok(a)
                } else {
                    Err(AddressError::InvalidAddress)
                }
            },
            None => Err(AddressError::InvalidAddress),
        }
    }

    /// The address in dotted-decimal text.
    pub open spec fn text(&self) -> Seq<char> {
        decimal_text(self.0[0]) + seq!['.'] + decimal_text(self.0[1]) + seq!['.'] + decimal_text(
            self.0[2],
        ) + seq!['.'] + decimal_text(self.0[3])
    }

    /// Writes the address in dotted-decimal text, such as `192.0.2.1`.
    pub fn to_string(&self) -> (s: String)
        ensures
            s@ == self.text(),
    {
        proof {
            reveal_strlit(".");
        }
        let mut s: String = String::new();
        push_decimal(&mut s, self.0[0]);
        s.append(".");
        push_decimal(&mut s, self.0[1]);
        s.append(".");
        push_decimal(&mut s, self.0[2]);
        s.append(".");
        push_decimal(&mut s, self.0[3]);
        assert("."@ =~= seq!['.']);
        assert(s@ =~= self.text());
        s
    }

    /// The limited broadcast address, 255.255.255.255.
    pub fn broadcast() -> (a: Self)
        ensures
            a.bytes() == seq![255u8, 255u8, 255u8, 255u8],
            a.as_u32() == IP_ADDRESS_BROADCAST,
    {
        let a = Ipv4Address([255, 255, 255, 255]);
        assert(a.bytes() =~= seq![255u8, 255u8, 255u8, 255u8]);
        assert(u32_of_bytes(255, 255, 255, 255) == 0xffff_ffffu32) by (bit_vector);
        a
    }

    /// The address whose first byte is the least significant byte of `u`.
    pub fn from_u32(u: u32) -> (a: Self)
        ensures
            a.as_u32() == u,
            a.0[0] == (u & 0xff) as u8,
            a.0[1] == ((u >> 8) & 0xff) as u8,
            a.0[2] == ((u >> 16) & 0xff) as u8,
            a.0[3] == ((u >> 24) & 0xff) as u8,
    {
        let b0: u8 = (u & 0xff) as u8;
        let b1: u8 = ((u >> 8) & 0xff) as u8;
        let b2: u8 = ((u >> 16) & 0xff) as u8;
        let b3: u8 = ((u >> 24) & 0xff) as u8;
        assert(u32_of_bytes(b0, b1, b2, b3) == u) by (bit_vector)
            requires
                b0 == (u & 0xff) as u8,
                b1 == ((u >> 8) & 0xff) as u8,
                b2 == ((u >> 16) & 0xff) as u8,
                b3 == ((u >> 24) & 0xff) as u8,
        ;
        Ipv4Address([b0, b1, b2, b3])
    }

    /// The address as an integer: the first byte is the least significant.
    pub fn to_u32(&self) -> (u: u32)
        ensures
            u == self.as_u32(),
    {
        ((self.0[3] as u32) << 24) | ((self.0[2] as u32) << 16) | ((self.0[1] as u32) << 8) | (
        self.0[0] as u32)
    }
}

/// Two addresses with the same integer are the same address.
pub proof fn lemma_as_u32_injective(a: Ipv4Address, b: Ipv4Address)
    requires
        a.as_u32() == b.as_u32(),
    ensures
        a.bytes() == b.bytes(),
{
    let (a0, a1, a2, a3) = (a.0[0], a.0[1], a.0[2], a.0[3]);
    let (b0, b1, b2, b3) = (b.0[0], b.0[1], b.0[2], b.0[3]);
    assert(a0 == b0 && a1 == b1 && a2 == b2 && a3 == b3) by (bit_vector)
        requires
            u32_of_bytes(a0, a1, a2, a3) == u32_of_bytes(b0, b1, b2, b3),
    ;
    assert(a.bytes() =~= b.bytes());
}

/// An address is read back from its text: the text that `to_string` writes
/// is one that `from_str` reads, as the address that was written.
pub proof fn lemma_ipv4_text_round_trip(a: Ipv4Address)
    ensures
        is_ascii_chars(a.text()),
        Ipv4Address::parse(encode_utf8(a.text())) == Some(a.bytes()),
{
    let dot = seq!['.'];
    let texts = seq![
        decimal_text(a.0[0]),
        decimal_text(a.0[1]),
        decimal_text(a.0[2]),
        decimal_text(a.0[3]),
    ];
    let fields = seq![ascii(texts[0]), ascii(texts[1]), ascii(texts[2]), ascii(texts[3])];
    lemma_decimal_round_trip(a.0[0]);
    lemma_decimal_round_trip(a.0[1]);
    lemma_decimal_round_trip(a.0[2]);
    lemma_decimal_round_trip(a.0[3]);
    assert(is_ascii_chars(dot));
    assert(ascii(dot) =~= seq![0x2eu8]);
    lemma_ascii_concat(texts[0], dot);
    lemma_ascii_concat(texts[0] + dot, texts[1]);
    lemma_ascii_concat(texts[0] + dot + texts[1], dot);
    lemma_ascii_concat(texts[0] + dot + texts[1] + dot, texts[2]);
    lemma_ascii_concat(texts[0] + dot + texts[1] + dot + texts[2], dot);
    lemma_ascii_concat(texts[0] + dot + texts[1] + dot + texts[2] + dot, texts[3]);
    let text = a.text();
    is_ascii_chars_encode_utf8(text);
    assert(encode_utf8(text) =~= ascii(text));
    assert(join_fields(fields, 0x2e) =~= ascii(text)) by {
        let one = fields.drop_last().drop_last().drop_last();
        let two = fields.drop_last().drop_last();
        let three = fields.drop_last();
        assert(join_fields(one, 0x2e) == fields[0]);
        assert(two.drop_last() =~= one);
        assert(join_fields(two, 0x2e) == fields[0].push(0x2e) + fields[1]);
        assert(three.drop_last() =~= two);
        assert(join_fields(three, 0x2e) == (fields[0].push(0x2e) + fields[1]).push(0x2e)
            + fields[2]);
    }
    assert forall|k: int, i: int|
        0 <= k < fields.len() && 0 <= i < fields[k].len() implies #[trigger] fields[k][i]
        != 0x2e by {
        assert(ascii(texts[k])[i] != 0x2e);
    }
    lemma_split_joined(fields, 0x2e);
    assert forall|k: int| 0 <= k < fields.len() implies field_value(#[trigger] fields[k], false)
        == Some(a.0[k]) by {
        assert(fields[k] == ascii(decimal_text(a.0[k])));
    }
    assert(parse_fields_spec(ascii(text), 0x2e, false).unwrap() =~= a.bytes());
}

/// The 16-bit number whose big-endian bytes are `hi` and `lo`.
pub open spec fn be16(hi: u8, lo: u8) -> u16 {
    (hi as u16 * 256 + lo as u16) as u16
}

/// The upper-layer protocols that an IPv4 datagram can carry.
#[derive(Debug, Clone, Copy, PartialEq, Eq, Structural)]
pub enum Protocol {
    Icmp,
    Ip,
    Tcp,
    Udp,
    Unimplement,
}

impl Protocol {
    /// The protocol of the number `u` in a header's protocol field.
    pub open spec fn of_u8(u: u8) -> Protocol {
        if u == 1 {
            Protocol::Icmp
        } else if u == 4 {
            Protocol::Ip
        } else if u == 6 {
            Protocol::Tcp
        } else if u == 17 {
            Protocol::Udp
        } else {
            Protocol::Unimplement
        }
    }

    /// The name of the protocol.
    pub open spec fn name(self) -> Seq<char> {
        match self {
            Protocol::Icmp => "ICMP"@,
            Protocol::Ip => "IP"@,
            Protocol::Tcp => "TCP"@,
            Protocol::Udp => "UDP"@,
            Protocol::Unimplement => "Unimplement"@,
        }
    }

    /// The name of the protocol.
    pub fn to_string(&self) -> (s: String)
        ensures
            s@ == self.name(),
    {
        match self {
            Protocol::Icmp => "ICMP".to_owned(),
            Protocol::Ip => "IP".to_owned(),
            Protocol::Tcp => "TCP".to_owned(),
            Protocol::Udp => "UDP".to_owned(),
            Protocol::Unimplement => "Unimplement".to_owned(),
        }
    }
}

/// The fixed part of an IPv4 header, its fields decoded from the wire.
#[derive(Debug, Clone, Copy)]
pub struct Ipv4Header {
    /// Version in the high four bits, header length in 32-bit words in the low four.
    pub vhl: u8,
    /// Type of service.
    pub tos: u8,
    /// Length of the datagram in bytes, header included.
    pub total_length: u16,
    /// Identification.
    pub id: u16,
    /// Flags in the high three bits, fragment offset in the low thirteen.
    pub offset: u16,
    pub time_to_live: u8,
    /// Number of the upper-layer protocol.
    pub protocol: u8,
    /// Header checksum.
    pub sum: u16,
    pub src_ip_address: Ipv4Address,
    pub dst_ip_address: Ipv4Address,
}

impl Ipv4Header {
    /// The header that the first twenty bytes of `data` hold. Fields of more
    /// than one byte are big-endian on the wire.
    pub open spec fn decode(data: Seq<u8>) -> Ipv4Header {
        Ipv4Header {
            vhl: data[0],
            tos: data[1],
            total_length: be16(data[2], data[3]),
            id: be16(data[4], data[5]),
            offset: be16(data[6], data[7]),
            time_to_live: data[8],
            protocol: data[9],
            sum: be16(data[10], data[11]),
            src_ip_address: Ipv4Address([data[12], data[13], data[14], data[15]]),
            dst_ip_address: Ipv4Address([data[16], data[17], data[18], data[19]]),
        }
    }

    /// The version: the high four bits of the first byte.
    pub open spec fn spec_version(&self) -> u8 {
        self.vhl >> 4
    }

    /// The length of the header in bytes: four times the low four bits of
    /// the first byte.
    pub open spec fn spec_header_length(&self) -> u8 {
        (self.vhl & 0x0f) << 2
    }

    /// Decodes the header at the start of `data`, which takes twenty bytes.
    pub fn parse(data: &[u8]) -> (header: Option<Ipv4Header>)
        ensures
            header is Some <==> data@.len() >= 20,
            header matches Some(h) ==> h == Self::decode(data@),
    {
        if data.len() < 20 {
            return None;
        }
        Some(
            Ipv4Header {
                vhl: data[0],
                tos: data[1],
                total_length: (data[2] as u16) * 256 + (data[3] as u16),
                id: (data[4] as u16) * 256 + (data[5] as u16),
                offset: (data[6] as u16) * 256 + (data[7] as u16),
                time_to_live: data[8],
                protocol: data[9],
                sum: (data[10] as u16) * 256 + (data[11] as u16),
                src_ip_address: Ipv4Address([data[12], data[13], data[14], data[15]]),
                dst_ip_address: Ipv4Address([data[16], data[17], data[18], data[19]]),
            },
        )
    }

    /// The version: the high four bits of the first byte.
    #[verifier::when_used_as_spec(spec_version)]
    pub fn version(&self) -> (v: u8)
        ensures
            v == self.spec_version(),
            v <= 15,
    {
        let vhl: u8 = self.vhl;
        let v: u8 = vhl >> 4;
        assert(v <= 15) by (bit_vector)
            requires
                v == vhl >> 4,
        ;
        v
    }

    /// The length of the header in bytes.
    #[verifier::when_used_as_spec(spec_header_length)]
    pub fn header_length(&self) -> (n: u8)
        ensures
            n == self.spec_header_length(),
            n == 4 * (self.vhl & 0x0f),
            n <= 60,
    {
        let vhl: u8 = self.vhl;
        let n: u8 = (vhl & 0x0f) << 2;
        assert(n == 4 * (vhl & 0x0f) && n <= 60) by (bit_vector)
            requires
                n == (vhl & 0x0f) << 2,
        ;
        n
    }

    /// The type of service.
    pub fn type_of_service(&self) -> (tos: u8)
        ensures
            tos == self.tos,
    {
        self.tos
    }

    /// The low six bits of the type of service.
    pub fn dscp(&self) -> (v: u8)
        ensures
            v == self.tos & 0b11_1111,
    {
        self.tos & 0b11_1111
    }

    /// The high two bits of the type of service.
    pub fn ecn(&self) -> (v: u8)
        ensures
            v == (self.tos >> 6) & 0b11,
    {
        (self.tos >> 6) & 0b11
    }

    /// The length of the datagram in bytes, header included.
    pub fn total_length(&self) -> (n: u16)
        ensures
            n == self.total_length,
    {
        self.total_length
    }

    /// The identification.
    pub fn id(&self) -> (id: u16)
        ensures
            id == self.id,
    {
        self.id
    }

    /// The three flag bits: reserved, don't fragment, more fragments.
    pub fn flags(&self) -> (f: u16)
        ensures
            f == self.offset >> 13,
    {
        self.offset >> 13
    }

    /// The fragment offset, in units of eight bytes.
    pub fn offset(&self) -> (o: u16)
        ensures
            o == self.offset & 0x1fff,
    {
        self.offset & 0x1fff
    }

    /// The time to live.
    pub fn time_to_live(&self) -> (ttl: u8)
        ensures
            ttl == self.time_to_live,
    {
        self.time_to_live
    }

    /// The upper-layer protocol that the datagram carries.
    pub fn protocol(&self) -> (p: Protocol)
        ensures
            p == Protocol::of_u8(self.protocol),
    {
        if self.protocol == 1 {
            Protocol::Icmp
        } else if self.protocol == 4 {
            Protocol::Ip
        } else if self.protocol == 6 {
            Protocol::Tcp
        } else if self.protocol == 17 {
            Protocol::Udp
        } else {
            Protocol::Unimplement
        }
    }

    /// The checksum that the header carries.
    pub fn checksum(&self) -> (sum: u16)
        ensures
            sum == self.sum,
    {
        self.sum
    }

    /// The address that the datagram comes from.
    pub fn src_address(&self) -> (a: Ipv4Address)
        ensures
            a == self.src_ip_address,
    {
        self.src_ip_address
    }

    /// The address that the datagram is for.
    pub fn dst_address(&self) -> (a: Ipv4Address)
        ensures
            a == self.dst_ip_address,
    {
        self.dst_ip_address
    }
}

/// An IPv4 interface: the address of a device, with its network.
#[derive(Debug, Clone, Copy)]
pub struct IpInterface {
    pub net_interface: NetInterface,
    pub unicast: Ipv4Address,
    pub netmask: Ipv4Address,
    pub broadcast: Ipv4Address,
}

/// Why the input path rejected a datagram.
#[derive(Debug, Clone, Copy, PartialEq, Eq, Structural)]
pub enum Ipv4Error {
    /// The frame is shorter than a header, or than the header or the
    /// datagram that its header declares.
    HeaderTooShort,
    /// The version is not 4.
    VersionMismatch,
    /// The time to live is zero.
    TTLExpired,
    /// The checksum of the header is not zero.
    ChecksumError,
    /// The datagram is a fragment.
    Fragmentation,
}

/// The bits of a header's flags and fragment offset that a datagram in one
/// piece leaves clear: all but the bit that forbids fragmenting.
pub const IP_FRAGMENT_MASK: u16 = 0xbfff;

/// Whether a datagram for `dst` is for the interface: for its address, for
/// the broadcast address of its network, or for the limited broadcast
/// address. A device without interface takes every datagram.
pub open spec fn addressed_to(dst: Ipv4Address, interface: Option<NetInterfaceType>) -> bool {
    match interface {
        None => true,
        Some(NetInterfaceType::Ip(ip_interface)) => {
            ||| dst.same(ip_interface.unicast)
            ||| dst.same(ip_interface.broadcast)
            ||| dst.as_u32() == IP_ADDRESS_BROADCAST
        },
    }
}

/// What the input path makes of the frame `data` on a device with the
/// given IPv4 interface. The checks are made in this order; the first that
/// fails decides. `Ok(None)` is a datagram for another host, dropped
/// without a word; `Ok(Some(header))` is a datagram that is handed on.
pub open spec fn input_verdict(data: Seq<u8>, interface: Option<NetInterfaceType>) -> Result<
    Option<Ipv4Header>,
    Ipv4Error,
> {
    let header = Ipv4Header::decode(data);
    if data.len() < IP_HEADER_SIZE_MIN {
        Err(Ipv4Error::HeaderTooShort)
    } else if header.spec_version() != IP_VERSION_IPV4 {
        Err(Ipv4Error::VersionMismatch)
    } else if data.len() < header.spec_header_length() || data.len() < header.total_length {
        Err(Ipv4Error::HeaderTooShort)
    } else if header.time_to_live == 0 {
        Err(Ipv4Error::TTLExpired)
    } else if checksum16_spec(data.take(header.spec_header_length() as int), 0) != 0 {
        Err(Ipv4Error::ChecksumError)
    } else if !addressed_to(header.dst_ip_address, interface) {
        Ok(None)
    } else if header.offset & IP_FRAGMENT_MASK != 0 {
        Err(Ipv4Error::Fragmentation)
    } else {
        Ok(Some(header))
    }
}

/// The upper layer's handler of an accepted datagram. There is no upper
/// layer yet.
pub fn handle(_packet: &Ipv4Header) {
}

/// The IPv4 input path: validates the frame `data` that `dev` received, and
/// hands an accepted datagram to the upper layer.
pub fn input(data: &Vec<u8>, dev: &NetDevice) -> (r: Result<Option<Ipv4Header>, Ipv4Error>)
    ensures
        r == input_verdict(data@, dev.spec_get_interface(NetInterfaceFamily::Ip)),
{
    let header: Ipv4Header = match Ipv4Header::parse(data.as_slice()) {
        None => {
            return Err(Ipv4Error::HeaderTooShort);
        },
        Some(header) => header,
    };
    if header.version() != IP_VERSION_IPV4 {
        return Err(Ipv4Error::VersionMismatch);
    }
    let header_length: usize = header.header_length() as usize;
    if data.len() < header_length {
        return Err(Ipv4Error::HeaderTooShort);
    }
    if data.len() < header.total_length() as usize {
        return Err(Ipv4Error::HeaderTooShort);
    }
    if header.time_to_live() == 0 {
        return Err(Ipv4Error::TTLExpired);
    }
    if checksum16(slice_subrange(data.as_slice(), 0, header_length), 0) != 0 {
        return Err(Ipv4Error::ChecksumError);
    }
    let dst: Ipv4Address = header.dst_address();
    match dev.get_interface(NetInterfaceFamily::Ip) {
        Some(NetInterfaceType::Ip(ip_interface)) => {
            if dst != ip_interface.unicast && dst != ip_interface.broadcast && dst.to_u32()
                != IP_ADDRESS_BROADCAST {
                return Ok(None);
            }
        },
        None => {},
    }
    if header.offset & IP_FRAGMENT_MASK != 0 {
        return Err(Ipv4Error::Fragmentation);
    }
    handle(&header);
    Ok(Some(header))
}

/// Registers IPv4 with the protocol table. Where it is registered already,
/// the table stays as it is.
pub fn init(protocols: &mut LockableNetProtocols)
    ensures
        exists|r: Result<(), NetProtocolError>|
            NetProtocol::registers(
                old(protocols).items@,
                0x0800,
                ProtocolHandlerType::Ip,
                final(protocols).items@,
                r,
            ),
        old(protocols).wf() ==> final(protocols).wf(),
{
    let r = NetProtocol::register(protocols, 0x0800, ProtocolHandlerType::Ip);
    match r {
        Ok(()) => (),
        Err(_) => (),
    }
}

impl Default for IpInterface {
    /// The interface 0.0.0.0 with the netmask 0.0.0.0, attached to no device.
    fn default() -> (interface: IpInterface)
        ensures
            interface.net_interface.family == NetInterfaceFamily::Ip,
            interface.net_interface.dev is None,
            interface.unicast.as_u32() == 0,
            interface.netmask.as_u32() == 0,
            interface.broadcast.as_u32() == 0,
    {
        assert(u32_of_bytes(0, 0, 0, 0) == 0) by (bit_vector);
        IpInterface {
            net_interface: NetInterface::default(),
            unicast: Ipv4Address([0, 0, 0, 0]),
            netmask: Ipv4Address([0, 0, 0, 0]),
            broadcast: Ipv4Address([0, 0, 0, 0]),
        }
    }
}

/// The first interface among `items` whose address is `address`.
pub open spec fn interface_with(items: Seq<IpInterface>, address: Ipv4Address) -> Option<
    IpInterface,
>
    decreases items.len(),
{
    if items.len() == 0 {
        None
    } else if items[0].unicast.same(address) {
        Some(items[0])
    } else {
        interface_with(items.skip(1), address)
    }
}

/// The table of IPv4 interfaces, in the order of their registration.
pub struct LockableIpInterfaces {
    pub items: Vec<IpInterface>,
}

/// Exclusive access to the table of IPv4 interfaces, for as long as the
/// value lives.
pub struct LockedIpInterfaces<'a> {
    pub items: &'a mut Vec<IpInterface>,
}

impl LockableIpInterfaces {
    /// Every interface of the table is attached to a device among the first
    /// `devices` of the device table.
    pub open spec fn wf(&self, devices: nat) -> bool {
        forall|i: int|
            0 <= i < self.items@.len() ==> ((#[trigger] self.items@[i]).net_interface.dev
                matches Some(dev) && dev < devices)
    }

    /// An empty table.
    pub fn new() -> (interfaces: Self)
        ensures
            interfaces.items@.len() == 0,
    {
        LockableIpInterfaces { items: Vec::new() }
    }

    /// Takes exclusive access to the table. What is done to the interfaces
    /// through the returned value is done to the table.
    pub fn lock(&mut self) -> (guard: LockedIpInterfaces<'_>)
        ensures
            guard.items@ == old(self).items@,
            final(self).items@ == final(guard.items)@,
    {
        LockedIpInterfaces { items: &mut self.items }
    }
}

impl IpInterface {
    /// The interface attached to the device at `dev`.
    pub open spec fn attached_to(self, dev: usize) -> IpInterface {
        IpInterface {
            net_interface: NetInterface { family: self.net_interface.family, dev: Some(dev) },
            ..self
        }
    }

    /// Makes an interface of an address and a netmask in dotted-decimal
    /// text; its broadcast address is that of the network. The interface
    /// is not attached to a device yet.
    pub fn allocate(unicast: &str, netmask: &str) -> (interface: Option<IpInterface>)
        ensures
            interface is Some <==> Ipv4Address::parse(unicast.spec_bytes()) is Some
                && Ipv4Address::parse(netmask.spec_bytes()) is Some,
            interface matches Some(i) ==> {
                &&& i.net_interface.family == NetInterfaceFamily::Ip
                &&& i.net_interface.dev is None
                &&& i.unicast.bytes() == Ipv4Address::parse(unicast.spec_bytes()).unwrap()
                &&& i.netmask.bytes() == Ipv4Address::parse(netmask.spec_bytes()).unwrap()
                &&& i.broadcast.as_u32() == broadcast_of(i.unicast.as_u32(), i.netmask.as_u32())
            },
    {
        let unicast: Ipv4Address = match Ipv4Address::from_str(unicast) {
            Ok(addr) => addr,
            Err(_) => {
                return None;
            },
        };
        let netmask: Ipv4Address = match Ipv4Address::from_str(netmask) {
            Ok(addr) => addr,
            Err(_) => {
                return None;
            },
        };
        let broadcast: Ipv4Address = Ipv4Address::from_u32(
            (unicast.to_u32() & netmask.to_u32()) | !netmask.to_u32(),
        );
        Some(
            IpInterface {
                net_interface: NetInterface { family: NetInterfaceFamily::Ip, dev: None },
                unicast,
                netmask,
                broadcast,
            },
        )
    }

    /// Attaches an interface to the device `dev` and enters it in the
    /// table. Fails where there is no interface. A device that has an IPv4
    /// interface keeps it; that is no failure.
    pub fn register(
        interfaces: &mut LockableIpInterfaces,
        ip_interface: Option<IpInterface>,
        dev: &mut NetDevice,
    ) -> (r: Result<(), ()>)
        ensures
            r is Ok <==> ip_interface is Some,
            ip_interface is None ==> *final(interfaces) == *old(interfaces),
            ip_interface is None ==> *final(dev) == *old(dev),
            ip_interface matches Some(i) ==> {
                &&& final(interfaces).items@ == old(interfaces).items@.push(
                    i.attached_to(old(dev).index),
                )
                &&& exists|added: Result<(), NetDeviceError>| #[trigger]
                    old(dev).adds(
                        NetInterfaceType::Ip(i.attached_to(old(dev).index)),
                        *final(dev),
                        added,
                    )
            },
            forall|devices: nat|
                #![trigger final(interfaces).wf(devices)]
                old(interfaces).wf(devices) && old(dev).index < devices ==> final(interfaces).wf(
                    devices,
                ),
    {
        let mut ip_interface: IpInterface = match ip_interface {
            None => {
                return Err(());
            },
            Some(ip_interface) => ip_interface,
        };
        ip_interface.net_interface.dev = Some(dev.index);
        interfaces.items.push(ip_interface);
        match dev.add_interface(NetInterfaceType::Ip(ip_interface)) {
            Ok(()) => Ok(()),
            Err(_) => Ok(()),
        }
    }

    /// The first interface of the table whose address is `address`.
    pub fn select(interfaces: &LockableIpInterfaces, address: Ipv4Address) -> (found: Option<
        IpInterface,
    >)
        ensures
            found == interface_with(interfaces.items@, address),
    {
        let mut i: usize = 0;
        assert(interfaces.items@.skip(0) == interfaces.items@);
        while i < interfaces.items.len()
            invariant
                i <= interfaces.items@.len(),
                interface_with(interfaces.items@, address) == interface_with(
                    interfaces.items@.skip(i as int),
                    address,
                ),
            decreases interfaces.items@.len() - i,
        {
            let entry: IpInterface = interfaces.items[i];
            assert(interfaces.items@.skip(i as int)[0] == entry);
            if entry.unicast == address {
                return Some(entry);
            }
            assert(interfaces.items@.skip(i as int).skip(1) == interfaces.items@.skip(i + 1));
            i = i + 1;
        }
        None
    }
}

impl Ipv4Header {
    /// The bytes of the datagram behind the header, as the header has them:
    /// the total length less the header's, and none where that is less
    /// than nothing.
    pub open spec fn spec_payload_length(&self) -> u16 {
        if self.total_length >= self.spec_header_length() {
            (self.total_length - self.spec_header_length()) as u16
        } else {
            0
        }
    }

    /// The length of the datagram less that of its header.
    #[verifier::when_used_as_spec(spec_payload_length)]
    pub fn payload_length(&self) -> (n: u16)
        ensures
            n == self.spec_payload_length(),
    {
        let header_length: u16 = self.header_length() as u16;
        if self.total_length >= header_length {
            self.total_length - header_length
        } else {
            0
        }
    }

    /// The header in words, a line for each field.
    pub open spec fn text(&self) -> Seq<Seq<char>> {
        seq![
            "IPv4 Header =========="@,
            "            vhl: 0x"@ + hex16_text(self.vhl as u16, 2) + " [version: "@ + decimal_text(
                self.spec_version(),
            ) + ", header length: "@ + decimal_text(self.spec_header_length()) + "]"@,
            "type of service: 0x"@ + hex16_text(self.tos as u16, 2),
            "   total length: 0x"@ + hex16_text(self.total_length, 1) + " (payload 0x"@
                + hex16_text(self.spec_payload_length(), 1) + ")"@,
            "             id: "@ + hex16_text(self.id, 1),
            "           flag: 0x"@ + hex16_text(self.offset >> 13, 1),
            "         offset: 0x"@ + hex16_text(self.offset & 0x1fff, 1),
            "   time to live: 0x"@ + hex16_text(self.time_to_live as u16, 1),
            "       protocol: "@ + Protocol::of_u8(self.protocol).name(),
            "       checksum: 0x"@ + hex16_text(self.sum, 4),
            "    src address: "@ + self.src_ip_address.text(),
            "    dst address: "@ + self.dst_ip_address.text(),
        ]
    }
}

/// The views of the strings.
pub open spec fn views(lines: Seq<String>) -> Seq<Seq<char>> {
    lines.map_values(|line: String| line@)
}

/// Writes the header at the start of `data` in words, a line for each
/// field, for whoever keeps a record. There is nothing to write where
/// `data` is shorter than a header.
pub fn dump(data: &[u8]) -> (lines: Option<Vec<String>>)
    ensures
        lines is Some <==> data@.len() >= 20,
        lines matches Some(l) ==> views(l@) == Ipv4Header::decode(data@).text(),
{
    let header: Ipv4Header = match Ipv4Header::parse(data) {
        None => {
            return None;
        },
        Some(header) => header,
    };
    let mut lines: Vec<String> = Vec::new();

    lines.push("IPv4 Header ==========".to_owned());

    let mut vhl: String = "            vhl: 0x".to_owned();
    push_hex16(&mut vhl, header.vhl as u16, 2);
    vhl.append(" [version: ");
    push_decimal(&mut vhl, header.version());
    vhl.append(", header length: ");
    push_decimal(&mut vhl, header.header_length());
    vhl.append("]");
    lines.push(vhl);

    let mut tos: String = "type of service: 0x".to_owned();
    push_hex16(&mut tos, header.type_of_service() as u16, 2);
    lines.push(tos);

    let mut total: String = "   total length: 0x".to_owned();
    push_hex16(&mut total, header.total_length(), 1);
    total.append(" (payload 0x");
    push_hex16(&mut total, header.payload_length(), 1);
    total.append(")");
    lines.push(total);

    let mut id: String = "             id: ".to_owned();
    push_hex16(&mut id, header.id(), 1);
    lines.push(id);

    let mut flag: String = "           flag: 0x".to_owned();
    push_hex16(&mut flag, header.flags(), 1);
    lines.push(flag);

    let mut offset: String = "         offset: 0x".to_owned();
    push_hex16(&mut offset, header.offset(), 1);
    lines.push(offset);

    let mut ttl: String = "   time to live: 0x".to_owned();
    push_hex16(&mut ttl, header.time_to_live() as u16, 1);
    lines.push(ttl);

    let mut protocol: String = "       protocol: ".to_owned();
    protocol.append(header.protocol().to_string().as_str());
    lines.push(protocol);

    let mut sum: String = "       checksum: 0x".to_owned();
    push_hex16(&mut sum, header.checksum(), 4);
    lines.push(sum);

    let mut src: String = "    src address: ".to_owned();
    src.append(header.src_address().to_string().as_str());
    lines.push(src);

    let mut dst: String = "    dst address: ".to_owned();
    dst.append(header.dst_address().to_string().as_str());
    lines.push(dst);

    assert(views(lines@) =~= header.text());
    Some(lines)
}

} // verus!
