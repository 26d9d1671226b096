//! Ethernet: link addresses, frame types, and frames.

use vstd::prelude::*;
use vstd::std_specs::cmp::PartialEqSpecImpl;
use vstd::string::{StringExecFns, StringSliceAdditionalSpecFns};
use vstd::utf8::{encode_utf8, is_ascii_chars, is_ascii_chars_encode_utf8};

use crate::ipv4::{be16, handle as ipv4_handle, AddressError, Ipv4Header};
use crate::utils::{
    ascii, field_value, hex_text, join_fields, lemma_ascii_concat, lemma_hex_round_trip,
    lemma_split_joined, parse_fields, parse_fields_spec, push_hex,
};

verus! {

/// The number of bytes of a link address.
pub const MAC_LENGTH: usize = 6;

/// The length of the header of an Ethernet frame: two addresses and the type.
pub const ETHERNET_HEADER_SIZE: usize = 14;

/// A 48-bit link address.
#[derive(Debug, Clone, Copy)]
pub struct MacAddress(pub [u8; 6]);

impl PartialEq for MacAddress {
    fn eq(&self, other: &Self) -> (equal: bool) {
        self.0[0] == other.0[0] && self.0[1] == other.0[1] && self.0[2] == other.0[2] && self.0[3]
            == other.0[3] && self.0[4] == other.0[4] && self.0[5] == other.0[5]
    }
}

impl Eq for MacAddress {

}

impl PartialEqSpecImpl for MacAddress {
    open spec fn obeys_eq_spec() -> bool {
        true
    }

    open spec fn eq_spec(&self, other: &Self) -> bool {
        self.same(*other)
    }
}

impl Default for MacAddress {
    fn default() -> (a: MacAddress)
        ensures
            a.bytes() == seq![0u8, 0u8, 0u8, 0u8, 0u8, 0u8],
    {
        MacAddress::any()
    }
}

impl MacAddress {
    /// The six bytes of the address.
    pub open spec fn bytes(&self) -> Seq<u8> {
        self.0@
    }

    /// Whether the two addresses have the same six bytes: what `==` tests.
    pub open spec fn same(&self, other: MacAddress) -> bool {
        self.0[0] == other.0[0] && self.0[1] == other.0[1] && self.0[2] == other.0[2] && self.0[3]
            == other.0[3] && self.0[4] == other.0[4] && self.0[5] == other.0[5]
    }

    /// The address that `text` writes, if it is one: six hexadecimal
    /// numbers of at most ff, separated by colons.
    pub open spec fn parse(text: Seq<u8>) -> Option<Seq<u8>> {
        match parse_fields_spec(text, 0x3a, true) {
            Some(bytes) => if bytes.len() == 6 {
                Some(bytes)
            } else {
                None
            },
            None => None,
        }
    }

    /// The address as text: six hexadecimal numbers in capital letters,
    /// without leading zeros, between colons.
    pub open spec fn text(&self) -> Seq<char> {
        hex_text(self.0[0]) + seq![':'] + hex_text(self.0[1]) + seq![':'] + hex_text(self.0[2])
            + seq![':'] + hex_text(self.0[3]) + seq![':'] + hex_text(self.0[4]) + seq![':']
            + hex_text(self.0[5])
    }

    /// Writes the address as text, such as `0:0:5E:0:53:FF`.
    pub fn to_string(&self) -> (s: String)
        ensures
            s@ == self.text(),
    {
        proof {
            reveal_strlit(":");
        }
        let mut s: String = String::new();
        push_hex(&mut s, self.0[0]);
        s.append(":");
        push_hex(&mut s, self.0[1]);
        s.append(":");
        push_hex(&mut s, self.0[2]);
        s.append(":");
        push_hex(&mut s, self.0[3]);
        s.append(":");
        push_hex(&mut s, self.0[4]);
        s.append(":");
        push_hex(&mut s, self.0[5]);
        assert(":"@ =~= seq![':']);
        assert(s@ =~= self.text());
        s
    }

    /// The address of no station, 00:00:00:00:00:00.
    pub fn any() -> (a: MacAddress)
        ensures
            a.bytes() == seq![0u8, 0u8, 0u8, 0u8, 0u8, 0u8],
    {
        let a = MacAddress([0, 0, 0, 0, 0, 0]);
        assert(a.bytes() =~= seq![0u8, 0u8, 0u8, 0u8, 0u8, 0u8]);
        a
    }

    /// The address of all stations, ff:ff:ff:ff:ff:ff.
    pub fn broadcast() -> (a: MacAddress)
        ensures
            a.bytes() == seq![0xffu8, 0xffu8, 0xffu8, 0xffu8, 0xffu8, 0xffu8],
    {
        let a = MacAddress([0xff, 0xff, 0xff, 0xff, 0xff, 0xff]);
        assert(a.bytes() =~= seq![0xffu8, 0xffu8, 0xffu8, 0xffu8, 0xffu8, 0xffu8]);
        a
    }

    /// Reads an address written as six hexadecimal numbers between colons,
    /// such as `00:00:5e:00:53:ff`.
    pub fn from_str(address_str: &str) -> (r: Result<Self, AddressError>)
        ensures
            r is Ok <==> Self::parse(address_str.spec_bytes()) is Some,
            r matches Ok(a) ==> a.bytes() == Self::parse(address_str.spec_bytes()).unwrap(),
            r matches Err(e) ==> e == AddressError::InvalidAddress,
    {
        match parse_fields(address_str.as_bytes(), 0x3a, true) {
            Some(v) => {
                if v.len() == 6 {
                    let a = MacAddress([v[0], v[1], v[2], v[3], v[4], v[5]]);
                    assert(a.bytes() == v@);
                    Ok(a)
                } else {
                    Err(AddressError::InvalidAddress)
                }
            },
            None => Err(AddressError::InvalidAddress),
        }
    }
}

/// An address is read back from its text: the text that `to_string` writes
/// is one that `from_str` reads, as the address that was written.
pub proof fn lemma_mac_text_round_trip(a: MacAddress)
    ensures
        is_ascii_chars(a.text()),
        MacAddress::parse(encode_utf8(a.text())) == Some(a.bytes()),
{
    let colon = seq![':'];
    let texts = seq![
        hex_text(a.0[0]),
        hex_text(a.0[1]),
        hex_text(a.0[2]),
        hex_text(a.0[3]),
        hex_text(a.0[4]),
        hex_text(a.0[5]),
    ];
    let fields = seq![
        ascii(texts[0]),
        ascii(texts[1]),
        ascii(texts[2]),
        ascii(texts[3]),
        ascii(texts[4]),
        ascii(texts[5]),
    ];
    lemma_hex_round_trip(a.0[0]);
    lemma_hex_round_trip(a.0[1]);
    lemma_hex_round_trip(a.0[2]);
    lemma_hex_round_trip(a.0[3]);
    lemma_hex_round_trip(a.0[4]);
    lemma_hex_round_trip(a.0[5]);
    assert(is_ascii_chars(colon));
    assert(ascii(colon) =~= seq![0x3au8]);
    let t1 = texts[0] + colon;
    let t2 = t1 + texts[1] + colon;
    let t3 = t2 + texts[2] + colon;
    let t4 = t3 + texts[3] + colon;
    let t5 = t4 + texts[4] + colon;
    lemma_ascii_concat(texts[0], colon);
    lemma_ascii_concat(t1, texts[1]);
    lemma_ascii_concat(t1 + texts[1], colon);
    lemma_ascii_concat(t2, texts[2]);
    lemma_ascii_concat(t2 + texts[2], colon);
    lemma_ascii_concat(t3, texts[3]);
    lemma_ascii_concat(t3 + texts[3], colon);
    lemma_ascii_concat(t4, texts[4]);
    lemma_ascii_concat(t4 + texts[4], colon);
    lemma_ascii_concat(t5, texts[5]);
    let text = a.text();
    assert(text == t5 + texts[5]);
    is_ascii_chars_encode_utf8(text);
    assert(encode_utf8(text) =~= ascii(text));
    assert(join_fields(fields, 0x3a) =~= ascii(text)) by {
        let five = fields.drop_last();
        let four = five.drop_last();
        let three = four.drop_last();
        let two = three.drop_last();
        let one = two.drop_last();
        assert(join_fields(one, 0x3a) == fields[0]);
        assert(join_fields(two, 0x3a) == join_fields(one, 0x3a).push(0x3a) + fields[1]);
        assert(join_fields(three, 0x3a) == join_fields(two, 0x3a).push(0x3a) + fields[2]);
        assert(join_fields(four, 0x3a) == join_fields(three, 0x3a).push(0x3a) + fields[3]);
        assert(join_fields(five, 0x3a) == join_fields(four, 0x3a).push(0x3a) + fields[4]);
        assert(join_fields(fields, 0x3a) == join_fields(five, 0x3a).push(0x3a) + fields[5]);
    }
    assert forall|k: int, i: int|
        0 <= k < fields.len() && 0 <= i < fields[k].len() implies #[trigger] fields[k][i]
        != 0x3a by {
        assert(ascii(texts[k])[i] != 0x3a);
    }
    lemma_split_joined(fields, 0x3a);
    assert forall|k: int| 0 <= k < fields.len() implies field_value(#[trigger] fields[k], true)
        == Some(a.0[k]) by {
        assert(fields[k] == ascii(hex_text(a.0[k])));
    }
    assert(parse_fields_spec(ascii(text), 0x3a, true).unwrap() =~= a.bytes());
}

/// The types of payload that an Ethernet frame can carry.
#[derive(Debug, Clone, Copy, PartialEq, Eq, Structural)]
#[non_exhaustive]
pub enum PacketType {
    Ipv4,
    Arp,
    Rarp,
    AppleTalk,
    Ieee802,
    Ipx,
    Ipv6,
}

impl PacketType {
    /// The number of the type in a frame's header.
    pub open spec fn number(self) -> u16 {
        match self {
            PacketType::Ipv4 => 0x0800,
            PacketType::Arp => 0x0806,
            PacketType::Rarp => 0x8035,
            PacketType::AppleTalk => 0x809b,
            PacketType::Ieee802 => 0x8100,
            PacketType::Ipx => 0x8137,
            PacketType::Ipv6 => 0x86dd,
        }
    }

    /// The type of the number `u`, if it is the number of one.
    pub open spec fn of_u16(u: u16) -> Option<PacketType> {
        if u == 0x0800 {
            Some(PacketType::Ipv4)
        } else if u == 0x0806 {
            Some(PacketType::Arp)
        } else if u == 0x8035 {
            Some(PacketType::Rarp)
        } else if u == 0x809b {
            Some(PacketType::AppleTalk)
        } else if u == 0x8100 {
            Some(PacketType::Ieee802)
        } else if u == 0x8137 {
            Some(PacketType::Ipx)
        } else if u == 0x86dd {
            Some(PacketType::Ipv6)
        } else {
            None
        }
    }

    /// The name of the type.
    pub open spec fn name(self) -> Seq<char> {
        match self {
            PacketType::Ipv4 => "IPv4"@,
            PacketType::Arp => "ARP"@,
            PacketType::Rarp => "RARP"@,
            PacketType::AppleTalk => "AppleTalk"@,
            PacketType::Ieee802 => "IEEE802"@,
            PacketType::Ipx => "IPX"@,
            PacketType::Ipv6 => "IPv6"@,
        }
    }

    /// The number of the type in a frame's header.
    pub fn to_u16(&self) -> (u: u16)
        ensures
            u == self.number(),
            Self::of_u16(u) == Some(*self),
    {
        match self {
            PacketType::Ipv4 => 0x0800,
            PacketType::Arp => 0x0806,
            PacketType::Rarp => 0x8035,
            PacketType::AppleTalk => 0x809b,
            PacketType::Ieee802 => 0x8100,
            PacketType::Ipx => 0x8137,
            PacketType::Ipv6 => 0x86dd,
        }
    }

    /// The type of the number `u`, if it is the number of one.
    pub fn from_u16(u: u16) -> (t: Option<PacketType>)
        ensures
            t == Self::of_u16(u),
    {
        if u == 0x0800 {
            Some(PacketType::Ipv4)
        } else if u == 0x0806 {
            Some(PacketType::Arp)
        } else if u == 0x8035 {
            Some(PacketType::Rarp)
        } else if u == 0x809b {
            Some(PacketType::AppleTalk)
        } else if u == 0x8100 {
            Some(PacketType::Ieee802)
        } else if u == 0x8137 {
            Some(PacketType::Ipx)
        } else if u == 0x86dd {
            Some(PacketType::Ipv6)
        } else {
            None
        }
    }

    /// The name of the type.
    pub fn to_string(&self) -> (s: String)
        ensures
            s@ == self.name(),
    {
        match self {
            PacketType::Ipv4 => "IPv4".to_owned(),
            PacketType::Arp => "ARP".to_owned(),
            PacketType::Rarp => "RARP".to_owned(),
            PacketType::AppleTalk => "AppleTalk".to_owned(),
            PacketType::Ieee802 => "IEEE802".to_owned(),
            PacketType::Ipx => "IPX".to_owned(),
            PacketType::Ipv6 => "IPv6".to_owned(),
        }
    }
}

/// The number in the type field of the Ethernet frame `frame`: its bytes
/// 12 and 13, big-endian. A frame shorter than a header has none.
pub open spec fn frame_type_of(frame: Seq<u8>) -> Option<u16> {
    if frame.len() >= ETHERNET_HEADER_SIZE {
        Some(be16(frame[12], frame[13]))
    } else {
        None
    }
}

/// Reads the number of the protocol that the Ethernet frame `frame` carries.
pub fn frame_type(frame: &[u8]) -> (t: Option<u16>)
    ensures
        t == frame_type_of(frame@),
{
    if frame.len() >= ETHERNET_HEADER_SIZE {
        Some((frame[12] as u16) * 256 + (frame[13] as u16))
    } else {
        None
    }
}

/// An Ethernet frame, taken apart.
#[derive(Debug)]
pub struct EthernetPacket {
    pub dst_mac: MacAddress,
    pub src_mac: MacAddress,
    pub packet_type: PacketType,
    pub payload: Vec<u8>,
}

impl Clone for EthernetPacket {
    fn clone(&self) -> (copy: EthernetPacket)
        ensures
            copy.dst_mac == self.dst_mac,
            copy.src_mac == self.src_mac,
            copy.packet_type == self.packet_type,
            copy.payload@ == self.payload@,
    {
        EthernetPacket {
            dst_mac: self.dst_mac,
            src_mac: self.src_mac,
            packet_type: self.packet_type,
            payload: self.payload.clone(),
        }
    }
}

impl EthernetPacket {
    /// The frame that `frame` holds: destination, source and type, then
    /// the payload. There is none where `frame` is shorter than a header,
    /// or its type is not known.
    pub open spec fn decodes(frame: Seq<u8>, packet: Option<EthernetPacket>) -> bool {
        match packet {
            None => frame_type_of(frame) is None || PacketType::of_u16(
                frame_type_of(frame).unwrap(),
            ) is None,
            Some(p) => {
                &&& frame_type_of(frame) matches Some(t)
                &&& PacketType::of_u16(t) == Some(p.packet_type)
                &&& p.dst_mac.bytes() == frame.subrange(0, 6)
                &&& p.src_mac.bytes() == frame.subrange(6, 12)
                &&& p.payload@ == frame.skip(14)
            },
        }
    }

    /// Takes an Ethernet frame apart.
    pub fn parse(frame: &[u8]) -> (packet: Option<EthernetPacket>)
        ensures
            Self::decodes(frame@, packet),
    {
        let number: u16 = match frame_type(frame) {
            None => {
                return None;
            },
            Some(number) => number,
        };
        let packet_type: PacketType = match PacketType::from_u16(number) {
            None => {
                return None;
            },
            Some(packet_type) => packet_type,
        };
        let dst_mac = MacAddress([frame[0], frame[1], frame[2], frame[3], frame[4], frame[5]]);
        let src_mac = MacAddress([frame[6], frame[7], frame[8], frame[9], frame[10], frame[11]]);
        let payload: Vec<u8> = vstd::slice::slice_to_vec(
            vstd::slice::slice_subrange(frame, 14, frame.len()),
        );
        assert(dst_mac.bytes() =~= frame@.subrange(0, 6));
        assert(src_mac.bytes() =~= frame@.subrange(6, 12));
        Some(EthernetPacket { dst_mac, src_mac, packet_type, payload })
    }

    /// The address that the frame was sent to.
    pub fn get_dst_mac(&self) -> (mac: &MacAddress)
        ensures
            *mac == self.dst_mac,
    {
        &self.dst_mac
    }

    /// The address that the frame was sent from.
    pub fn get_src_mac(&self) -> (mac: &MacAddress)
        ensures
            *mac == self.src_mac,
    {
        &self.src_mac
    }

    /// The type of the payload.
    pub fn get_type(&self) -> (packet_type: PacketType)
        ensures
            packet_type == self.packet_type,
    {
        self.packet_type
    }

    /// The bytes behind the header.
    pub fn payload(&self) -> (payload: &Vec<u8>)
        ensures
            *payload == self.payload,
    {
        &self.payload
    }
}

/// Hands the payload of an IPv4 frame to the IPv4 layer, and returns the
/// header that was handed on. Frames of other types, and IPv4 frames too
/// short for a header, are left alone.
pub fn handle(packet: &EthernetPacket) -> (header: Option<Ipv4Header>)
    ensures
        header is Some <==> packet.packet_type == PacketType::Ipv4 && packet.payload@.len() >= 20,
        header matches Some(h) ==> h == Ipv4Header::decode(packet.payload@),
{
    match packet.get_type() {
        PacketType::Ipv4 => {
            match Ipv4Header::parse(packet.payload().as_slice()) {
                Some(header) => {
                    ipv4_handle(&header);
                    Some(header)
                },
                None => None,
            }
        },
        _ => None,
    }
}

} // verus!
