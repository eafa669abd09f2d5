//! The packets on the wire: a type byte, then a conversation id or a KCP frame.

use crate::buffer::bytes_mut_view;
use bytes::BytesMut;
use vstd::prelude::*;
use vstd::slice::slice_subrange;

verus! {

/// The kinds of packets, in the order of their type bytes.
#[derive(Debug, Clone, Copy, PartialEq, Eq, Structural)]
pub enum PacketType {
    KcpData,
    Syn,
    SynAck,
    Reset,
}

impl PacketType {
    /// The type byte of a packet.
    pub open spec fn byte(self) -> u8 {
        match self {
            PacketType::KcpData => 0,
            PacketType::Syn => 1,
            PacketType::SynAck => 2,
            PacketType::Reset => 3,
        }
    }

    /// The packet type that a type byte names, if any.
    pub open spec fn of_byte(b: u8) -> Option<PacketType> {
        if b == 0 {
            Some(PacketType::KcpData)
        } else if b == 1 {
            Some(PacketType::Syn)
        } else if b == 2 {
            Some(PacketType::SynAck)
        } else if b == 3 {
            Some(PacketType::Reset)
        } else {
            None
        }
    }

    /// The packet type that a type byte names; `None` for a byte that names none.
    pub fn from_byte(b: u8) -> (typ: Option<Self>)
        ensures
            typ == PacketType::of_byte(b),
    {
        match b {
            0 => Some(PacketType::KcpData),
            1 => Some(PacketType::Syn),
            2 => Some(PacketType::SynAck),
            3 => Some(PacketType::Reset),
            _ => None,
        }
    }

    /// The type byte of a packet.
    pub fn to_byte(self) -> (b: u8)
        ensures
            b == self.byte(),
    {
        match self {
            PacketType::KcpData => 0,
            PacketType::Syn => 1,
            PacketType::SynAck => 2,
            PacketType::Reset => 3,
        }
    }
}

/// A conversation id as it stands on the wire: four bytes, the lowest first.
pub open spec fn conv_bytes(conv: u32) -> Seq<u8> {
    seq![
        (conv % 256) as u8,
        (conv / 256 % 256) as u8,
        (conv / 65536 % 256) as u8,
        (conv / 16777216) as u8,
    ]
}

/// The conversation id that the first four bytes spell.
pub open spec fn conv_of(bytes: Seq<u8>) -> u32
    recommends
        bytes.len() >= 4,
{
    (bytes[0] + 256 * bytes[1] + 65536 * bytes[2] + 16777216 * bytes[3]) as u32
}

/// A control packet: the type byte, then the conversation id.
pub open spec fn control_packet(typ: PacketType, conv: u32) -> Seq<u8> {
    seq![typ.byte()] + conv_bytes(conv)
}

/// A data packet: the type byte, then the KCP frame.
pub open spec fn data_packet(frame: Seq<u8>) -> Seq<u8> {
    seq![PacketType::KcpData.byte()] + frame
}

/// A packet taken apart: its type and what follows the type byte. `None` for an empty packet
/// and for one of no known type.
pub open spec fn parse_packet(buf: Seq<u8>) -> Option<(PacketType, Seq<u8>)> {
    if buf.len() == 0 {
        None
    } else {
        match PacketType::of_byte(buf[0]) {
            Some(typ) => Some((typ, buf.skip(1))),
            None => None,
        }
    }
}

/// Encode a control packet (SYN / SYN_ACK / RESET).
/// Layout: `[type: 1B][conv_id: 4B LE]`
pub fn encode_control(typ: PacketType, conv_id: u32) -> (packet: BytesMut)
    ensures
        bytes_mut_view(packet) == control_packet(typ, conv_id),
{
    let mut buf = BytesMut::with_capacity(5);
    let header: [u8; 1] = [typ.to_byte()];
    buf.extend_from_slice(&header);
    let conv: [u8; 4] = [
        (conv_id % 256) as u8,
        (conv_id / 256 % 256) as u8,
        (conv_id / 65536 % 256) as u8,
        (conv_id / 16777216) as u8,
    ];
    buf.extend_from_slice(&conv);
    assert(bytes_mut_view(buf) =~= control_packet(typ, conv_id));
    buf
}

/// Encode a KCP data packet.
/// Layout: `[type: 1B][kcp_packet: ...]`
pub fn encode_kcp_data(kcp_packet: &[u8]) -> (packet: BytesMut)
    ensures
        bytes_mut_view(packet) == data_packet(kcp_packet@),
{
    let mut buf = BytesMut::with_capacity(kcp_packet.len().saturating_add(1));
    let header: [u8; 1] = [PacketType::KcpData.to_byte()];
    buf.extend_from_slice(&header);
    buf.extend_from_slice(kcp_packet);
    assert(bytes_mut_view(buf) =~= data_packet(kcp_packet@));
    buf
}

/// Split an incoming buffer into (type byte, rest).
/// Returns `None` if the buffer is empty or its type byte names no packet type.
pub fn split_packet(buf: &[u8]) -> (parts: Option<(PacketType, &[u8])>)
    ensures
        match parts {
            Some((typ, rest)) => parse_packet(buf@) == Some((typ, rest@)),
            None => parse_packet(buf@) is None,
        },
{
    if buf.len() == 0 {
        return None;
    }
    match PacketType::from_byte(buf[0]) {
        Some(typ) => {
            let rest = slice_subrange(buf, 1, buf.len());
            assert(rest@ =~= buf@.skip(1));
            Some((typ, rest))
        },
        None => None,
    }
}

/// The conversation id at the head of a payload.
pub fn read_conv(payload: &[u8]) -> (conv: u32)
    requires
        payload@.len() >= 4,
    ensures
        conv == conv_of(payload@),
{
    let conv: u32 = payload[0] as u32 + 256 * (payload[1] as u32) + 65536 * (payload[2] as u32)
        + 16777216 * (payload[3] as u32);
    conv
}

/// A type byte and its packet type determine each other.
pub proof fn law_type_byte_round_trip(typ: PacketType, b: u8)
    ensures
        PacketType::of_byte(typ.byte()) == Some(typ),
        PacketType::of_byte(b) is Some ==> PacketType::of_byte(b)->0.byte() == b,
{
}

/// A conversation id is read back from the bytes that it was written as.
pub proof fn law_conv_round_trip(conv: u32)
    ensures
        conv_bytes(conv).len() == 4,
        conv_of(conv_bytes(conv)) == conv,
{
}

/// A control packet takes five bytes, and taking it apart gives back its type and its
/// conversation id.
pub proof fn law_control_round_trip(typ: PacketType, conv: u32)
    ensures
        control_packet(typ, conv).len() == 5,
        parse_packet(control_packet(typ, conv)) == Some((typ, conv_bytes(conv))),
        conv_of(conv_bytes(conv)) == conv,
{
    assert(control_packet(typ, conv).skip(1) =~= conv_bytes(conv));
    law_conv_round_trip(conv);
}

/// Taking a data packet apart gives back the frame.
pub proof fn law_data_round_trip(frame: Seq<u8>)
    ensures
        parse_packet(data_packet(frame)) == Some((PacketType::KcpData, frame)),
{
    assert(data_packet(frame).skip(1) =~= frame);
}

/// The type bytes: 0 for data, 1 for SYN, 2 for SYN_ACK, 3 for RESET. No other byte names a type.
pub proof fn law_type_bytes(b: u8)
    ensures
        PacketType::KcpData.byte() == 0,
        PacketType::Syn.byte() == 1,
        PacketType::SynAck.byte() == 2,
        PacketType::Reset.byte() == 3,
        PacketType::of_byte(b) == Some(PacketType::KcpData) <==> b == 0,
        PacketType::of_byte(b) == Some(PacketType::Syn) <==> b == 1,
        PacketType::of_byte(b) == Some(PacketType::SynAck) <==> b == 2,
        PacketType::of_byte(b) == Some(PacketType::Reset) <==> b == 3,
        PacketType::of_byte(b) is None <==> b > 3,
{
}

/// A control packet is five bytes: its type, then its conversation id, the lowest byte first.
pub proof fn law_control_bytes(typ: PacketType, conv: u32)
    ensures
        control_packet(typ, conv).len() == 5,
        control_packet(typ, conv)[0] == typ.byte(),
        control_packet(typ, conv)[1] + 0x100 * control_packet(typ, conv)[2] + 0x1_0000
            * control_packet(typ, conv)[3] + 0x100_0000 * control_packet(typ, conv)[4] == conv,
{
}

/// The conversation id at the head of a payload is spelled by its first four bytes, the lowest
/// first, whatever follows them.
pub proof fn law_conv_spelled(conv: u32, rest: Seq<u8>, payload: Seq<u8>)
    requires
        payload.len() >= 4,
    ensures
        conv_of(payload) == payload[0] + 0x100 * payload[1] + 0x1_0000 * payload[2] + 0x100_0000
            * payload[3],
        conv_of(conv_bytes(conv) + rest) == conv,
{
    law_conv_round_trip(conv);
    assert(forall|i: int| 0 <= i < 4 ==> (conv_bytes(conv) + rest)[i] == conv_bytes(conv)[i]);
}

/// A data packet is a zero byte and the frame behind it.
pub proof fn law_data_bytes(frame: Seq<u8>)
    ensures
        data_packet(frame).len() == frame.len() + 1,
        data_packet(frame)[0] == 0,
        forall|i: int| 0 <= i < frame.len() ==> data_packet(frame)[i + 1] == #[trigger] frame[i],
{
}

/// Every packet that starts with a byte up to 3 is taken apart, and no other is: its type is that
/// of its first byte, and the payload is every byte behind it.
pub proof fn law_packet_parts(buf: Seq<u8>)
    ensures
        parse_packet(buf) is Some <==> buf.len() > 0 && buf[0] <= 3,
        parse_packet(buf) matches Some((typ, payload)) ==> {
            &&& typ.byte() == buf[0]
            &&& payload.len() == buf.len() - 1
            &&& forall|i: int| 0 <= i < payload.len() ==> #[trigger] payload[i] == buf[i + 1]
        },
{
}

} // verus!
