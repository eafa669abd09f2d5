//! The wire format, addresses and clocks.

use kcp_peer::addr::{canonicalize, is_after, SocketAddr};
use kcp_peer::packet::{encode_control, encode_kcp_data, read_conv, split_packet};
use kcp_peer::time::{current_ms, epoch_ms, epoch_ms_of, kcp_clock};
use kcp_peer::PacketType;
use std::time::Duration;

fn v4(ip: u32, port: u16) -> SocketAddr {
    SocketAddr::V4 { ip, port }
}

fn v6(ip: u128, port: u16, flowinfo: u32, scope_id: u32) -> SocketAddr {
    SocketAddr::V6 { ip, port, flowinfo, scope_id }
}

#[test]
fn packet_type_bytes() {
    let types = [
        (0x00, PacketType::KcpData),
        (0x01, PacketType::Syn),
        (0x02, PacketType::SynAck),
        (0x03, PacketType::Reset),
    ];
    for (byte, typ) in types {
        assert_eq!(PacketType::from_byte(byte), Some(typ));
        assert_eq!(typ.to_byte(), byte);
    }
    for byte in 4..=255u8 {
        assert_eq!(PacketType::from_byte(byte), None);
    }
}

#[test]
fn control_packet_bytes() {
    let packet = encode_control(PacketType::Reset, 0x0a0b_0c0d);
    assert_eq!(&packet[..], [0x03, 0x0d, 0x0c, 0x0b, 0x0a]);
    let (typ, payload) = split_packet(&packet).unwrap();
    assert_eq!(typ, PacketType::Reset);
    assert_eq!(read_conv(payload), 0x0a0b_0c0d);
}

#[test]
fn data_packet_bytes() {
    let packet = encode_kcp_data(&[9, 8, 7]);
    assert_eq!(&packet[..], [0x00, 9, 8, 7]);
    assert_eq!(split_packet(&packet), Some((PacketType::KcpData, &[9u8, 8, 7][..])));
}

#[test]
fn split_of_malformed() {
    assert_eq!(split_packet(&[]), None);
    assert_eq!(split_packet(&[0x7f, 1]), None);
    assert_eq!(split_packet(&[0x01]), Some((PacketType::Syn, &[][..])));
}

#[test]
fn canonical_form_edges() {
    assert_eq!(canonicalize(v6(0xffff_ffff_ffff, 1, 2, 3)).addr(), v4(0xffff_ffff, 1));
    assert_eq!(canonicalize(v6(0xffff_0000_0000, 1, 0, 0)).addr(), v4(0, 1));
    let compatible = v6(0x7f00_0001, 1, 0, 0);
    assert_eq!(canonicalize(compatible).addr(), compatible, "IPv4-compatible is not mapped");
    let other = v6(0x1_ffff_7f00_0001, 1, 0, 0);
    assert_eq!(canonicalize(other).addr(), other);
    let canonical = canonicalize(v6(0xffff_7f00_0001, 8080, 0, 0));
    assert_eq!(canonicalize(canonical.addr()), canonical);
}

#[test]
fn address_order() {
    let ascending = [
        v4(1, 9),
        v4(2, 0),
        v4(2, 1),
        v6(0, 0, 0, 0),
        v6(0, 1, 0, 0),
        v6(0, 1, 0, 5),
        v6(0, 1, 1, 0),
        v6(1, 0, 0, 0),
    ];
    for (i, a) in ascending.iter().enumerate() {
        for (j, b) in ascending.iter().enumerate() {
            assert_eq!(is_after(*a, *b), i > j, "{a:?} after {b:?}");
        }
    }
}

#[test]
fn milliseconds_of_durations() {
    assert_eq!(epoch_ms_of(None), 0);
    assert_eq!(epoch_ms_of(Some(Duration::from_nanos(1_999_999))), 1);
    assert_eq!(epoch_ms_of(Some(Duration::from_secs(3))), 3000);
    assert_eq!(kcp_clock(0x1_0000_0005), 5);
    assert_eq!(kcp_clock(7), 7);
}

#[test]
fn clocks_agree() {
    let before = epoch_ms();
    assert!(before > 1_600_000_000_000, "after 2020");
    let low = current_ms();
    let after = epoch_ms();
    assert!(low.wrapping_sub(kcp_clock(before)) <= (after - before) as u32);
}
