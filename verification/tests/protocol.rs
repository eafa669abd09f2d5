//! Single packets handed to a transport.

use kcp_peer::addr::{canonicalize, SocketAddr};
use kcp_peer::engine::{Datagram, Outgoing, Outlet};
use kcp_peer::error::IoError;
use kcp_peer::transport::Action;
use kcp_peer::{Error, KcpConfig, KcpPeer};
use std::collections::VecDeque;
use std::io::ErrorKind;
use std::sync::mpsc::{channel, Receiver};
use std::sync::{Arc, Mutex};
use std::task::{Wake, Waker};
use std::time::Duration;

/// Serves an outlet: keeps what was sent, and answers for the socket.
struct Socket {
    requests: Mutex<Receiver<Outgoing>>,
    sent: Mutex<VecDeque<Datagram>>,
    failure: Mutex<Option<ErrorKind>>,
}

impl Wake for Socket {
    fn wake(self: Arc<Self>) {
        while let Ok(outgoing) = self.requests.lock().unwrap().try_recv() {
            let answer = match *self.failure.lock().unwrap() {
                Some(kind) => Err(kind.into()),
                None => Ok(outgoing.datagram.packet.len()),
            };
            if answer.is_ok() {
                self.sent.lock().unwrap().push_back(outgoing.datagram);
            }
            outgoing.answer.send(answer).unwrap();
        }
    }
}

impl Socket {
    fn try_recv(&self) -> Result<Datagram, ()> {
        self.sent.lock().unwrap().pop_front().ok_or(())
    }
}

fn outlet() -> (Outlet, Arc<Socket>) {
    let (queue, requests) = channel();
    let socket = Arc::new(Socket {
        requests: Mutex::new(requests),
        sent: Mutex::new(VecDeque::new()),
        failure: Mutex::new(None),
    });
    (Outlet { queue, waker: Waker::from(socket.clone()) }, socket)
}

fn loopback(port: u16) -> SocketAddr {
    SocketAddr::V4 { ip: 0x7f00_0001, port }
}

fn test_config() -> KcpConfig {
    KcpConfig::builder()
        .tick_interval(Duration::from_millis(10))
        .session_timeout(Duration::from_secs(60))
        .kcp_nodelay(2, 10, 2, true)
        .rx_minrto(10)
        .fast_resend(1)
        .build()
}

fn bind() -> (KcpPeer, Arc<Socket>) {
    let (queue, frames) = outlet();
    (KcpPeer::bind_with(loopback(40002), test_config(), queue), frames)
}

#[test]
fn canonicalize_ipv4_mapped_ipv6() {
    let v4 = SocketAddr::V4 { ip: 0x7f00_0001, port: 8080 };
    let mapped = SocketAddr::V6 {
        ip: 0xffff_7f00_0001,
        port: 8080,
        flowinfo: 0,
        scope_id: 0,
    };
    let v6 = SocketAddr::V6 { ip: 1, port: 8080, flowinfo: 0, scope_id: 0 };
    assert_eq!(canonicalize(mapped).addr(), v4, "IPv4-mapped IPv6 → IPv4");
    assert_eq!(canonicalize(v4).addr(), v4, "plain IPv4 unchanged");
    assert_eq!(canonicalize(v6).addr(), v6, "true IPv6 unchanged");
}

#[test]
fn unknown_session_reset() {
    let (mut b, _frames) = bind();
    let raw = loopback(50000);
    let conv_id: u32 = 12345;
    let mut packet = vec![0x00u8];
    packet.extend_from_slice(&conv_id.to_le_bytes());
    packet.extend_from_slice(&[0xAB; 8]);

    let actions = b.handle_incoming(&packet, raw).expect("should receive RESET response");
    assert_eq!(actions.len(), 3, "three copies");
    for action in actions {
        match action {
            Action::Send(reset) => {
                assert_eq!(reset.to, raw);
                let resp = reset.packet;
                assert_eq!(resp.len(), 5, "RESET is 5 bytes");
                assert_eq!(resp[0], 0x03, "type byte is Reset");
                assert_eq!(&resp[1..5], &conv_id.to_le_bytes(), "conv_id matches");
            }
            other => panic!("unexpected {other:?}"),
        }
    }
    assert!(b.peers().is_empty());
}

#[test]
fn unknown_session_short_packet() {
    let (mut b, _frames) = bind();
    assert_eq!(b.handle_incoming(&[0x00, 1, 2, 3], loopback(50000)), Ok(vec![]));
}

#[test]
fn truncated_syn() {
    let (mut b, _frames) = bind();
    let mut packet = vec![0x01u8];
    packet.push(0x00);
    let outcome = b.handle_incoming(&packet, loopback(50000));
    assert!(b.peers().is_empty(), "no sessions created from truncated SYN");
    assert!(outcome.is_err(), "no events from truncated SYN");
    assert_eq!(outcome, Err(Error::Io(IoError::TruncatedSyn)));
}

#[test]
fn truncated_syn_ack() {
    let (mut b, _frames) = bind();
    let mut packet = vec![0x02u8];
    packet.push(0x00);
    let outcome = b.handle_incoming(&packet, loopback(50000));
    assert!(b.peers().is_empty(), "no sessions created from truncated SYN_ACK");
    assert!(outcome.is_err(), "no events from truncated SYN_ACK");
    assert_eq!(outcome, Err(Error::Io(IoError::TruncatedSynAck)));
}

#[test]
fn truncated_reset() {
    let (mut b, _frames) = bind();
    let outcome = b.handle_incoming(&[0x03, 0, 0, 0], loopback(50000));
    assert_eq!(outcome, Err(Error::Io(IoError::TruncatedReset)));
}

#[test]
fn empty_and_unknown_packets() {
    let (mut b, _frames) = bind();
    assert_eq!(b.handle_incoming(&[], loopback(50000)), Err(Error::Io(IoError::EmptyPacket)));
    assert_eq!(
        b.handle_incoming(&[0x04, 1, 2, 3, 4], loopback(50000)),
        Err(Error::Io(IoError::EmptyPacket)),
    );
    assert!(b.peers().is_empty());
}

#[test]
fn syn_ack_unknown_session() {
    let (mut b, _frames) = bind();
    let conv_id: u32 = 99999;
    let mut packet = vec![0x02u8];
    packet.extend_from_slice(&conv_id.to_le_bytes());
    let actions = b.handle_incoming(&packet, loopback(50000)).unwrap();
    assert!(b.peers().is_empty(), "no sessions created from SYN_ACK to unknown session");
    assert!(actions.is_empty(), "no events from SYN_ACK to unknown session");
}

#[test]
fn reset_unknown_session() {
    let (mut b, _frames) = bind();
    let conv_id: u32 = 77777;
    let mut packet = vec![0x03u8];
    packet.extend_from_slice(&conv_id.to_le_bytes());
    let actions = b.handle_incoming(&packet, loopback(50000)).unwrap();
    assert!(b.peers().is_empty(), "no sessions created from RESET to unknown session");
    assert!(actions.is_empty(), "no events from RESET to unknown session");
}
