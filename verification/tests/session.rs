//! Sessions on their own: two of them joined by their frames, without a transport around them.

use kcp_peer::addr::SocketAddr;
use kcp_peer::config::KcpConfig;
use kcp_peer::connection::{KcpConnection, Polled};
use kcp_peer::engine::{frame_answer, Datagram, DirectOutput, Outgoing, Outlet};
use kcp_peer::error::{ErrorKind as Kind, IoError, KcpError};
use kcp_peer::session::SessionState;
use kcp_peer::{Error, Session};
use std::collections::VecDeque;
use std::io::{ErrorKind, Write};
use std::sync::mpsc::{channel, Receiver};
use std::sync::{Arc, Mutex};
use std::task::{Wake, Waker};
use std::time::Duration;

const CONV: u32 = 77;

/// Serves an outlet: keeps what was sent, and answers for the socket.
struct Socket {
    requests: Mutex<Receiver<Outgoing>>,
    sent: Mutex<VecDeque<Datagram>>,
    failure: Mutex<Option<ErrorKind>>,
}

impl Wake for Socket {
    fn wake(self: Arc<Self>) {
        while let Ok(outgoing) = self.requests.lock().unwrap().try_recv() {
            let answer = match *self.failure.lock().unwrap() {
                Some(kind) => Err(kind.into()),
                None => Ok(outgoing.datagram.packet.len()),
            };
            if answer.is_ok() {
                self.sent.lock().unwrap().push_back(outgoing.datagram);
            }
            outgoing.answer.send(answer).unwrap();
        }
    }
}

impl Socket {
    fn try_recv(&self) -> Result<Datagram, ()> {
        self.sent.lock().unwrap().pop_front().ok_or(())
    }
}

fn outlet() -> (Outlet, Arc<Socket>) {
    let (queue, requests) = channel();
    let socket = Arc::new(Socket {
        requests: Mutex::new(requests),
        sent: Mutex::new(VecDeque::new()),
        failure: Mutex::new(None),
    });
    (Outlet { queue, waker: Waker::from(socket.clone()) }, socket)
}

fn loopback(port: u16) -> SocketAddr {
    SocketAddr::V4 { ip: 0x7f00_0001, port }
}

fn config() -> KcpConfig {
    KcpConfig::builder().kcp_nodelay(2, 10, 2, true).kcp_interval_ms(10).build()
}

fn outbound(config: &KcpConfig) -> (Session, Arc<Socket>) {
    let (queue, frames) = outlet();
    (Session::new_outbound(CONV, loopback(2), queue, 1, config, 1000), frames)
}

fn inbound(config: &KcpConfig) -> (Session, Arc<Socket>) {
    let (queue, frames) = outlet();
    let (session, syn_ack) = Session::new_inbound(CONV, loopback(1), queue, 2, config, 1000);
    assert_eq!(syn_ack.to, loopback(1));
    assert_eq!(&syn_ack.packet[..], [0x02, 77, 0, 0, 0]);
    (session, frames)
}

/// Hands all frames of one session to another, without their type byte.
fn pump(frames: &Arc<Socket>, to: &mut Session) -> usize {
    let mut count = 0;
    while let Ok(frame) = frames.try_recv() {
        assert_eq!(frame.packet[0], 0x00, "a KCP data packet");
        to.input(&frame.packet[1..]).expect("input");
        count += 1;
    }
    count
}

/// A session that received the given messages.
fn received(messages: &[&[u8]]) -> Session {
    let config = config();
    let (mut a, a_frames) = outbound(&config);
    let (mut b, b_frames) = inbound(&config);
    for message in messages {
        a.send_data(message).expect("send");
    }
    a.establish(1000, 1000);
    for i in 1..20 {
        pump(&a_frames, &mut b);
        b.update(1000 + 10 * i).expect("b update");
        pump(&b_frames, &mut a);
        a.update(1000 + 10 * i).expect("a update");
    }
    b
}

#[test]
fn outbound_session_starts_its_handshake() {
    let (session, frames) = outbound(&config());
    assert_eq!(session.inner.state, SessionState::SynSent { retries: 0, sent_at: 1000 });
    assert_eq!(session.inner.conv_id, CONV);
    assert_eq!(session.inner.incarnation, 1);
    assert_eq!(session.inner.kcp.conv(), CONV);
    assert_eq!(session.last_rx, 1000);
    assert!(!session.closed);
    let syn = session.send_syn();
    assert_eq!(syn.to, loopback(2));
    assert_eq!(&syn.packet[..], [0x01, 77, 0, 0, 0]);
    assert!(frames.try_recv().is_err(), "no frame before the handshake is done");
}

#[test]
fn inbound_session_is_established() {
    let (session, _frames) = inbound(&config());
    assert_eq!(session.inner.state, SessionState::Established);
    assert_eq!(session.peer_addr, loopback(1));
    assert_eq!(session.inner.incarnation, 2);
}

#[test]
fn config_reaches_kcp() {
    let config = KcpConfig::builder()
        .kcp_nodelay(1, 40, 2, true)
        .kcp_interval_ms(70)
        .snd_wnd(33)
        .rcv_wnd(200)
        .mtu(100)
        .build();
    let (mut session, _frames) = inbound(&config);
    assert_eq!(session.inner.kcp.mtu(), 100);
    assert_eq!(session.inner.kcp.snd_wnd(), 33);
    assert_eq!(session.inner.kcp.rcv_wnd(), 200);
    assert_eq!(session.inner.kcp.rmt_wnd(), 128);
    assert_eq!(session.update(5000), Ok(0));
    assert_eq!(session.inner.kcp.check(5000), 70, "the interval set last holds");
}

#[test]
fn config_floors_of_kcp() {
    let config = KcpConfig {
        mtu: 3,
        snd_wnd: 0,
        rcv_wnd: 0,
        kcp_interval_ms: 1,
        ..KcpConfig::default()
    };
    let (mut session, _frames) = inbound(&config);
    assert_eq!(session.inner.kcp.mtu(), 50);
    assert_eq!(session.inner.kcp.snd_wnd(), 32, "zero leaves KCP's own window");
    assert_eq!(session.inner.kcp.rcv_wnd(), 128);
    assert_eq!(session.update(5000), Ok(0));
    assert_eq!(session.inner.kcp.check(5000), 10, "clamped from below");
}

#[test]
fn frames_respect_the_mtu() {
    let config = KcpConfig::builder().mtu(100).build();
    let (mut a, frames) = outbound(&config);
    assert_eq!(a.send_data(&[1u8; 300]), Ok(()));
    assert_eq!(a.inner.kcp.wait_snd(), 4, "300 bytes in segments of 76");
    a.establish(1000, 1000);
    let mut seen = 0;
    while let Ok(frame) = frames.try_recv() {
        assert!(frame.packet.len() <= 101, "type byte and MTU");
        seen += 1;
    }
    assert!(seen > 0);
}

#[test]
fn data_waits_for_the_handshake() {
    let config = config();
    let (mut a, frames) = outbound(&config);
    assert_eq!(a.send_data(b"early"), Ok(()));
    for i in 0..5 {
        assert_eq!(a.update(1000 + 10 * i), Ok(1), "one segment queued");
    }
    assert!(frames.try_recv().is_err(), "nothing is transmitted");
    a.establish(2000, 2000);
    assert_eq!(a.inner.state, SessionState::Established);
    assert_eq!(a.last_rx, 2000);
    let frame = frames.try_recv().expect("flushed at once");
    assert_eq!(frame.to, loopback(2));
    assert_eq!(&frame.packet[frame.packet.len() - 5..], b"early");
    assert_eq!(a.inner.kcp.wait_snd(), 1, "in flight now");
}

#[test]
fn adopted_conversation_is_spoken() {
    let config = config();
    let (mut a, frames) = outbound(&config);
    a.send_data(b"x").unwrap();
    a.adopt_conv(0x0102_0304);
    assert_eq!(a.inner.conv_id, 0x0102_0304);
    a.establish(2000, 2000);
    let frame = frames.try_recv().unwrap();
    assert_eq!(&frame.packet[1..5], [4, 3, 2, 1]);
}

#[test]
fn messages_come_whole_and_in_order() {
    let large: Vec<u8> = (0..15_000u32).map(|i| (i % 251) as u8).collect();
    let mut b = received(&[b"first", &large, b"", b"last"]);
    assert_eq!(b.peeksize(), Ok(5));
    let mut msgs = Vec::new();
    b.try_recv_all(&mut msgs);
    assert_eq!(msgs.len(), 4);
    assert_eq!(&msgs[0][..], b"first");
    assert_eq!(&msgs[1][..], &large[..]);
    assert_eq!(&msgs[2][..], b"");
    assert_eq!(&msgs[3][..], b"last");
    assert_eq!(b.try_recv(), Ok(None));
    assert_eq!(b.peeksize(), Err(Error::Kcp(KcpError::RecvQueueEmpty)));
}

#[test]
fn incomplete_message_stays() {
    let config = config();
    let (mut a, frames) = outbound(&config);
    let (mut b, _b_frames) = inbound(&config);
    a.send_data(b"one").unwrap();
    a.send_data(&[9u8; 3000]).unwrap();
    a.establish(1000, 1000);
    // Only the first frame arrives: the small message, and maybe part of the large one.
    let frame = frames.try_recv().unwrap();
    b.input(&frame.packet[1..]).unwrap();
    assert_eq!(b.try_recv().unwrap().unwrap()[..], b"one"[..]);
    while let Ok(frame) = frames.try_recv() {
        b.input(&frame.packet[1..]).unwrap();
        if b.try_recv() == Err(Error::Kcp(KcpError::ExpectingFragment)) {
            let mut msgs = Vec::new();
            b.try_recv_all(&mut msgs);
            assert!(msgs.is_empty(), "an incomplete message is no error and no message");
            assert_eq!(b.peeksize(), Err(Error::Kcp(KcpError::ExpectingFragment)));
            let mut buf = [0u8; 10];
            assert_eq!(b.recv_into(&mut buf), Err(Error::Kcp(KcpError::ExpectingFragment)));
            assert_eq!(
                kcp_peer::connection::poll_read(&mut b, &mut buf),
                Polled::Failed(IoError::Kcp(KcpError::ExpectingFragment)),
            );
            return;
        }
    }
    panic!("the large message needs several frames");
}

#[test]
fn reads_spill_and_continue() {
    let mut b = received(&[b"hello world", b"next"]);
    let mut buf = [0u8; 4];
    assert_eq!(b.recv_into(&mut buf), Ok(4));
    assert_eq!(&buf, b"hell");
    assert_eq!(&b.inner.recv_buf[..], b"o world");
    assert_eq!(b.recv_into(&mut buf), Ok(4));
    assert_eq!(&buf, b"o wo");
    let mut rest = [0xffu8; 8];
    assert_eq!(b.recv_into(&mut rest), Ok(3), "a read stops at the end of the message");
    assert_eq!(&rest, b"rld\xff\xff\xff\xff\xff");
    assert!(b.inner.recv_buf.is_empty());
    assert_eq!(b.recv_into(&mut rest), Ok(4));
    assert_eq!(&rest[..4], b"next");
    assert_eq!(b.recv_into(&mut rest), Err(Error::Kcp(KcpError::RecvQueueEmpty)));
}

#[test]
fn closed_session_refuses() {
    let (mut a, _frames) = outbound(&config());
    a.mark_closed();
    assert!(a.closed);
    assert_eq!(a.send_data(b"x"), Err(Error::SessionClosed));
    assert_eq!(a.inner.kcp.wait_snd(), 0);
}

#[test]
fn too_large_a_message_is_refused() {
    let config = KcpConfig::builder().mtu(50).build();
    let (mut a, _frames) = outbound(&config);
    // 26 bytes fit a segment: 127 fragments pass, 128 do not.
    assert_eq!(a.send_data(&vec![0u8; 26 * 127]), Ok(()));
    assert_eq!(a.inner.kcp.wait_snd(), 127);
    assert_eq!(
        a.send_data(&vec![0u8; 26 * 127 + 1]),
        Err(Error::Kcp(KcpError::UserBufTooBig)),
    );
    assert_eq!(a.inner.kcp.wait_snd(), 127);
    let mut connection = KcpConnection::new(a);
    assert_eq!(connection.poll_write(&vec![0u8; 26 * 128]), Polled::Pending);
}

#[test]
fn dead_link_is_reported() {
    let config = KcpConfig::builder()
        .kcp_nodelay(1, 10, 2, true)
        .kcp_interval_ms(10)
        .maximum_resend_times(3)
        .build();
    let (mut a, _frames) = outbound(&config);
    a.send_data(b"nobody listens").unwrap();
    a.establish(0, 0);
    let mut now = 0;
    while a.update(now) != Err(Error::DeadLink) {
        now += 10;
        assert!(now < 60_000, "the link dies");
    }
    assert_eq!(a.update(now + 10), Err(Error::DeadLink), "and stays dead");
    let waiting = a.inner.kcp.wait_snd();
    assert_eq!(a.send_data(b"x"), Ok(()), "KCP still takes it");
    assert_eq!(a.inner.kcp.wait_snd(), waiting + 1);
    let mut connection = KcpConnection::new(a);
    assert_eq!(connection.poll_write(b"yz"), Polled::Ready(2));
}

#[test]
fn kcp_refuses_foreign_input() {
    let (mut b, _frames) = inbound(&config());
    assert_eq!(b.input(&[0u8; 23]), Err(Error::Kcp(KcpError::InvalidSegmentSize(23))));
    let mut segment = [0u8; 24];
    segment[0] = 78;
    assert_eq!(b.input(&segment), Err(Error::Kcp(KcpError::ConvInconsistent(77, 78))));
    segment[0] = 77;
    segment[4] = 99;
    assert_eq!(b.input(&segment), Err(Error::Kcp(KcpError::UnsupportedCmd(99))));
    segment[4] = 81;
    segment[20] = 5;
    assert_eq!(b.input(&segment), Err(Error::Kcp(KcpError::InvalidSegmentDataSize(5, 0))));
}

#[test]
fn syn_retries_follow_the_schedule() {
    let config = KcpConfig::default();
    let (queue, _frames) = outlet();
    let start = 50_000;
    let mut a = Session::new_outbound(CONV, loopback(2), queue, 1, &config, start);
    let mut at = Vec::new();
    let mut now = start;
    let given_up = loop {
        match a.maybe_retry_syn(&config, now) {
            Ok(Some(syn)) => {
                assert_eq!(syn.to, loopback(2));
                assert_eq!(&syn.packet[..], [0x01, 77, 0, 0, 0]);
                at.push(now - start);
            }
            Ok(None) => {}
            Err(err) => {
                assert_eq!(err, Error::DeadLink);
                break now - start;
            }
        }
        now += 1;
    };
    assert_eq!(at, [150, 450, 1050, 2250, 4650]);
    assert_eq!(given_up, 4651);
}

#[test]
fn syn_retry_extremes() {
    let config = KcpConfig::builder()
        .syn_retry_interval(Duration::from_millis(0))
        .syn_max_retries(2)
        .build();
    let (mut a, _frames) = outbound(&config);
    assert!(a.maybe_retry_syn(&config, 0).unwrap().is_some(), "no wait at all");
    assert!(a.maybe_retry_syn(&config, 0).unwrap().is_some());
    assert_eq!(a.maybe_retry_syn(&config, 0), Err(Error::DeadLink));

    let config = KcpConfig::builder()
        .syn_retry_interval(Duration::from_secs(u64::MAX))
        .syn_max_retries(u32::MAX)
        .build();
    let (mut a, _frames) = outbound(&config);
    assert_eq!(a.maybe_retry_syn(&config, u64::MAX), Ok(None));
    a.inner.state = SessionState::SynSent { retries: u32::MAX - 1, sent_at: 0 };
    assert_eq!(a.maybe_retry_syn(&config, u64::MAX), Ok(None));

    let config = KcpConfig::builder().syn_max_retries(0).build();
    let (mut a, _frames) = outbound(&config);
    assert_eq!(a.maybe_retry_syn(&config, 0), Err(Error::DeadLink));

    a.establish(0, 0);
    assert_eq!(a.maybe_retry_syn(&config, u64::MAX), Ok(None), "the handshake is done");
}

#[test]
fn connection_reads_and_writes() {
    let mut connection = KcpConnection::new(received(&[b"stream"]));
    let mut buf = [0u8; 3];
    assert_eq!(connection.poll_read(&mut buf), Polled::Ready(3));
    assert_eq!(&buf, b"str");
    assert_eq!(connection.poll_read(&mut buf), Polled::Ready(3));
    assert_eq!(&buf, b"eam");
    assert_eq!(connection.poll_read(&mut buf), Polled::Pending);
    assert_eq!(connection.poll_write(b"answer"), Polled::Ready(6));
    assert_eq!(connection.session.inner.kcp.wait_snd(), 1);
    assert_eq!(connection.poll_flush(), Polled::Ready(0));
    assert_eq!(connection.poll_shutdown(), Polled::Ready(0));
    let closed = Polled::Failed(IoError::SessionClosed);
    assert_eq!(connection.poll_read(&mut buf), closed);
    assert_eq!(connection.poll_write(b"late"), closed);
    assert!(connection.into_inner().closed);
}

#[test]
fn io_errors_have_kinds_and_texts() {
    assert_eq!(IoError::EmptyPacket.kind(), Kind::InvalidData);
    assert_eq!(IoError::TruncatedSyn.kind(), Kind::InvalidData);
    assert_eq!(IoError::TruncatedSynAck.kind(), Kind::InvalidData);
    assert_eq!(IoError::TruncatedReset.kind(), Kind::InvalidData);
    assert_eq!(IoError::SessionClosed.kind(), Kind::ConnectionReset);
    assert_eq!(IoError::Kcp(KcpError::NeedUpdate).kind(), Kind::Other);
    assert_eq!(IoError::EmptyPacket.message(), Some("empty packet"));
    assert_eq!(IoError::TruncatedSyn.message(), Some("truncated SYN"));
    assert_eq!(IoError::TruncatedSynAck.message(), Some("truncated SYN_ACK"));
    assert_eq!(IoError::TruncatedReset.message(), Some("truncated RESET"));
    assert_eq!(IoError::SessionClosed.message(), Some("session closed"));
    assert_eq!(IoError::Kcp(KcpError::NeedUpdate).message(), None);
}

#[test]
fn frames_are_answered_as_the_socket_answers() {
    assert_eq!(frame_answer(Some(Ok(11)), 10).unwrap(), 10, "the type byte is not counted");
    assert_eq!(frame_answer(Some(Ok(4)), 10).unwrap(), 3);
    assert_eq!(frame_answer(Some(Ok(0)), 10).unwrap(), 0);
    assert_eq!(frame_answer(Some(Err(ErrorKind::WouldBlock.into())), 10).unwrap(), 10);
    assert_eq!(frame_answer(None, 10).unwrap(), 10);
    let refused = frame_answer(Some(Err(ErrorKind::ConnectionRefused.into())), 10).unwrap_err();
    assert_eq!(refused.kind(), ErrorKind::ConnectionRefused);
}

#[test]
fn output_tries_one_send() {
    let (outlet, socket) = outlet();
    let mut output = DirectOutput { outlet, peer: loopback(9) };
    assert_eq!(output.write(b"frame").unwrap(), 5);
    let sent = socket.try_recv().unwrap();
    assert_eq!(sent.to, loopback(9));
    assert_eq!(&sent.packet[..], b"\x00frame");
    assert!(socket.try_recv().is_err());
    assert!(output.flush().is_ok());

    *socket.failure.lock().unwrap() = Some(ErrorKind::WouldBlock);
    assert_eq!(output.write(b"dropped").unwrap(), 7);
    *socket.failure.lock().unwrap() = Some(ErrorKind::PermissionDenied);
    assert_eq!(output.write(b"refused").unwrap_err().kind(), ErrorKind::PermissionDenied);
    assert!(socket.try_recv().is_err(), "neither was sent");
}

#[test]
fn output_without_an_answer_drops_the_frame() {
    let (queue, requests) = channel();
    let outlet = Outlet { queue, waker: Waker::noop().clone() };
    let mut output = DirectOutput { outlet, peer: loopback(9) };
    assert_eq!(output.write(b"frame").unwrap(), 5);
    assert_eq!(requests.try_recv().unwrap().datagram.to, loopback(9));
    drop(requests);
    assert_eq!(output.write(b"frame").unwrap(), 5);
}

#[test]
fn update_fails_with_the_output() {
    let config = config();
    let (mut a, socket) = outbound(&config);
    a.send_data(b"x").unwrap();
    *socket.failure.lock().unwrap() = Some(ErrorKind::ConnectionRefused);
    assert_eq!(a.update(1000), Ok(1), "nothing is written in the handshake");
    a.establish(1000, 1000);
    assert_eq!(a.inner.state, SessionState::Established);
    a.send_data(b"y").unwrap();
    assert_eq!(a.update(1100), Err(Error::Kcp(KcpError::Output)));
    *socket.failure.lock().unwrap() = Some(ErrorKind::WouldBlock);
    assert_eq!(a.update(1200), Ok(2), "a busy socket is no failure");
    *socket.failure.lock().unwrap() = None;
    assert_eq!(a.update(3000), Ok(2));
    assert!(socket.try_recv().is_ok(), "sent again");
}

#[test]
fn handshake_flushes_what_the_windows_allow() {
    let config = config();
    let (mut a, socket) = outbound(&config);
    for _ in 0..200 {
        a.send_data(b"1").unwrap();
    }
    a.establish(1000, 1000);
    let mut bytes = 0;
    while let Ok(frame) = socket.try_recv() {
        bytes += frame.packet.len() - 1;
    }
    assert_eq!(bytes, 128 * 25, "one segment for each place in the window");
    assert_eq!(a.inner.kcp.wait_snd(), 200, "none is lost");
}

#[test]
fn link_dies_while_the_socket_fails() {
    let config = KcpConfig::builder()
        .kcp_nodelay(1, 10, 2, true)
        .kcp_interval_ms(10)
        .maximum_resend_times(3)
        .build();
    let (mut a, socket) = outbound(&config);
    a.send_data(b"nobody listens").unwrap();
    a.establish(0, 0);
    *socket.failure.lock().unwrap() = Some(ErrorKind::ConnectionRefused);
    let mut now = 0;
    let mut failures = 0;
    loop {
        match a.update(now) {
            Err(Error::DeadLink) => break,
            Err(err) => {
                assert_eq!(err, Error::Kcp(KcpError::Output));
                failures += 1;
            }
            Ok(_) => {}
        }
        now += 10;
        assert!(now < 60_000, "the link dies");
    }
    assert!(failures > 0, "the output failed before");
}

#[test]
fn first_packet_carries_what_was_queued() {
    let config = config();
    let (mut a, a_frames) = outbound(&config);
    let (mut b, _b_frames) = inbound(&config);
    a.send_data(b"one").unwrap();
    a.send_data(b"").unwrap();
    a.send_data(b"three").unwrap();
    a.establish(1000, 0x0102_0304);
    let packet = a_frames.try_recv().unwrap().packet;
    let mut expected = vec![0x00];
    for (sn, data) in [&b"one"[..], b"", b"three"].iter().enumerate() {
        expected.extend_from_slice(&[77, 0, 0, 0, 81, 0, 128, 0, 4, 3, 2, 1]);
        expected.extend_from_slice(&[sn as u8, 0, 0, 0, 0, 0, 0, 0]);
        expected.extend_from_slice(&[data.len() as u8, 0, 0, 0]);
        expected.extend_from_slice(data);
    }
    assert_eq!(&packet[..], &expected[..]);
    b.input(&packet[1..]).unwrap();
    let mut msgs = Vec::new();
    b.try_recv_all(&mut msgs);
    assert_eq!(msgs.len(), 3);
    assert_eq!(&msgs[0][..], b"one");
    assert_eq!(&msgs[1][..], b"");
    assert_eq!(&msgs[2][..], b"three");
}
