//! Whole transports talking to each other over a network in memory, on a clock of its own.

use kcp_peer::addr::SocketAddr;
use kcp_peer::engine::{Datagram, Outgoing, Outlet};
use kcp_peer::time::kcp_clock;
use kcp_peer::transport::Action;
use kcp_peer::{DataMessage, Error, Event, KcpConfig, KcpPeer, PacketType};
use std::collections::{HashSet, VecDeque};
use std::io::ErrorKind;
use std::sync::mpsc::{channel, Receiver};
use std::sync::{Arc, Mutex};
use std::task::{Wake, Waker};
use std::time::Duration;

/// Serves an outlet: keeps what was sent, and answers for the socket.
struct Socket {
    requests: Mutex<Receiver<Outgoing>>,
    sent: Mutex<VecDeque<Datagram>>,
    failure: Mutex<Option<ErrorKind>>,
}

impl Wake for Socket {
    fn wake(self: Arc<Self>) {
        while let Ok(outgoing) = self.requests.lock().unwrap().try_recv() {
            let answer = match *self.failure.lock().unwrap() {
                Some(kind) => Err(kind.into()),
                None => Ok(outgoing.datagram.packet.len()),
            };
            if answer.is_ok() {
                self.sent.lock().unwrap().push_back(outgoing.datagram);
            }
            outgoing.answer.send(answer).unwrap();
        }
    }
}

impl Socket {
    fn try_recv(&self) -> Result<Datagram, ()> {
        self.sent.lock().unwrap().pop_front().ok_or(())
    }
}

fn outlet() -> (Outlet, Arc<Socket>) {
    let (queue, requests) = channel();
    let socket = Arc::new(Socket {
        requests: Mutex::new(requests),
        sent: Mutex::new(VecDeque::new()),
        failure: Mutex::new(None),
    });
    (Outlet { queue, waker: Waker::from(socket.clone()) }, socket)
}

fn loopback(port: u16) -> SocketAddr {
    SocketAddr::V4 { ip: 0x7f00_0001, port }
}

struct Node {
    peer: KcpPeer,
    frames: Arc<Socket>,
    events: Vec<Event>,
    inbox: VecDeque<DataMessage>,
}

struct Net {
    now: u64,
    conv: u32,
    nodes: Vec<Node>,
    wire: VecDeque<(SocketAddr, SocketAddr, Vec<u8>)>,
}

impl Net {
    fn new() -> Net {
        Net { now: 1_700_000_000_000, conv: 1000, nodes: Vec::new(), wire: VecDeque::new() }
    }

    fn bind(&mut self, addr: SocketAddr, config: KcpConfig) -> usize {
        let (queue, frames) = outlet();
        let peer = KcpPeer::bind_with(addr, config, queue);
        self.nodes.push(Node { peer, frames, events: Vec::new(), inbox: VecDeque::new() });
        self.nodes.len() - 1
    }

    fn at(&self, addr: SocketAddr) -> Option<usize> {
        self.nodes.iter().position(|n| n.peer.local_addr() == addr)
    }

    /// Sends what KCP queued, then performs the actions.
    fn perform(&mut self, node: usize, actions: Vec<Action>) {
        let from = self.nodes[node].peer.local_addr();
        while let Ok(frame) = self.nodes[node].frames.try_recv() {
            self.wire.push_back((from, frame.to, frame.packet.to_vec()));
        }
        for action in actions {
            match action {
                Action::Send(d) => self.wire.push_back((from, d.to, d.packet.to_vec())),
                Action::Emit(event) => self.nodes[node].events.push(event),
                Action::DataReady => {}
                Action::Insert => self.nodes[node].peer.insert_accepted(),
            }
        }
    }

    fn send(&mut self, node: usize, to: SocketAddr, data: &[u8]) -> Result<(), Error> {
        self.conv += 1;
        let (sent, actions) = self.nodes[node].peer.send_with(to, data, self.conv, self.now);
        self.perform(node, actions);
        sent
    }

    fn deliver(&mut self) {
        while let Some((from, to, packet)) = self.wire.pop_front() {
            if let Some(node) = self.at(to) {
                let outcome = self.nodes[node].peer.handle_incoming_at(
                    &packet,
                    from,
                    self.now,
                    kcp_clock(self.now),
                );
                self.perform(node, outcome.unwrap_or_default());
                while let Ok(Some(message)) = self.nodes[node].peer.recv() {
                    self.nodes[node].inbox.push_back(message);
                }
            }
        }
    }

    fn tick(&mut self) {
        self.now += 10;
        for node in 0..self.nodes.len() {
            let actions = self.nodes[node].peer.update_sessions_at(self.now, kcp_clock(self.now));
            self.perform(node, actions);
        }
        self.deliver();
    }

    /// Ticks until a condition holds, for at most the given number of milliseconds.
    fn wait<F: Fn(&Net) -> bool>(&mut self, what: &str, millis: u64, f: F) {
        let deadline = self.now + millis;
        self.deliver();
        while !f(self) {
            if self.now >= deadline {
                panic!("timeout waiting for {what}");
            }
            self.tick();
        }
    }

    fn sleep(&mut self, millis: u64) {
        let deadline = self.now + millis;
        while self.now < deadline {
            self.tick();
        }
    }

    fn wait_event<F: Fn(&Event) -> bool>(&mut self, node: usize, millis: u64, f: F) -> Event {
        self.wait("event", millis, |net| net.nodes[node].events.iter().any(|e| f(e)));
        loop {
            let event = self.nodes[node].events.remove(0);
            if f(&event) {
                return event;
            }
        }
    }

    fn wait_data(&mut self, node: usize, millis: u64) -> DataMessage {
        self.wait("data", millis, |net| !net.nodes[node].inbox.is_empty());
        self.nodes[node].inbox.pop_front().unwrap()
    }

    /// A crash: the transport is gone, and nobody is told.
    fn drop_node(&mut self, node: usize) {
        let _ = self.nodes.remove(node);
    }
}

fn test_config() -> KcpConfig {
    KcpConfig::builder()
        .tick_interval(Duration::from_millis(10))
        .session_timeout(Duration::from_secs(60))
        .kcp_nodelay(2, 10, 2, true)
        .rx_minrto(10)
        .fast_resend(1)
        .build()
}

fn bind_pair() -> (Net, usize, usize, SocketAddr, SocketAddr) {
    let mut net = Net::new();
    let (addr_a, addr_b) = (loopback(40001), loopback(40002));
    let a = net.bind(addr_a, test_config());
    let b = net.bind(addr_b, test_config());
    (net, a, b, addr_a, addr_b)
}

fn is_connected(e: &Event) -> bool {
    matches!(e, Event::Connected(_))
}

fn is_disconnected(e: &Event) -> bool {
    matches!(e, Event::Disconnected(_))
}

fn check_basic_send_recv() {
    let (mut net, a, b, addr_a, addr_b) = bind_pair();
    net.send(a, addr_b, b"hello").expect("A→B send");
    let connected = net.wait_event(b, 5000, is_connected);
    assert!(matches!(connected, Event::Connected(_)));
    let data = net.wait_data(b, 5000);
    assert_eq!(data.peer, addr_a);
    assert_eq!(&data.data[..], b"hello");
    net.send(b, addr_a, b"world").expect("B→A send");
    let data2 = net.wait_data(a, 5000);
    assert_eq!(data2.peer, addr_b);
    assert_eq!(&data2.data[..], b"world");
}

#[test]
fn basic_basic_send_recv() {
    check_basic_send_recv();
}

#[test]
fn integration_basic_send_recv() {
    check_basic_send_recv();
}

#[test]
fn bidirectional() {
    let (mut net, a, b, addr_a, addr_b) = bind_pair();
    net.send(a, addr_b, b"from_a").expect("A send");
    let _ = net.wait_event(b, 5000, is_connected);
    let _ = net.wait_data(b, 5000);
    net.send(b, addr_a, b"from_b").expect("B send");
    let data = net.wait_data(a, 5000);
    assert_eq!(data.peer, addr_b);
    assert_eq!(&data.data[..], b"from_b");
}

fn check_large_message() {
    let (mut net, a, b, _addr_a, addr_b) = bind_pair();
    let payload = vec![0xABu8; 15_000];
    net.send(a, addr_b, &payload).expect("send large");
    let _ = net.wait_event(b, 5000, is_connected);
    let data = net.wait_data(b, 5000);
    assert_eq!(data.data.len(), 15_000, "large message size");
    assert_eq!(&data.data[..], &payload[..], "large message content");
}

#[test]
fn basic_large_message() {
    check_large_message();
}

#[test]
fn integration_large_message() {
    check_large_message();
}

fn check_many_small_messages() {
    let (mut net, a, b, _addr_a, addr_b) = bind_pair();
    let count = 100;
    for i in 0..count {
        let msg = vec![i as u8; 1];
        net.send(a, addr_b, &msg).expect("send small");
    }
    let _ = net.wait_event(b, 5000, is_connected);
    let mut received = 0;
    while received < count {
        let msg = net.wait_data(b, 10_000);
        assert_eq!(msg.data.len(), 1, "message {} size", received);
        assert_eq!(msg.data[0], received as u8, "message {} content", received);
        received += 1;
    }
    assert_eq!(received, count, "all small messages received");
}

#[test]
fn basic_many_small_messages() {
    check_many_small_messages();
}

#[test]
fn integration_many_small_messages() {
    check_many_small_messages();
}

#[test]
fn send_burst_established() {
    let (mut net, a, b, _addr_a, addr_b) = bind_pair();
    net.send(a, addr_b, b"connect").expect("connect send");
    let _ = net.wait_event(b, 5000, is_connected);
    let dm = net.wait_data(b, 5000);
    assert_eq!(&dm.data[..], b"connect");
    let n = 200;
    for i in 0..n {
        let msg = format!("msg-{i}");
        net.send(a, addr_b, msg.as_bytes()).expect("burst send");
    }
    for i in 0..n {
        let expected = format!("msg-{i}");
        let dm = net.wait_data(b, 5000);
        assert_eq!(dm.data, expected.as_bytes(), "burst message {i}");
    }
}

#[test]
fn recv_cancel_safety() {
    let (mut net, a, b, _addr_a, addr_b) = bind_pair();
    net.send(a, addr_b, b"ping").expect("A send");
    let _ = net.wait_event(b, 5000, is_connected);
    let _ = net.wait_data(b, 5000);
    assert_eq!(net.nodes[b].peer.recv(), Ok(None));
    net.send(a, addr_b, b"after_cancel").expect("A send after cancel");
    let data = net.wait_data(b, 5000);
    assert_eq!(&data.data[..], b"after_cancel", "data not lost after cancel");
}

fn check_crash_initiator() {
    let mut net = Net::new();
    let addr_a = loopback(9870);
    let addr_b = loopback(40002);
    let b = net.bind(addr_b, test_config());
    let a = net.bind(addr_a, test_config());
    net.send(a, addr_b, b"before_crash").expect("A send");
    let _ = net.wait_event(b, 5000, is_connected);
    let _ = net.wait_data(b, 5000);

    net.drop_node(a);
    net.sleep(100);

    let a2 = net.bind(addr_a, test_config());
    net.send(a2, addr_b, b"after_crash").expect("send after crash");
    let restarted = net.wait_event(b, 5000, |e| matches!(e, Event::PeerRestarted(_)));
    assert!(matches!(restarted, Event::PeerRestarted(addr) if addr == addr_a));
    let connected = net.wait_event(b, 5000, is_connected);
    assert!(matches!(connected, Event::Connected(addr) if addr == addr_a));
    let data = net.wait_data(b, 5000);
    assert_eq!(data.peer, addr_a);
    assert_eq!(&data.data[..], b"after_crash");
}

#[test]
fn crash_recovery_crash_initiator() {
    check_crash_initiator();
}

#[test]
fn integration_crash_initiator() {
    check_crash_initiator();
}

fn check_crash_receiver() {
    let (mut net, a, b, _addr_a, addr_b) = bind_pair();
    net.send(a, addr_b, b"before_crash").expect("initial send");
    let _ = net.wait_event(b, 5000, is_connected);
    let _ = net.wait_data(b, 5000);
    net.nodes[a].events.clear();

    net.drop_node(b);
    net.sleep(300);

    let addr_b2 = loopback(40003);
    let config = KcpConfig::builder()
        .tick_interval(Duration::from_millis(10))
        .kcp_nodelay(2, 10, 2, true)
        .rx_minrto(10)
        .fast_resend(1)
        .build();
    let b2 = net.bind(addr_b2, config);
    net.send(a, addr_b2, b"after_crash").expect("send after crash");
    let _ = net.wait_event(a, 5000, is_connected);
    let data = net.wait_data(b2, 5000);
    assert_eq!(&data.data[..], b"after_crash", "B2 received fresh data");
}

#[test]
fn crash_recovery_crash_receiver() {
    check_crash_receiver();
}

#[test]
fn integration_crash_receiver() {
    check_crash_receiver();
}

fn check_peer_restarted_detection() {
    let mut net = Net::new();
    let addr_a = loopback(40001);
    let addr_b = loopback(9900);
    let a = net.bind(addr_a, test_config());
    let b = net.bind(addr_b, test_config());
    net.send(a, addr_b, b"first").expect("A send");
    let _ = net.wait_event(a, 5000, is_connected);
    let _ = net.wait_event(b, 5000, is_connected);
    let _ = net.wait_data(b, 5000);

    net.drop_node(b);
    net.sleep(100);

    let b2 = net.bind(addr_b, test_config());
    net.send(b2, addr_a, b"after_restart").expect("B2 send");
    let restarted = net.wait_event(a, 5000, |e| matches!(e, Event::PeerRestarted(_)));
    assert!(matches!(restarted, Event::PeerRestarted(addr) if addr == addr_b));
    let connected = net.wait_event(a, 5000, is_connected);
    assert!(matches!(connected, Event::Connected(addr) if addr == addr_b));
    let data = net.wait_data(a, 5000);
    assert_eq!(data.peer, addr_b);
    assert_eq!(&data.data[..], b"after_restart");
}

#[test]
fn crash_recovery_peer_restarted_detection() {
    check_peer_restarted_detection();
}

#[test]
fn integration_peer_restarted_detection() {
    check_peer_restarted_detection();
}

fn check_syn_retry_exhaustion() {
    let config = KcpConfig::builder()
        .tick_interval(Duration::from_millis(10))
        .session_timeout(Duration::from_secs(60))
        .kcp_nodelay(2, 10, 2, true)
        .rx_minrto(10)
        .fast_resend(1)
        .syn_retry_interval(Duration::from_millis(50))
        .syn_max_retries(1)
        .build();
    let mut net = Net::new();
    let a = net.bind(loopback(40001), config);
    let unreachable = loopback(59999);
    let _ = net.send(a, unreachable, b"hello");
    let event = net.wait_event(a, 5000, is_disconnected);
    assert_eq!(event, Event::Disconnected(unreachable));
}

#[test]
fn failure_syn_retry_exhaustion() {
    check_syn_retry_exhaustion();
}

#[test]
fn integration_syn_retry_exhaustion() {
    check_syn_retry_exhaustion();
}

#[test]
fn custom_syn_retry_config() {
    let config = KcpConfig::builder()
        .tick_interval(Duration::from_millis(10))
        .session_timeout(Duration::from_secs(60))
        .kcp_nodelay(2, 10, 2, true)
        .rx_minrto(10)
        .fast_resend(1)
        .syn_retry_interval(Duration::from_millis(30))
        .syn_max_retries(2)
        .build();
    let mut net = Net::new();
    let a = net.bind(loopback(40001), config);
    let start = net.now;
    let (_, actions) = net.nodes[a].peer.send_with(loopback(59998), b"hello", 7, start);
    net.perform(a, actions);
    let _ = net.wait_event(a, 5000, is_disconnected);
    let elapsed = net.now - start;
    assert!(elapsed < 2000, "SYN retries exhausted quickly ({:?} < 2s)", elapsed);
    assert!(elapsed >= 50, "SYN retries take some time ({:?} >= 50ms)", elapsed);
    assert_eq!(elapsed, 100, "retries at 30 and 90, given up at the next tick");
}

fn check_dead_link() {
    let config = KcpConfig::builder()
        .tick_interval(Duration::from_millis(10))
        .kcp_interval_ms(10)
        .kcp_nodelay(1, 10, 2, true)
        .maximum_resend_times(4)
        .rx_minrto(10)
        .fast_resend(1)
        .build();
    let mut net = Net::new();
    let addr_b = loopback(40002);
    let a = net.bind(loopback(40001), config);
    let b = net.bind(addr_b, config);
    net.send(a, addr_b, b"ping").expect("first send");
    let _ = net.wait_data(b, 15_000);

    net.drop_node(b);
    net.sleep(100);

    let _ = net.send(a, addr_b, b"trigger");
    let event = net.wait_event(a, 15_000, is_disconnected);
    assert_eq!(event, Event::Disconnected(addr_b));
    assert!(net.nodes[a].peer.stats(addr_b).is_none());
}

#[test]
fn failure_dead_link() {
    check_dead_link();
}

#[test]
fn integration_dead_link() {
    check_dead_link();
}

fn check_concurrent_send_to_unknown_peer() {
    let (mut net, a, b, _addr_a, addr_b) = bind_pair();
    net.send(a, addr_b, b"msg1").expect("send1");
    net.send(a, addr_b, b"msg2").expect("send2");
    let syns = net.wire.iter().filter(|(_, _, p)| p[0] == PacketType::Syn.to_byte()).count();
    assert_eq!(syns, 1, "at most one SYN per peer");
    let _ = net.wait_event(b, 5000, is_connected);
    let mut received = Vec::new();
    for _ in 0..2 {
        received.push(net.wait_data(b, 5000).data.to_vec());
    }
    received.sort();
    assert_eq!(received, vec![b"msg1".to_vec(), b"msg2".to_vec()]);
}

#[test]
fn failure_concurrent_send_to_unknown_peer() {
    check_concurrent_send_to_unknown_peer();
}

#[test]
fn integration_concurrent_send_to_unknown_peer() {
    check_concurrent_send_to_unknown_peer();
}

fn check_initiator_gets_connected_event() {
    let mut net = Net::new();
    let addr_b = loopback(9901);
    let a = net.bind(loopback(40001), test_config());
    let _b = net.bind(addr_b, test_config());
    net.send(a, addr_b, b"hello").expect("A send");
    let connected = net.wait_event(a, 5000, is_connected);
    assert!(matches!(connected, Event::Connected(_)));
    assert_eq!(connected, Event::Connected(addr_b));
}

#[test]
fn handshake_initiator_gets_connected_event() {
    check_initiator_gets_connected_event();
}

#[test]
fn integration_initiator_gets_connected_event() {
    check_initiator_gets_connected_event();
}

fn short_timeout_config() -> KcpConfig {
    KcpConfig::builder()
        .tick_interval(Duration::from_millis(10))
        .session_timeout(Duration::from_millis(300))
        .kcp_nodelay(2, 10, 2, true)
        .rx_minrto(10)
        .fast_resend(1)
        .build()
}

fn check_session_timeout() {
    let mut net = Net::new();
    let (addr_a, addr_b) = (loopback(40001), loopback(40002));
    let a = net.bind(addr_a, short_timeout_config());
    let b = net.bind(addr_b, short_timeout_config());
    net.send(a, addr_b, b"hi").expect("send");
    let _ = net.wait_event(b, 5000, is_connected);
    let _ = net.wait_data(b, 5000);
    let event = net.wait_event(b, 5000, is_disconnected);
    assert_eq!(event, Event::Disconnected(addr_a));
}

#[test]
fn handshake_session_timeout() {
    check_session_timeout();
}

#[test]
fn integration_session_timeout() {
    check_session_timeout();
}

#[test]
fn drop_without_shutdown() {
    let mut net = Net::new();
    let (addr_a, addr_b) = (loopback(40001), loopback(40002));
    let b = net.bind(addr_b, short_timeout_config());
    let a = net.bind(addr_a, short_timeout_config());
    net.send(a, addr_b, b"ping").expect("A send");
    let _ = net.wait_event(b, 5000, is_connected);
    let _ = net.wait_data(b, 5000);
    net.drop_node(a);
    let start = net.now;
    let _ = net.wait_event(b, 5000, is_disconnected);
    assert!(net.now - start > 290, "found out by the session timer");
}

fn check_shutdown_lifecycle() {
    let (mut net, a, b, addr_a, addr_b) = bind_pair();
    net.send(a, addr_b, b"ping").expect("A send");
    let _ = net.wait_event(b, 5000, is_connected);
    let _ = net.wait_data(b, 5000);
    let actions = net.nodes[a].peer.shutdown();
    assert_eq!(actions.len(), 3, "three RESETs");
    net.perform(a, actions);
    let event = net.wait_event(b, 5000, is_disconnected);
    assert_eq!(event, Event::Disconnected(addr_a));
    assert_eq!(net.nodes[a].peer.recv(), Err(Error::ShuttingDown));
    assert_eq!(net.send(a, addr_b, b"late"), Err(Error::SessionClosed));
    assert!(net.nodes[a].peer.peers().is_empty());
    assert!(net.nodes[a].peer.stats(addr_b).is_none());
}

#[test]
fn handshake_shutdown_lifecycle() {
    check_shutdown_lifecycle();
}

#[test]
fn integration_shutdown_lifecycle() {
    check_shutdown_lifecycle();
}

fn check_send_after_disconnect() {
    let (mut net, a, b, _addr_a, addr_b) = bind_pair();
    net.send(a, addr_b, b"first").expect("A→B first");
    let _ = net.wait_event(b, 5000, is_connected);
    let _ = net.wait_data(b, 5000);

    let actions = net.nodes[a].peer.disconnect(addr_b);
    net.perform(a, actions);
    let _ = net.wait_event(b, 5000, is_disconnected);
    let _ = net.wait_event(a, 5000, is_disconnected);
    net.sleep(100);

    net.send(a, addr_b, b"second").expect("reconnect send");
    let _ = net.wait_event(a, 5000, is_connected);
    let _ = net.wait_event(b, 5000, is_connected);
    let data = net.wait_data(b, 5000);
    assert_eq!(&data.data[..], b"second", "reconnected data received");
}

#[test]
fn handshake_send_after_disconnect() {
    check_send_after_disconnect();
}

#[test]
fn integration_send_after_disconnect() {
    check_send_after_disconnect();
}

#[test]
fn reconnect() {
    let (mut net, a, b, _addr_a, addr_b) = bind_pair();
    net.send(a, addr_b, b"first").expect("first send");
    let data = net.wait_data(b, 5000);
    assert_eq!(&data.data[..], b"first");
    let actions = net.nodes[a].peer.disconnect(addr_b);
    net.perform(a, actions);
    let _ = net.wait_event(b, 5000, is_disconnected);
    net.sleep(100);
    net.send(a, addr_b, b"second").expect("reconnect send");
    let data = net.wait_data(b, 5000);
    assert_eq!(&data.data[..], b"second", "reconnected message");
    assert!(
        !net.nodes[b].events.iter().any(|e| matches!(e, Event::PeerRestarted(_))),
        "a normal handshake, no crash recovery",
    );
}

#[test]
fn send_cancel_during_handshake() {
    let (mut net, a, b, _addr_a, addr_b) = bind_pair();
    // The SYN is lost, as if the caller had gone before it was sent.
    let now = net.now;
    let (_, actions) = net.nodes[a].peer.send_with(addr_b, b"cancelled", 7, now);
    drop(actions);
    net.sleep(100);
    net.send(a, addr_b, b"after_cancel").expect("send after cancel");
    let _ = net.wait_event(a, 5000, is_connected);
    let _ = net.wait_event(b, 5000, is_connected);
    let mut data = net.wait_data(b, 5000);
    while data.data[..] != *b"after_cancel" {
        data = net.wait_data(b, 5000);
    }
    assert_eq!(&data.data[..], b"after_cancel", "data after cancel handshake");
}

fn simultaneous_handshake_n(n: usize) {
    let mut net = Net::new();
    let addrs: Vec<SocketAddr> = (0..n).map(|i| loopback(40001 + i as u16)).collect();
    for addr in &addrs {
        net.bind(*addr, test_config());
    }
    let timeout = match n {
        2 => 5000,
        3 => 10_000,
        _ => 15_000,
    };
    for i in 0..n {
        let msg = vec![i as u8; 32];
        for (j, addr) in addrs.iter().enumerate() {
            if j != i {
                net.send(i, *addr, &msg).expect("send");
            }
        }
    }
    for i in 0..n {
        let mut connected = HashSet::new();
        while connected.len() < n - 1 {
            if let Event::Connected(addr) = net.wait_event(i, timeout, is_connected) {
                connected.insert(addr);
            }
        }
        let mut received = HashSet::new();
        while received.len() < n - 1 {
            received.insert(net.wait_data(i, timeout).data[0]);
        }
        for j in 0..n {
            if i != j {
                assert!(
                    received.contains(&(j as u8)),
                    "peer {i} did not receive data from peer {j}",
                );
            }
        }
    }
    for i in 0..n {
        for j in 0..n {
            if i != j {
                let here = net.nodes[i].peer.stats(addrs[j]).unwrap();
                let there = net.nodes[j].peer.stats(addrs[i]).unwrap();
                assert_eq!(here.conv_id, there.conv_id, "one conversation");
            }
        }
    }
}

#[test]
fn simultaneous_handshake_2() {
    simultaneous_handshake_n(2);
}

#[test]
fn simultaneous_handshake_3() {
    simultaneous_handshake_n(3);
}

#[test]
fn simultaneous_handshake_4() {
    simultaneous_handshake_n(4);
}

#[test]
fn simultaneous_handshake() {
    let (mut net, a, b, addr_a, addr_b) = bind_pair();
    net.send(a, addr_b, b"from_a").expect("A send");
    net.send(b, addr_a, b"from_b").expect("B send");
    let _ = net.wait_event(a, 5000, is_connected);
    let _ = net.wait_event(b, 5000, is_connected);
    let _ = net.wait_data(a, 5000);
    let _ = net.wait_data(b, 5000);
}

fn check_multiple_peers() {
    let config = KcpConfig::builder()
        .tick_interval(Duration::from_millis(10))
        .kcp_nodelay(2, 10, 2, true)
        .rx_minrto(10)
        .fast_resend(1)
        .build();
    let mut net = Net::new();
    let (addr_b, addr_c) = (loopback(40002), loopback(40003));
    let a = net.bind(loopback(40001), config);
    let b = net.bind(addr_b, config);
    let c = net.bind(addr_c, config);
    net.send(a, addr_b, b"a_to_b").expect("A→B");
    let _ = net.wait_event(b, 5000, is_connected);
    assert_eq!(&net.wait_data(b, 5000).data[..], b"a_to_b");
    net.send(a, addr_c, b"a_to_c").expect("A→C");
    let _ = net.wait_event(c, 5000, is_connected);
    assert_eq!(&net.wait_data(c, 5000).data[..], b"a_to_c");
    assert!(net.nodes[b].inbox.is_empty());
}

#[test]
fn multi_peer_multiple_peers() {
    check_multiple_peers();
}

#[test]
fn integration_multiple_peers() {
    check_multiple_peers();
}

fn check_peers_list() {
    let mut net = Net::new();
    let (addr_b, addr_c) = (loopback(40002), loopback(40003));
    let a = net.bind(loopback(40001), test_config());
    let b = net.bind(addr_b, test_config());
    let c = net.bind(addr_c, test_config());
    assert!(net.nodes[a].peer.peers().is_empty(), "no peers before connecting");

    net.send(a, addr_b, b"hi_b").expect("A→B");
    let _ = net.wait_event(b, 5000, is_connected);
    let _ = net.wait_data(b, 5000);
    let peers = net.nodes[a].peer.peers();
    assert_eq!(peers.len(), 1, "one peer after A→B");
    assert!(peers.contains(&addr_b), "peers contains B");

    net.send(a, addr_c, b"hi_c").expect("A→C");
    let _ = net.wait_event(c, 5000, is_connected);
    let _ = net.wait_data(c, 5000);
    let peers = net.nodes[a].peer.peers();
    assert_eq!(peers.len(), 2, "two peers after A→C");
    assert!(peers.contains(&addr_b), "peers contains B");
    assert!(peers.contains(&addr_c), "peers contains C");

    let actions = net.nodes[a].peer.disconnect(addr_b);
    net.perform(a, actions);
    let peers = net.nodes[a].peer.peers();
    assert_eq!(peers.len(), 1, "one peer after disconnect B");
    assert!(peers.contains(&addr_c), "peers contains only C");
}

#[test]
fn multi_peer_peers_list() {
    check_peers_list();
}

#[test]
fn integration_peers_list() {
    check_peers_list();
}

#[test]
fn reset_wrong_conv_id() {
    let mut net = Net::new();
    let (addr_a, addr_b) = (loopback(40001), loopback(40002));
    let b = net.bind(addr_b, test_config());
    let a = net.bind(addr_a, test_config());
    net.send(a, addr_b, b"hello").expect("A send");
    let _ = net.wait_event(b, 5000, is_connected);
    let _ = net.wait_data(b, 5000);
    let conv = net.nodes[b].peer.stats(addr_a).expect("stats").conv_id;
    net.drop_node(a);
    net.sleep(50);

    let wrong_conv = conv.wrapping_add(1);
    let reset = kcp_peer::packet::encode_control(PacketType::Reset, wrong_conv);
    net.wire.push_back((addr_a, addr_b, reset.to_vec()));
    net.sleep(200);
    assert!(
        net.nodes[b].peer.stats(addr_a).is_some(),
        "session not removed by RESET with wrong conv_id"
    );

    let reset = kcp_peer::packet::encode_control(PacketType::Reset, conv);
    net.wire.push_back((addr_a, addr_b, reset.to_vec()));
    net.sleep(200);
    assert!(
        net.nodes[b].peer.stats(addr_a).is_none(),
        "session removed by RESET with correct conv_id"
    );
}

fn check_stats_active_peer() {
    let (mut net, a, b, addr_a, addr_b) = bind_pair();
    net.send(a, addr_b, b"ping").expect("A send");
    let _ = net.wait_event(b, 5000, is_connected);
    let _ = net.wait_data(b, 5000);

    let stats = net.nodes[b].peer.stats(addr_a).expect("stats should return Some");
    assert!(stats.conv_id != 0, "conv_id should be non-zero");
    assert_eq!(stats.send_wnd, 128, "send_wnd matches config");
    assert_eq!(stats.recv_wnd, 128, "recv_wnd matches config");
    assert!(!stats.dead_link, "dead_link should be false");

    let stats_a = net.nodes[a].peer.stats(addr_b).expect("stats should return Some");
    assert!(stats_a.conv_id != 0, "conv_id should be non-zero");
    assert!(!stats_a.dead_link, "dead_link should be false");
    assert_eq!(stats_a.conv_id, stats.conv_id);
}

#[test]
fn stats_stats_active_peer() {
    check_stats_active_peer();
}

#[test]
fn integration_stats_active_peer() {
    check_stats_active_peer();
}

#[test]
fn stats_unknown_peer() {
    let mut net = Net::new();
    let a = net.bind(loopback(40001), test_config());
    let unknown = loopback(54321);
    assert!(net.nodes[a].peer.stats(unknown).is_none(), "stats for unknown peer returns None");
}

fn check_stats_after_disconnect() {
    let (mut net, a, b, _addr_a, addr_b) = bind_pair();
    net.send(a, addr_b, b"ping").expect("A send");
    let _ = net.wait_event(b, 5000, is_connected);
    let _ = net.wait_data(b, 5000);
    assert!(net.nodes[a].peer.stats(addr_b).is_some(), "stats before disconnect");
    let _ = net.nodes[a].peer.disconnect(addr_b);
    assert!(net.nodes[a].peer.stats(addr_b).is_none(), "stats after disconnect returns None");
}

#[test]
fn stats_stats_after_disconnect() {
    check_stats_after_disconnect();
}

#[test]
fn integration_stats_after_disconnect() {
    check_stats_after_disconnect();
}

#[test]
fn wall_clock_calls() {
    let (queue_a, frames_a) = outlet();
    let (queue_b, frames_b) = outlet();
    let (addr_a, addr_b) = (loopback(40001), loopback(40002));
    let mut a = KcpPeer::bind(addr_a, queue_a);
    let mut b = KcpPeer::bind(addr_b, queue_b);

    let (sent, actions) = a.send(addr_b, b"now");
    assert_eq!(sent, Ok(()));
    assert_eq!(actions.len(), 1);
    let conv = a.stats(addr_b).unwrap().conv_id;
    assert!(conv >= 1);
    let stats = a.stats_at(addr_b, u64::MAX).unwrap();
    assert_eq!(stats.wait_snd, 1);
    assert!(stats.elapsed > Duration::from_secs(1));
    assert_eq!(a.stats_at(addr_b, 0).unwrap().elapsed, Duration::from_secs(0));
    assert!(a.initiate_session(addr_b).is_empty(), "there is one already");

    let syn = match &actions[0] {
        Action::Send(d) => d.packet.to_vec(),
        other => panic!("unexpected {other:?}"),
    };
    let answer = b.handle_incoming(&syn, addr_a).unwrap();
    assert_eq!(answer[1], Action::Emit(Event::Connected(addr_a)));
    assert_eq!(answer[2], Action::Insert);
    b.insert_accepted();
    let syn_ack = match &answer[0] {
        Action::Send(d) => d.packet.to_vec(),
        other => panic!("unexpected {other:?}"),
    };
    let done = a.handle_incoming(&syn_ack, addr_b).unwrap();
    assert_eq!(done, vec![Action::Emit(Event::Connected(addr_b))]);
    let frame = frames_a.try_recv().expect("flushed at once");
    let arrived = b.handle_incoming(&frame.packet, addr_a).unwrap();
    assert_eq!(arrived, vec![Action::DataReady]);
    let message = b.recv().unwrap().unwrap();
    assert_eq!(message.peer, addr_a);
    assert_eq!(&message.data[..], b"now");
    assert!(b.update_sessions().is_empty());
    let ack = frames_b.try_recv().expect("acknowledged on the tick");
    assert_eq!(ack.to, addr_a);
    assert_eq!(b.stats(addr_a).unwrap().conv_id, conv);
}

#[test]
fn mapped_address_is_the_same_peer() {
    let (mut net, a, b, addr_a, addr_b) = bind_pair();
    net.send(a, addr_b, b"plain").unwrap();
    let _ = net.wait_data(b, 5000);
    let mapped = SocketAddr::V6 { ip: 0xffff_7f00_0001, port: 40001, flowinfo: 0, scope_id: 0 };
    assert_eq!(
        net.nodes[b].peer.stats(mapped).unwrap().conv_id,
        net.nodes[b].peer.stats(addr_a).unwrap().conv_id,
    );
    net.send(b, mapped, b"back").unwrap();
    assert_eq!(&net.wait_data(a, 5000).data[..], b"back");
    assert_eq!(net.nodes[b].peer.peers(), vec![addr_a]);
    let _ = net.nodes[b].peer.disconnect(mapped);
    assert!(net.nodes[b].peer.stats(addr_a).is_none());
}

#[test]
fn repeated_syn_is_acknowledged_again() {
    let (mut net, _a, b, addr_a, _addr_b) = bind_pair();
    let syn = kcp_peer::packet::encode_control(PacketType::Syn, 5);
    let first = net.nodes[b].peer.handle_incoming_at(&syn, addr_a, 1000, 1000).unwrap();
    assert_eq!(first.len(), 3);
    net.nodes[b].peer.insert_accepted();
    let second = net.nodes[b].peer.handle_incoming_at(&syn, addr_a, 2000, 2000).unwrap();
    assert_eq!(second.len(), 1, "no event");
    match &second[0] {
        Action::Send(d) => assert_eq!(&d.packet[..], [0x02, 5, 0, 0, 0]),
        other => panic!("unexpected {other:?}"),
    }
    let stats = net.nodes[b].peer.stats_at(addr_a, 2500).unwrap();
    assert_eq!(stats.elapsed, Duration::from_millis(500), "the peer was heard");
    assert_eq!(net.nodes[b].peer.peers().len(), 1);
}

#[test]
fn simultaneous_handshake_takes_the_higher_address() {
    let (mut net, a, b, addr_a, addr_b) = bind_pair();
    let now = net.now;
    let (_, syn_a) = net.nodes[a].peer.send_with(addr_b, b"a", 111, now);
    let (_, syn_b) = net.nodes[b].peer.send_with(addr_a, b"b", 222, now);
    net.perform(a, syn_a);
    net.perform(b, syn_b);
    net.deliver();
    assert_eq!(net.nodes[a].peer.stats(addr_b).unwrap().conv_id, 222);
    assert_eq!(net.nodes[b].peer.stats(addr_a).unwrap().conv_id, 222);
    assert_eq!(net.nodes[a].events, vec![Event::Connected(addr_b)]);
    assert_eq!(net.nodes[b].events, vec![Event::Connected(addr_a)]);
}

#[test]
fn timeout_is_exclusive() {
    let config = short_timeout_config();
    let (queue, _frames) = outlet();
    let mut b = KcpPeer::bind_with(loopback(40002), config, queue);
    let syn = kcp_peer::packet::encode_control(PacketType::Syn, 5);
    let addr_a = loopback(40001);
    b.handle_incoming_at(&syn, addr_a, 1000, 1000).unwrap();
    b.insert_accepted();
    assert!(b.update_sessions_at(1300, 1300).is_empty(), "not longer than the timeout");
    let actions = b.update_sessions_at(1301, 1301);
    assert_eq!(actions.len(), 4);
    for action in &actions[..3] {
        match action {
            Action::Send(d) => {
                assert_eq!(d.to, addr_a);
                assert_eq!(&d.packet[..], [0x03, 5, 0, 0, 0]);
            }
            other => panic!("unexpected {other:?}"),
        }
    }
    assert_eq!(actions[3], Action::Emit(Event::Disconnected(addr_a)));
    assert!(b.peers().is_empty());
}

#[test]
fn kcp_error_of_a_packet_is_reported() {
    let (queue, _frames) = outlet();
    let mut b = KcpPeer::bind_with(loopback(40002), test_config(), queue);
    let addr_a = loopback(40001);
    let syn = kcp_peer::packet::encode_control(PacketType::Syn, 5);
    b.handle_incoming_at(&syn, addr_a, 1000, 1000).unwrap();
    b.insert_accepted();
    assert_eq!(
        b.handle_incoming_at(&[0x00, 5, 0, 0, 0], addr_a, 1500, 1500),
        Err(Error::Kcp(kcp_peer::error::KcpError::InvalidSegmentSize(4))),
    );
    assert_eq!(
        b.stats_at(addr_a, 1500).unwrap().elapsed,
        Duration::from_secs(0),
        "the peer was heard all the same",
    );
}

#[test]
fn lost_session_is_told_by_reset() {
    let (mut net, a, b, _addr_a, addr_b) = bind_pair();
    net.send(a, addr_b, b"first").unwrap();
    let _ = net.wait_data(b, 5000);
    net.drop_node(b);
    let b2 = net.bind(addr_b, test_config());
    net.nodes[a].events.clear();
    net.send(a, addr_b, b"to nobody it knows").unwrap();
    let event = net.wait_event(a, 5000, is_disconnected);
    assert_eq!(event, Event::Disconnected(addr_b));
    assert!(net.nodes[b2].peer.peers().is_empty());
    assert!(net.nodes[a].peer.peers().is_empty());
}

#[test]
fn shutdown_tells_every_peer() {
    let mut net = Net::new();
    let addrs = [loopback(40002), loopback(40003)];
    let a = net.bind(loopback(40001), test_config());
    for addr in addrs {
        net.send(a, addr, b"hello").unwrap();
    }
    let convs: Vec<u32> =
        addrs.iter().map(|addr| net.nodes[a].peer.stats(*addr).unwrap().conv_id).collect();
    let actions = net.nodes[a].peer.shutdown();
    assert_eq!(actions.len(), 6);
    for (i, action) in actions.iter().enumerate() {
        match action {
            Action::Send(d) => {
                assert_eq!(d.to, addrs[i / 3]);
                assert_eq!(
                    d.packet,
                    kcp_peer::packet::encode_control(PacketType::Reset, convs[i / 3]),
                );
            }
            other => panic!("unexpected {other:?}"),
        }
    }
}

#[test]
fn stray_control_packets_change_nothing() {
    let (queue, _frames) = outlet();
    let now = 1000;
    let mut a = KcpPeer::bind_with(loopback(40001), test_config(), queue);
    let (addr_b, addr_c) = (loopback(40002), loopback(40003));
    let (sent, actions) = a.send_with(addr_b, b"x", 5, now);
    assert_eq!(sent, Ok(()));
    assert_eq!(actions.len(), 1);
    let packet = |typ, conv| kcp_peer::packet::encode_control(typ, conv);

    // Its own SYN come back, a SYN_ACK and a RESET of another conversation.
    let strays = [
        packet(PacketType::Syn, 5),
        packet(PacketType::SynAck, 6),
        packet(PacketType::Reset, 6),
    ];
    for stray in &strays {
        assert_eq!(a.handle_incoming_at(stray, addr_b, now + 10, 10), Ok(vec![]));
    }
    let stats = a.stats_at(addr_b, now + 20).unwrap();
    assert_eq!(stats.elapsed, Duration::from_millis(20), "not heard");

    // A second peer comes and goes without the first being touched.
    let opened = a.handle_incoming_at(&packet(PacketType::Syn, 9), addr_c, now + 30, 30).unwrap();
    assert_eq!(opened[1], Action::Emit(Event::Connected(addr_c)));
    a.insert_accepted();
    let closed = a.handle_incoming_at(&packet(PacketType::Reset, 9), addr_c, now + 40, 40);
    assert_eq!(closed, Ok(vec![Action::Emit(Event::Disconnected(addr_c))]));
    assert_eq!(a.stats_at(addr_b, now + 20).unwrap().conv_id, 5);

    // The SYN_ACK that the handshake waits for, then the same again.
    let done = a.handle_incoming_at(&packet(PacketType::SynAck, 5), addr_b, now + 50, 50);
    assert_eq!(done, Ok(vec![Action::Emit(Event::Connected(addr_b))]));
    let late = a.handle_incoming_at(&packet(PacketType::SynAck, 5), addr_b, now + 60, 60);
    assert_eq!(late, Ok(vec![]));
}

/// A data segment as KCP frames it.
fn push_frame(conv: u32, frg: u8, sn: u32, data: &[u8]) -> Vec<u8> {
    let mut frame = conv.to_le_bytes().to_vec();
    frame.extend_from_slice(&[81, frg, 128, 0]);
    frame.extend_from_slice(&0u32.to_le_bytes());
    frame.extend_from_slice(&sn.to_le_bytes());
    frame.extend_from_slice(&0u32.to_le_bytes());
    frame.extend_from_slice(&(data.len() as u32).to_le_bytes());
    frame.extend_from_slice(data);
    frame
}

#[test]
fn next_segment_is_read_at_once() {
    let (queue, _frames) = outlet();
    let mut b = KcpPeer::bind_with(loopback(40002), test_config(), queue);
    let addr_a = loopback(40001);
    let data = |frame: Vec<u8>| kcp_peer::packet::encode_kcp_data(&frame);
    let syn = kcp_peer::packet::encode_control(PacketType::Syn, 5);
    b.handle_incoming_at(&syn, addr_a, 1000, 1000).unwrap();
    b.insert_accepted();

    let ready = Ok(vec![Action::DataReady]);
    let first = data(push_frame(5, 0, 0, b"first"));
    assert_eq!(b.handle_incoming_at(&first, addr_a, 1000, 1000), ready);
    let message = b.recv().unwrap().unwrap();
    assert_eq!((message.peer, &message.data[..]), (addr_a, &b"first"[..]));
    assert_eq!(b.handle_incoming_at(&first, addr_a, 1000, 1000), Ok(vec![]), "once");

    // Out of order: the third segment waits for the second, then both are read.
    let third = data(push_frame(5, 0, 2, b"third"));
    assert_eq!(b.handle_incoming_at(&third, addr_a, 1000, 1000), Ok(vec![]));
    let second = data(push_frame(5, 0, 1, b"second"));
    assert_eq!(b.handle_incoming_at(&second, addr_a, 1000, 1000), ready);
    assert_eq!(&b.recv().unwrap().unwrap().data[..], b"second");
    assert_eq!(&b.recv().unwrap().unwrap().data[..], b"third");
    assert_eq!(b.recv(), Ok(None));

    // A message in two fragments is read when the second is there.
    let half = data(push_frame(5, 1, 3, b"two "));
    assert_eq!(b.handle_incoming_at(&half, addr_a, 1000, 1000), Ok(vec![]));
    let rest = data(push_frame(5, 0, 4, b"halves"));
    assert_eq!(b.handle_incoming_at(&rest, addr_a, 1000, 1000), ready);
    assert_eq!(&b.recv().unwrap().unwrap().data[..], b"two halves");

    let foreign = data(push_frame(6, 0, 5, b"foreign"));
    assert_eq!(
        b.handle_incoming_at(&foreign, addr_a, 1000, 1000),
        Err(Error::Kcp(kcp_peer::error::KcpError::ConvInconsistent(5, 6))),
    );
    assert_eq!(b.recv(), Ok(None));
}

#[test]
fn connected_is_reported_before_the_session_is_in() {
    let (queue, _frames) = outlet();
    let mut b = KcpPeer::bind_with(loopback(40002), test_config(), queue);
    let addr_a = loopback(40001);
    let syn = |conv| kcp_peer::packet::encode_control(PacketType::Syn, conv);
    let actions = b.handle_incoming_at(&syn(5), addr_a, 1000, 1000).unwrap();
    assert_eq!(actions.len(), 3);
    assert_eq!(actions[1], Action::Emit(Event::Connected(addr_a)));
    assert_eq!(actions[2], Action::Insert);
    assert!(b.stats_at(addr_a, 1000).is_none(), "not in yet");
    assert!(b.peers().is_empty());
    b.insert_accepted();
    assert_eq!(b.stats_at(addr_a, 1000).unwrap().conv_id, 5);
    assert_eq!(b.session_count(), 1);

    // A restart closes the old session, and the new one takes its place.
    let actions = b.handle_incoming_at(&syn(6), addr_a, 2000, 2000).unwrap();
    assert_eq!(actions[0], Action::Emit(Event::PeerRestarted(addr_a)));
    assert_eq!(actions[2], Action::Emit(Event::Connected(addr_a)));
    assert_eq!(actions[3], Action::Insert);
    assert!(b.stats_at(addr_a, 2000).is_none(), "closed");
    assert_eq!(b.session_count(), 1);
    assert_eq!(b.send_with(addr_a, b"x", 1, 2000).0, Err(Error::SessionClosed));
    b.insert_accepted();
    assert_eq!(b.stats_at(addr_a, 2000).unwrap().conv_id, 6);
    assert_eq!(b.session_count(), 1);
    b.insert_accepted();
    assert_eq!(b.session_count(), 1, "nobody waits any more");
}

#[test]
fn failing_socket_ends_no_session() {
    let (mut net, a, b, _addr_a, addr_b) = bind_pair();
    net.send(a, addr_b, b"first").unwrap();
    let _ = net.wait_data(b, 5000);
    net.nodes[a].events.clear();
    *net.nodes[a].frames.failure.lock().unwrap() = Some(ErrorKind::ConnectionRefused);
    net.send(a, addr_b, b"second").unwrap();
    net.sleep(100);
    assert!(net.nodes[a].events.is_empty(), "no event");
    assert!(net.nodes[b].inbox.is_empty());
    *net.nodes[a].frames.failure.lock().unwrap() = None;
    assert_eq!(&net.wait_data(b, 5000).data[..], b"second", "sent again");
}

#[test]
fn dead_link_refuses_then_reconnects() {
    let config = KcpConfig::builder()
        .kcp_nodelay(2, 10, 2, true)
        .maximum_resend_times(1)
        .build();
    let (queue, _frames) = outlet();
    let mut a = KcpPeer::bind_with(loopback(40001), config, queue);
    let addr_b = loopback(40002);
    assert_eq!(a.send_with(addr_b, b"x", 5, 1000).0, Ok(()));
    let syn_ack = kcp_peer::packet::encode_control(PacketType::SynAck, 5);
    a.handle_incoming_at(&syn_ack, addr_b, 1000, 1000).unwrap();
    assert!(a.stats_at(addr_b, 1000).unwrap().dead_link, "dead on the first transmission");

    assert_eq!(a.send_with(addr_b, b"y", 6, 1000), (Err(Error::DeadLink), vec![]));
    assert_eq!(a.stats_at(addr_b, 1000).unwrap().wait_snd, 1, "nothing queued");
    let actions = a.update_sessions_at(1010, 1010);
    assert_eq!(actions[3], Action::Emit(Event::Disconnected(addr_b)));
    assert!(a.stats_at(addr_b, 1010).is_none());

    let (sent, actions) = a.send_with(addr_b, b"z", 7, 1020);
    assert_eq!(sent, Ok(()));
    match &actions[0] {
        Action::Send(d) => assert_eq!(&d.packet[..], [0x01, 7, 0, 0, 0]),
        other => panic!("unexpected {other:?}"),
    }
}

#[test]
fn dead_link_is_pruned_while_the_socket_fails() {
    let config = KcpConfig::builder()
        .tick_interval(Duration::from_millis(10))
        .kcp_interval_ms(10)
        .kcp_nodelay(1, 10, 2, true)
        .maximum_resend_times(4)
        .rx_minrto(10)
        .fast_resend(1)
        .build();
    let mut net = Net::new();
    let addr_b = loopback(40002);
    let a = net.bind(loopback(40001), config);
    let b = net.bind(addr_b, config);
    net.send(a, addr_b, b"ping").unwrap();
    let _ = net.wait_data(b, 15_000);
    *net.nodes[a].frames.failure.lock().unwrap() = Some(ErrorKind::NetworkUnreachable);
    net.send(a, addr_b, b"lost").unwrap();
    let event = net.wait_event(a, 15_000, is_disconnected);
    assert_eq!(event, Event::Disconnected(addr_b), "long before the session timeout");
    assert!(net.nodes[a].peer.peers().is_empty());
}
