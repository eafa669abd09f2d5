//! The transport: all sessions of one socket, and what packets, timers and calls do to them.

use crate::addr::{canonicalize, is_after, spec_canonicalize, SocketAddr};
use crate::config::{is_default, KcpConfig};
use crate::engine::{
    kcp_is_dead_link, kcp_rcv_wnd, kcp_rmt_wnd, kcp_snd_wnd, kcp_wait_snd, transmitted,
    Datagram, Outlet,
};
use crate::error::{Error, IoError, Result};
use crate::origin::{drawn_conv, drawn_incarnation};
use crate::packet::{conv_of, encode_control, read_conv, split_packet, PacketType};
use crate::protocol::{
    accepted, action_views, adopted, insert_step, all_resets, all_ticked, completed, data_step,
    disconnect_step, distinct_peers, farewells, fresh_peer, has_session, incoming, initiate_step,
    keeps, messages_from, open_peers, outcome_view, queue_step, recv_step, repeated_syns,
    reset_step, resets, send_step, session_index, session_key, session_views, shutdown_step,
    stats_step, survivors, syn_ack, syn_ack_step, syn_step, tick_step, tick_with, ticked, with_all,
    with_session, ActionView, PeerView, Ticked,
};
use crate::random::{random_conv, random_incarnation};
use crate::session::{
    drained_messages, drives, lemma_transmitted_reflexive, message_views, Session, SessionState,
    SessionView,
};
use crate::time::{clock_reading, epoch_ms, kcp_clock, low_millis, NANOS_PER_MILLI};
use bytes::{Bytes, BytesMut};
use std::collections::VecDeque;
use std::time::Duration;
use vstd::prelude::*;

pub use crate::addr::CanonicalAddr;

verus! {

/// Events that the transport reports.
///
/// For a normal outbound connection the sequence is [`Connected`](Event::Connected), then
/// [`Disconnected`](Event::Disconnected). For crash recovery it is
/// [`PeerRestarted`](Event::PeerRestarted), then [`Connected`](Event::Connected). Data is read
/// with [`KcpPeer::recv`], not through events.
#[derive(Debug, Clone, Copy, PartialEq, Eq, Structural)]
pub enum Event {
    /// Handshake completed or inbound connection accepted.
    ///
    /// For the outbound (initiator) side: fires when `SYN_ACK` arrives and the session is
    /// established. For the inbound (receiver) side: fires when the `SYN` is processed, before
    /// the session is put in, which is left to [`Action::Insert`].
    Connected(SocketAddr),
    /// Session closed: idle timeout, dead link, incoming RESET or
    /// [`disconnect`](KcpPeer::disconnect). The session is gone before the event fires.
    Disconnected(SocketAddr),
    /// Peer restarted: the old session was replaced by a new incarnation. Always followed by
    /// [`Connected`](Event::Connected) for the new session.
    PeerRestarted(SocketAddr),
}

/// Application data received from a peer.
#[derive(Debug, PartialEq, Eq)]
pub struct DataMessage {
    /// Remote peer address.
    pub peer: SocketAddr,
    /// Application payload.
    pub data: Bytes,
}

/// What is to be done outside the transport.
#[derive(Debug, PartialEq, Eq)]
pub enum Action {
    /// Send a datagram.
    Send(Datagram),
    /// Report an event to all subscribers.
    Emit(Event),
    /// Wake whoever waits for data.
    DataReady,
    /// Call [`KcpPeer::insert_accepted`].
    Insert,
}

/// Per-peer connection statistics.
#[derive(Debug, Clone, Copy)]
pub struct PeerStats {
    /// KCP conversation ID for this session.
    pub conv_id: u32,
    /// Local send window size (segments).
    pub send_wnd: u32,
    /// Local receive window size (segments).
    pub recv_wnd: u32,
    /// Remote peer's advertised window size.
    pub rmt_wnd: u32,
    /// Number of segments waiting to be sent (in-flight + queued).
    pub wait_snd: usize,
    /// Whether KCP has declared the connection dead (retransmission exhausted).
    pub dead_link: bool,
    /// Time elapsed since the last packet was received from this peer.
    pub elapsed: Duration,
}

/// A symmetric P2P transport over a single UDP socket, without the socket.
///
/// Sessions are identified by remote address (canonicalized: IPv4-mapped IPv6 to plain IPv4).
/// At most one session per peer. KCP frames leave through the outlet; everything else that is to
/// be done outside is returned as a list of [`Action`]s.
pub struct KcpPeer {
    sessions: Vec<Session>,
    lobby: Vec<Session>,
    pending_data: VecDeque<DataMessage>,
    incarnation: u64,
    shutting_down: bool,
    config: KcpConfig,
    local_addr: SocketAddr,
    outlet: Outlet,
}

impl View for KcpPeer {
    type V = PeerView;

    closed spec fn view(&self) -> PeerView {
        PeerView {
            sessions: session_views(self.sessions@),
            lobby: session_views(self.lobby@),
            pending: self.pending_data@.map_values(|message: DataMessage| message@),
            incarnation: self.incarnation,
            shutting_down: self.shutting_down,
            config: self.config,
            local_addr: self.local_addr,
            outlet: self.outlet,
        }
    }
}

/// One more action.
proof fn lemma_action_pushed(actions: Seq<Action>, action: Action)
    ensures
        action_views(actions.push(action)) == action_views(actions).push(action@),
{
    assert(action_views(actions.push(action)) =~= action_views(actions).push(action@));
}

/// A session that changes without changing its peer leaves the transport sound.
proof fn lemma_session_changed(before: PeerView, i: int, session: SessionView)
    requires
        before.wf(),
        0 <= i < before.sessions.len(),
        session.wf(),
        session.peer_addr == before.sessions[i].peer_addr,
    ensures
        (PeerView { sessions: before.sessions.update(i, session), ..before }).wf(),
{
    let after = before.sessions.update(i, session);
    assert forall|a: int, b: int| 0 <= a < b < after.len() implies session_key(
        #[trigger] after[a],
    ) != session_key(#[trigger] after[b]) by {
        assert(session_key(after[a]) == session_key(before.sessions[a]));
        assert(session_key(after[b]) == session_key(before.sessions[b]));
    }
}

/// Putting the session of a peer in leaves the transport sound.
proof fn lemma_session_put(before: PeerView, session: SessionView)
    requires
        before.wf(),
        session.wf(),
    ensures
        (PeerView { sessions: with_session(before.sessions, session), ..before }).wf(),
{
    let can = session_key(session);
    let after = with_session(before.sessions, session);
    if has_session(before.sessions, can) {
        let i = session_index(before.sessions, can);
        assert(keeps(before.sessions, can, i));
        assert forall|a: int, b: int| 0 <= a < b < after.len() implies session_key(
            #[trigger] after[a],
        ) != session_key(#[trigger] after[b]) by {
            assert(session_key(after[a]) == session_key(before.sessions[a]));
            assert(session_key(after[b]) == session_key(before.sessions[b]));
        }
    } else {
        assert forall|a: int, b: int| 0 <= a < b < after.len() implies session_key(
            #[trigger] after[a],
        ) != session_key(#[trigger] after[b]) by {
            assert(after[a] == before.sessions[a]);
            if b < before.sessions.len() {
                assert(after[b] == before.sessions[b]);
            } else {
                assert(!keeps(before.sessions, can, a));
            }
        }
    }
}

/// Taking the session of a peer out leaves the transport sound.
proof fn lemma_session_taken(before: PeerView, i: int)
    requires
        before.wf(),
        0 <= i < before.sessions.len(),
    ensures
        (PeerView { sessions: before.sessions.remove(i), ..before }).wf(),
{
    let after = before.sessions.remove(i);
    assert forall|a: int, b: int| 0 <= a < b < after.len() implies session_key(
        #[trigger] after[a],
    ) != session_key(#[trigger] after[b]) by {
        let p = if a < i { a } else { a + 1 };
        let q = if b < i { b } else { b + 1 };
        assert(after[a] == before.sessions[p]);
        assert(after[b] == before.sessions[q]);
    }
    assert forall|a: int| 0 <= a < after.len() implies (#[trigger] after[a]).wf() by {
        let p = if a < i { a } else { a + 1 };
        assert(after[a] == before.sessions[p]);
    }
}

/// Appends three copies of a RESET packet.
fn push_resets(actions: &mut Vec<Action>, to: SocketAddr, conv: u32)
    ensures
        action_views(final(actions)@) == action_views(old(actions)@) + resets(to, conv),
{
    let mut i: usize = 0;
    while i < 3
        invariant
            i <= 3,
            action_views(actions@) =~= action_views(old(actions)@) + resets(to, conv).take(
                i as int,
            ),
        decreases 3 - i,
    {
        let packet = encode_control(PacketType::Reset, conv);
        let action = Action::Send(Datagram { to, packet });
        proof {
            lemma_action_pushed(actions@, action);
            assert(action@ == resets(to, conv)[i as int]);
        }
        actions.push(action);
        i += 1;
    }
}

/// A SYN_ACK packet, to be sent.
fn ack(to: SocketAddr, conv: u32) -> (action: Action)
    ensures
        action@ == syn_ack(to, conv),
{
    Action::Send(Datagram { to, packet: encode_control(PacketType::SynAck, conv) })
}

/// Look at the timers of a session: the SYN to repeat, and whether the session ends.
fn tick_session(session: &mut Session, config: &KcpConfig, now: u64, now_ms: u32) -> (looked: (
    Option<Datagram>,
    bool,
))
    requires
        old(session)@.wf(),
    ensures
        final(session)@.wf(),
        final(session)@.peer_addr == old(session)@.peer_addr,
        transmitted(old(session)@.engine(), final(session)@.engine()),
        exists|answers: Seq<std::io::Result<usize>>|
            looked_at(
                #[trigger] ticked(old(session)@, *config, now, now_ms, answers),
                final(session)@,
                looked,
            ),
{
    if session.closed {
        proof {
            lemma_transmitted_reflexive(session@.engine());
            assert(looked_at(
                ticked(old(session)@, *config, now, now_ms, Seq::empty()),
                session@,
                (None, false),
            ));
        }
        return (None, false);
    }
    let waiting = session.update(now_ms);
    let ghost answers = choose|answers: Seq<std::io::Result<usize>>|
        #[trigger] drives(old(session)@, now_ms, answers, session@, waiting);
    if let Err(Error::DeadLink) = waiting {
        assert(looked_at(
            ticked(old(session)@, *config, now, now_ms, answers),
            session@,
            (None, true),
        ));
        return (None, true);
    }
    match session.maybe_retry_syn(config, now) {
        Err(_) => {
            assert(looked_at(
                ticked(old(session)@, *config, now, now_ms, answers),
                session@,
                (None, true),
            ));
            (None, true)
        },
        Ok(syn) => {
            let expired: bool = session.last_rx > 0 && {
                let age: u64 = now.saturating_sub(session.last_rx);
                (age as u128) * NANOS_PER_MILLI > config.session_timeout.as_nanos()
            };
            let looked = (syn, expired);
            assert(looked_at(
                ticked(old(session)@, *config, now, now_ms, answers),
                session@,
                looked,
            ));
            looked
        },
    }
}

/// That a session, a SYN and an end are what one look at the timers came to.
spec fn looked_at(tick: Ticked, session: SessionView, looked: (Option<Datagram>, bool)) -> bool {
    &&& session == tick.session
    &&& looked.1 == tick.expired
    &&& match looked.0 {
        Some(syn) => tick.syn == Some(syn@),
        None => tick.syn is None,
    }
}

impl KcpPeer {
    /// Where the session of a peer is kept.
    fn find(&self, can: CanonicalAddr) -> (found: Option<usize>)
        requires
            distinct_peers(self@.sessions),
        ensures
            match found {
                Some(i) => {
                    &&& has_session(self@.sessions, can)
                    &&& i == session_index(self@.sessions, can)
                    &&& i < self.sessions@.len()
                    &&& session_key(self@.sessions[i as int]) == can
                },
                None => !has_session(self@.sessions, can),
            },
    {
        let mut i: usize = 0;
        while i < self.sessions.len()
            invariant
                distinct_peers(self@.sessions),
                i <= self.sessions@.len(),
                forall|j: int| 0 <= j < i ==> !keeps(self@.sessions, can, j),
            decreases self.sessions@.len() - i,
        {
            if canonicalize(self.sessions[i].peer_addr) == can {
                assert(keeps(self@.sessions, can, i as int));
                return Some(i);
            }
            i += 1;
        }
        None
    }

    /// Append messages of a peer to those that wait to be read.
    fn deliver(&mut self, peer: SocketAddr, msgs: Vec<BytesMut>)
        ensures
            final(self)@ == (PeerView {
                pending: old(self)@.pending + messages_from(peer, message_views(msgs@)),
                ..old(self)@
            }),
    {
        let ghost arrived = messages_from(peer, message_views(msgs@));
        for msg in it: msgs.into_iter()
            invariant
                it.seq() == msgs@,
                arrived == messages_from(peer, message_views(msgs@)),
                self@ =~= (PeerView {
                    pending: old(self)@.pending + arrived.take(it.index() as int),
                    ..old(self)@
                }),
        {
            let ghost waiting = self.pending_data@;
            let message = DataMessage { peer, data: msg.freeze() };
            assert(message@ == arrived[it.index() as int]);
            self.pending_data.push_back(message);
            assert(self@.pending =~= waiting.map_values(|m: DataMessage| m@).push(message@));
        }
        assert(arrived.take(arrived.len() as int) =~= arrived);
    }

    /// Feed a KCP packet to its session.
    fn handle_data(&mut self, payload: &[u8], from: SocketAddr, now: u64) -> (outcome: Result<
        Vec<Action>,
    >)
        requires
            old(self)@.wf(),
        ensures
            final(self)@.wf(),
            data_step(old(self)@, payload@, from, now, final(self)@, outcome_view(outcome)),
    {
        let mut actions: Vec<Action> = Vec::new();
        match self.find(canonicalize(from)) {
            Some(i) => {
                self.sessions[i].last_rx = now;
                let taken = self.sessions[i].input(payload);
                let ghost heard = self.sessions@[i as int]@;
                proof {
                    lemma_session_changed(old(self)@, i as int, heard);
                    assert(self@ =~= (PeerView {
                        sessions: old(self)@.sessions.update(i as int, heard),
                        ..old(self)@
                    }));
                }
                if let Err(err) = taken {
                    return Err(err);
                }
                let mut msgs: Vec<BytesMut> = Vec::new();
                self.sessions[i].try_recv_all(&mut msgs);
                let ghost read = self.sessions@[i as int]@;
                proof {
                    lemma_session_changed(old(self)@, i as int, read);
                    assert(self@ =~= (PeerView {
                        sessions: old(self)@.sessions.update(i as int, read),
                        ..old(self)@
                    }));
                    assert(message_views(msgs@) =~= drained_messages(heard.engine()));
                }
                if msgs.len() > 0 {
                    let peer = self.sessions[i].peer_addr;
                    self.deliver(peer, msgs);
                    proof {
                        lemma_action_pushed(actions@, Action::DataReady);
                    }
                    actions.push(Action::DataReady);
                    assert(action_views(actions@) =~= seq![ActionView::DataReady]);
                } else {
                    assert(messages_from(read.peer_addr, message_views(msgs@)) =~= Seq::empty());
                    assert(self@.pending =~= old(self)@.pending + messages_from(
                        read.peer_addr,
                        message_views(msgs@),
                    ));
                    assert(action_views(actions@) =~= Seq::empty());
                }
                Ok(actions)
            },
            None => {
                if payload.len() >= 4 {
                    push_resets(&mut actions, from, read_conv(payload));
                    assert(action_views(actions@) =~= resets(from, conv_of(payload@)));
                } else {
                    assert(action_views(actions@) =~= Seq::empty());
                }
                Ok(actions)
            },
        }
    }

    /// Put the session of a peer in, in place of the peer's old one.
    fn insert_session(&mut self, session: Session)
        requires
            old(self)@.wf(),
            session@.wf(),
        ensures
            final(self)@.wf(),
            final(self)@ == (PeerView {
                sessions: with_session(old(self)@.sessions, session@),
                ..old(self)@
            }),
    {
        proof {
            lemma_session_put(old(self)@, session@);
        }
        match self.find(canonicalize(session.peer_addr)) {
            Some(i) => {
                self.sessions.set(i, session);
            },
            None => {
                self.sessions.push(session);
            },
        }
        assert(self@ =~= (PeerView {
            sessions: with_session(old(self)@.sessions, session@),
            ..old(self)@
        }));
    }

    /// Take the session of a peer out.
    fn remove_session(&mut self, i: usize) -> (session: Session)
        requires
            old(self)@.wf(),
            i < old(self)@.sessions.len(),
        ensures
            final(self)@.wf(),
            final(self)@ == (PeerView {
                sessions: old(self)@.sessions.remove(i as int),
                ..old(self)@
            }),
            session@ == old(self)@.sessions[i as int],
    {
        proof {
            lemma_session_taken(old(self)@, i as int);
        }
        let session = self.sessions.remove(i);
        assert(self@ =~= (PeerView {
            sessions: old(self)@.sessions.remove(i as int),
            ..old(self)@
        }));
        session
    }

    /// Open a session for a peer whose SYN came in, and acknowledge it. The session waits to be
    /// put in.
    fn accept(&mut self, conv: u32, from: SocketAddr, now: u64) -> (syn_ack: Datagram)
        requires
            old(self)@.wf(),
        ensures
            final(self)@.wf(),
            accepted(old(self)@, conv, from, now, final(self)@),
            ActionView::Send(syn_ack@) == self::syn_ack(from, conv),
    {
        let (session, syn_ack) = Session::new_inbound(
            conv,
            from,
            self.outlet.handle(),
            self.incarnation,
            &self.config,
            now,
        );
        self.lobby.push(session);
        assert(self@ =~= (PeerView { lobby: old(self)@.lobby.push(session@), ..old(self)@ }));
        syn_ack
    }

    /// Put in the sessions that were accepted, each in place of its peer's old one.
    pub fn insert_accepted(&mut self)
        requires
            old(self)@.wf(),
        ensures
            final(self)@.wf(),
            insert_step(old(self)@, final(self)@),
    {
        while self.lobby.len() > 0
            invariant
                self@.wf(),
                self@ =~= (PeerView {
                    sessions: self@.sessions,
                    lobby: self@.lobby,
                    ..old(self)@
                }),
                with_all(self@.sessions, self@.lobby) == with_all(
                    old(self)@.sessions,
                    old(self)@.lobby,
                ),
            decreases self.lobby@.len(),
        {
            let ghost before = self@;
            let session = self.lobby.remove(0);
            proof {
                assert(self@.lobby =~= before.lobby.skip(1));
                assert(self@.sessions =~= before.sessions);
                assert(session@ == before.lobby[0]);
                assert forall|i: int| 0 <= i < self@.lobby.len() implies (
                #[trigger] self@.lobby[i]).wf() by {
                    assert(self@.lobby[i] == before.lobby[i + 1]);
                }
            }
            self.insert_session(session);
        }
        assert(self@ =~= (PeerView {
            sessions: with_all(old(self)@.sessions, old(self)@.lobby),
            lobby: Seq::empty(),
            ..old(self)@
        }));
    }

    /// Route a SYN: open a session, or settle a simultaneous handshake.
    fn handle_syn(&mut self, conv: u32, from: SocketAddr, now: u64, now_ms: u32) -> (actions: Vec<
        Action,
    >)
        requires
            old(self)@.wf(),
        ensures
            final(self)@.wf(),
            syn_step(
                old(self)@,
                conv,
                from,
                now,
                now_ms,
                final(self)@,
                action_views(actions@),
            ),
    {
        let mut actions: Vec<Action> = Vec::new();
        match self.find(canonicalize(from)) {
            Some(i) => {
                let old_conv: u32 = self.sessions[i].inner.conv_id;
                match self.sessions[i].inner.state {
                    SessionState::Established if old_conv == conv => {
                        // The SYN_ACK may have been lost: acknowledge again.
                        self.sessions[i].last_rx = now;
                        actions.push(ack(from, conv));
                        proof {
                            let session = self.sessions@[i as int]@;
                            lemma_session_changed(old(self)@, i as int, session);
                            assert(self@ =~= (PeerView {
                                sessions: old(self)@.sessions.update(i as int, session),
                                ..old(self)@
                            }));
                            assert(action_views(actions@) =~= seq![syn_ack(from, conv)]);
                        }
                    },
                    _ if old_conv == conv => {
                        assert(action_views(actions@) =~= Seq::empty());
                    },
                    SessionState::SynSent { .. } => {
                        // Simultaneous handshake: tie-break by address.
                        let ack_conv: u32 = if is_after(from, self.local_addr) {
                            self.sessions[i].adopt_conv(conv);
                            assert(adopted(
                                old(self)@.sessions[i as int],
                                conv,
                                self.sessions@[i as int]@,
                            ));
                            conv
                        } else {
                            old_conv
                        };
                        let ghost settled = self.sessions@[i as int]@;
                        self.sessions[i].establish(now, now_ms);
                        actions.push(Action::Emit(Event::Connected(from)));
                        actions.push(ack(from, ack_conv));
                        proof {
                            let session = self.sessions@[i as int]@;
                            assert(completed(settled, now, now_ms, session));
                            lemma_session_changed(old(self)@, i as int, session);
                            assert(self@ =~= (PeerView {
                                sessions: old(self)@.sessions.update(i as int, session),
                                ..old(self)@
                            }));
                            assert(action_views(actions@) =~= seq![
                                ActionView::Emit(Event::Connected(from)),
                                syn_ack(from, ack_conv),
                            ]);
                        }
                    },
                    _ => {
                        // The peer restarted: its old session is to be replaced.
                        self.sessions[i].mark_closed();
                        proof {
                            let session = self.sessions@[i as int]@;
                            lemma_session_changed(old(self)@, i as int, session);
                            assert(self@ =~= (PeerView {
                                sessions: old(self)@.sessions.update(i as int, session),
                                ..old(self)@
                            }));
                        }
                        actions.push(Action::Emit(Event::PeerRestarted(from)));
                        let answer = self.accept(conv, from, now);
                        actions.push(Action::Send(answer));
                        actions.push(Action::Emit(Event::Connected(from)));
                        actions.push(Action::Insert);
                        assert(action_views(actions@) =~= seq![
                            ActionView::Emit(Event::PeerRestarted(from)),
                            syn_ack(from, conv),
                            ActionView::Emit(Event::Connected(from)),
                            ActionView::Insert,
                        ]);
                    },
                }
            },
            None => {
                let answer = self.accept(conv, from, now);
                actions.push(Action::Send(answer));
                actions.push(Action::Emit(Event::Connected(from)));
                actions.push(Action::Insert);
                assert(action_views(actions@) =~= seq![
                    syn_ack(from, conv),
                    ActionView::Emit(Event::Connected(from)),
                    ActionView::Insert,
                ]);
            },
        }
        actions
    }

    /// Route a SYN_ACK: complete the handshake that it answers.
    fn handle_syn_ack(&mut self, conv: u32, from: SocketAddr, now: u64, now_ms: u32) -> (actions:
        Vec<Action>)
        requires
            old(self)@.wf(),
        ensures
            final(self)@.wf(),
            syn_ack_step(
                old(self)@,
                conv,
                from,
                now,
                now_ms,
                final(self)@,
                action_views(actions@),
            ),
    {
        let mut actions: Vec<Action> = Vec::new();
        assert(action_views(actions@) =~= Seq::empty());
        if let Some(i) = self.find(canonicalize(from)) {
            if let SessionState::SynSent { .. } = self.sessions[i].inner.state {
                if self.sessions[i].inner.conv_id == conv {
                    self.sessions[i].establish(now, now_ms);
                    actions.push(Action::Emit(Event::Connected(from)));
                    proof {
                        let session = self.sessions@[i as int]@;
                        lemma_session_changed(old(self)@, i as int, session);
                        assert(self@ =~= (PeerView {
                            sessions: old(self)@.sessions.update(i as int, session),
                            ..old(self)@
                        }));
                        assert(action_views(actions@) =~= seq![
                            ActionView::Emit(Event::Connected(from)),
                        ]);
                    }
                }
            }
        }
        actions
    }

    /// Route a RESET: end the session of its conversation.
    fn handle_reset(&mut self, conv: u32, from: SocketAddr) -> (actions: Vec<Action>)
        requires
            old(self)@.wf(),
        ensures
            final(self)@.wf(),
            reset_step(old(self)@, conv, from, final(self)@, action_views(actions@)),
    {
        let mut actions: Vec<Action> = Vec::new();
        assert(action_views(actions@) =~= Seq::empty());
        if let Some(i) = self.find(canonicalize(from)) {
            if self.sessions[i].inner.conv_id == conv {
                let _ = self.remove_session(i);
                actions.push(Action::Emit(Event::Disconnected(from)));
                assert(action_views(actions@) =~= seq![
                    ActionView::Emit(Event::Disconnected(from)),
                ]);
            }
        }
        actions
    }

    /// Route an incoming datagram to the right session or control handler, at a given instant:
    /// milliseconds since the Unix epoch, and the reading of the KCP clock.
    pub fn handle_incoming_at(
        &mut self,
        data: &[u8],
        from: SocketAddr,
        now: u64,
        now_ms: u32,
    ) -> (outcome: Result<Vec<Action>>)
        requires
            old(self)@.wf(),
        ensures
            final(self)@.wf(),
            incoming(
                old(self)@,
                data@,
                from,
                now,
                now_ms,
                final(self)@,
                outcome_view(outcome),
            ),
    {
        let (typ, payload) = match split_packet(data) {
            Some(parts) => parts,
            None => {
                return Err(Error::Io(IoError::EmptyPacket));
            },
        };
        match typ {
            PacketType::KcpData => self.handle_data(payload, from, now),
            PacketType::Syn => {
                if payload.len() < 4 {
                    return Err(Error::Io(IoError::TruncatedSyn));
                }
                Ok(self.handle_syn(read_conv(payload), from, now, now_ms))
            },
            PacketType::SynAck => {
                if payload.len() < 4 {
                    return Err(Error::Io(IoError::TruncatedSynAck));
                }
                Ok(self.handle_syn_ack(read_conv(payload), from, now, now_ms))
            },
            PacketType::Reset => {
                if payload.len() < 4 {
                    return Err(Error::Io(IoError::TruncatedReset));
                }
                Ok(self.handle_reset(read_conv(payload), from))
            },
        }
    }

    /// Route an incoming datagram to the right session or control handler.
    pub fn handle_incoming(&mut self, data: &[u8], from: SocketAddr) -> (outcome: Result<
        Vec<Action>,
    >)
        requires
            old(self)@.wf(),
        ensures
            final(self)@.wf(),
            exists|now: u64|
                clock_reading(now) && incoming(
                    old(self)@,
                    data@,
                    from,
                    now,
                    #[trigger] low_millis(now),
                    final(self)@,
                    outcome_view(outcome),
                ),
    {
        let now: u64 = epoch_ms();
        self.handle_incoming_at(data, from, now, kcp_clock(now))
    }

    /// Look at the timers of every session: the first half of a tick. Hands out which sessions
    /// ended, and what the output answered.
    fn tick_sessions(&mut self, actions: &mut Vec<Action>, now: u64, now_ms: u32) -> (looked: (
        Vec<bool>,
        Ghost<Seq<Seq<std::io::Result<usize>>>>,
    ))
        requires
            old(self)@.wf(),
        ensures
            final(self)@.wf(),
            looked.1@.len() == old(self)@.sessions.len(),
            ({
                let ticks = all_ticked(
                    old(self)@.sessions,
                    old(self)@.config,
                    now,
                    now_ms,
                    looked.1@,
                );
                &&& final(self)@ == (PeerView {
                    sessions: ticks.map_values(|tick: Ticked| tick.session),
                    ..old(self)@
                })
                &&& action_views(final(actions)@) == action_views(old(actions)@) + repeated_syns(
                    ticks,
                )
                &&& looked.0@ == ticks.map_values(|tick: Ticked| tick.expired)
                &&& forall|i: int|
                    0 <= i < old(self)@.sessions.len() ==> transmitted(
                        (#[trigger] old(self)@.sessions[i]).engine(),
                        ticks[i].session.engine(),
                    )
            }),
    {
        let ghost before = self@;
        let ghost mut answers: Seq<Seq<std::io::Result<usize>>> = Seq::empty();
        let ghost mut ticks: Seq<Ticked> = Seq::empty();
        let mut expired: Vec<bool> = Vec::new();
        let mut i: usize = 0;
        while i < self.sessions.len()
            invariant
                self@.wf(),
                before == old(self)@,
                i <= self.sessions@.len(),
                self.sessions@.len() == before.sessions.len(),
                self@ =~= (PeerView { sessions: self@.sessions, ..before }),
                answers.len() == i,
                ticks.len() == i,
                forall|j: int|
                    0 <= j < i ==> ticks[j] == #[trigger] ticked(
                        before.sessions[j],
                        before.config,
                        now,
                        now_ms,
                        answers[j],
                    ),
                forall|j: int| 0 <= j < i ==> self@.sessions[j] == (#[trigger] ticks[j]).session,
                forall|j: int|
                    0 <= j < i ==> transmitted(
                        (#[trigger] before.sessions[j]).engine(),
                        ticks[j].session.engine(),
                    ),
                forall|j: int|
                    i <= j < before.sessions.len() ==> self@.sessions[j] == before.sessions[j],
                expired@ =~= ticks.map_values(|tick: Ticked| tick.expired),
                action_views(actions@) =~= action_views(old(actions)@) + repeated_syns(ticks),
            decreases self.sessions@.len() - i,
        {
            let ghost at = self@;
            assert(self@.sessions[i as int] == before.sessions[i as int]);
            let config = self.config;
            let looked = tick_session(&mut self.sessions[i], &config, now, now_ms);
            proof {
                let session = self.sessions@[i as int]@;
                lemma_session_changed(at, i as int, session);
                assert(self@ =~= (PeerView {
                    sessions: at.sessions.update(i as int, session),
                    ..at
                }));
                let given = choose|given: Seq<std::io::Result<usize>>|
                    looked_at(
                        #[trigger] ticked(
                            before.sessions[i as int],
                            before.config,
                            now,
                            now_ms,
                            given,
                        ),
                        session,
                        looked,
                    );
                let tick = ticked(before.sessions[i as int], before.config, now, now_ms, given);
                assert(ticks.push(tick).drop_last() =~= ticks);
                answers = answers.push(given);
                ticks = ticks.push(tick);
            }
            let (syn, ended) = looked;
            expired.push(ended);
            if let Some(syn) = syn {
                proof {
                    lemma_action_pushed(actions@, Action::Send(syn));
                }
                actions.push(Action::Send(syn));
            }
            i += 1;
        }
        assert(ticks =~= all_ticked(before.sessions, before.config, now, now_ms, answers)) by {
            assert forall|j: int| 0 <= j < ticks.len() implies ticks[j] == #[trigger] all_ticked(
                before.sessions,
                before.config,
                now,
                now_ms,
                answers,
            )[j] by {
                assert(ticks[j] == ticked(
                    before.sessions[j],
                    before.config,
                    now,
                    now_ms,
                    answers[j],
                ));
            }
        }
        (expired, Ghost(answers))
    }

    /// Take out the sessions that ended: the second half of a tick.
    fn remove_expired(
        &mut self,
        actions: &mut Vec<Action>,
        expired: &Vec<bool>,
        Ghost(ticks): Ghost<Seq<Ticked>>,
    )
        requires
            old(self)@.wf(),
            old(self)@.sessions == ticks.map_values(|tick: Ticked| tick.session),
            expired@ == ticks.map_values(|tick: Ticked| tick.expired),
        ensures
            final(self)@.wf(),
            final(self)@ == (PeerView { sessions: survivors(ticks), ..old(self)@ }),
            action_views(final(actions)@) == action_views(old(actions)@) + farewells(ticks),
    {
        let mut k: usize = 0;
        let mut kept: usize = 0;
        while k < expired.len()
            invariant
                self@.wf(),
                kept <= k <= expired@.len(),
                expired@ == ticks.map_values(|tick: Ticked| tick.expired),
                kept == survivors(ticks.take(k as int)).len(),
                self@ =~= (PeerView {
                    sessions: survivors(ticks.take(k as int)) + ticks.skip(k as int).map_values(
                        |tick: Ticked| tick.session,
                    ),
                    ..old(self)@
                }),
                action_views(actions@) =~= action_views(old(actions)@) + farewells(
                    ticks.take(k as int),
                ),
            decreases expired@.len() - k,
        {
            proof {
                assert(ticks.take(k + 1).drop_last() =~= ticks.take(k as int));
                assert(ticks.take(k + 1).last() == ticks[k as int]);
                assert(self@.sessions[kept as int] == ticks[k as int].session);
            }
            if expired[k] {
                let session = self.remove_session(kept);
                push_resets(actions, session.peer_addr, session.inner.conv_id);
                let event = Event::Disconnected(session.peer_addr);
                proof {
                    lemma_action_pushed(actions@, Action::Emit(event));
                }
                actions.push(Action::Emit(event));
            } else {
                kept += 1;
            }
            k += 1;
        }
        proof {
            assert(ticks.take(k as int) =~= ticks);
            assert(self@.sessions =~= survivors(ticks));
        }
    }

    /// One tick of the update timer, at a given instant: drive KCP, repeat SYNs, and prune the
    /// sessions whose link is dead or that were idle for too long.
    pub fn update_sessions_at(&mut self, now: u64, now_ms: u32) -> (actions: Vec<Action>)
        requires
            old(self)@.wf(),
        ensures
            final(self)@.wf(),
            tick_step(old(self)@, now, now_ms, final(self)@, action_views(actions@)),
    {
        let mut actions: Vec<Action> = Vec::new();
        let (expired, Ghost(answers)) = self.tick_sessions(&mut actions, now, now_ms);
        let ghost ticks = all_ticked(
            old(self)@.sessions,
            old(self)@.config,
            now,
            now_ms,
            answers,
        );
        self.remove_expired(&mut actions, &expired, Ghost(ticks));
        proof {
            assert(action_views(actions@) =~= repeated_syns(ticks) + farewells(ticks));
            assert(tick_with(old(self)@, now, now_ms, answers, self@, action_views(actions@)));
        }
        actions
    }

    /// One tick of the update timer.
    pub fn update_sessions(&mut self) -> (actions: Vec<Action>)
        requires
            old(self)@.wf(),
        ensures
            final(self)@.wf(),
            exists|now: u64|
                clock_reading(now) && tick_step(
                    old(self)@,
                    now,
                    #[trigger] low_millis(now),
                    final(self)@,
                    action_views(actions@),
                ),
    {
        let now: u64 = epoch_ms();
        self.update_sessions_at(now, kcp_clock(now))
    }

    /// A transport on a bound socket, with the given incarnation number.
    pub fn with_incarnation(
        local_addr: SocketAddr,
        config: KcpConfig,
        outlet: Outlet,
        incarnation: u64,
    ) -> (peer: KcpPeer)
        ensures
            peer@.wf(),
            fresh_peer(peer@, local_addr, config, outlet, incarnation),
    {
        let peer = KcpPeer {
            sessions: Vec::new(),
            lobby: Vec::new(),
            pending_data: VecDeque::new(),
            incarnation,
            shutting_down: false,
            config,
            local_addr,
            outlet,
        };
        assert(peer@ =~= (PeerView {
            sessions: Seq::empty(),
            lobby: Seq::empty(),
            pending: Seq::empty(),
            ..peer@
        }));
        peer
    }

    /// A transport on a bound socket, with the given [`KcpConfig`].
    ///
    /// Each bind generates a random incarnation number.
    pub fn bind_with(local_addr: SocketAddr, config: KcpConfig, outlet: Outlet) -> (peer:
        KcpPeer)
        ensures
            peer@.wf(),
            fresh_peer(peer@, local_addr, config, outlet, peer@.incarnation),
            drawn_incarnation(peer@.incarnation),
    {
        KcpPeer::with_incarnation(local_addr, config, outlet, random_incarnation())
    }

    /// A transport on a bound socket, with the default [`KcpConfig`].
    pub fn bind(local_addr: SocketAddr, outlet: Outlet) -> (peer: KcpPeer)
        ensures
            peer@.wf(),
            is_default(peer@.config),
            fresh_peer(peer@, local_addr, peer@.config, outlet, peer@.incarnation),
            drawn_incarnation(peer@.incarnation),
    {
        KcpPeer::bind_with(local_addr, KcpConfig::default(), outlet)
    }

    /// How many sessions there are, closed ones included.
    pub fn session_count(&self) -> (count: usize)
        ensures
            count == self@.sessions.len(),
    {
        self.sessions.len()
    }

    /// Get the bound local address.
    pub fn local_addr(&self) -> (addr: SocketAddr)
        ensures
            addr == self@.local_addr,
    {
        self.local_addr
    }

    /// Open a session to a peer that has none, with the given conversation id, at a given
    /// instant.
    pub fn initiate_session_with(&mut self, peer: SocketAddr, conv: u32, now: u64) -> (actions:
        Vec<Action>)
        requires
            old(self)@.wf(),
        ensures
            final(self)@.wf(),
            has_session(final(self)@.sessions, spec_canonicalize(peer)),
            initiate_step(old(self)@, peer, conv, now, final(self)@, action_views(actions@)),
    {
        let mut actions: Vec<Action> = Vec::new();
        if self.find(canonicalize(peer)).is_some() {
            assert(action_views(actions@) =~= Seq::empty());
            return actions;
        }
        let session = Session::new_outbound(
            conv,
            peer,
            self.outlet.handle(),
            self.incarnation,
            &self.config,
            now,
        );
        let syn = session.send_syn();
        self.insert_session(session);
        proof {
            let last = self@.sessions.len() - 1;
            assert(keeps(self@.sessions, spec_canonicalize(peer), last));
        }
        actions.push(Action::Send(syn));
        assert(action_views(actions@) =~= seq![ActionView::Send(syn@)]);
        actions
    }

    /// Open a session to a peer that has none, with a random conversation id.
    pub fn initiate_session(&mut self, peer: SocketAddr) -> (actions: Vec<Action>)
        requires
            old(self)@.wf(),
        ensures
            final(self)@.wf(),
            has_session(final(self)@.sessions, spec_canonicalize(peer)),
            exists|conv: u32, now: u64|
                conv >= 1 && #[trigger] initiate_step(
                    old(self)@,
                    peer,
                    conv,
                    now,
                    final(self)@,
                    action_views(actions@),
                ),
            !has_session(old(self)@.sessions, spec_canonicalize(peer)) ==> exists|
                conv: u32,
                now: u64,
            |
                conv >= 1 && drawn_conv(conv) && clock_reading(now) && #[trigger] initiate_step(
                    old(self)@,
                    peer,
                    conv,
                    now,
                    final(self)@,
                    action_views(actions@),
                ),
    {
        if self.find(canonicalize(peer)).is_some() {
            let actions: Vec<Action> = Vec::new();
            proof {
                assert(action_views(actions@) =~= Seq::empty());
                assert(initiate_step(self@, peer, 1, 0, self@, action_views(actions@)));
            }
            return actions;
        }
        let conv: u32 = random_conv();
        let now: u64 = epoch_ms();
        self.initiate_session_with(peer, conv, now)
    }

    /// Queue data on the session of a peer.
    fn queue_data(&mut self, peer: SocketAddr, data: &[u8]) -> (sent: Result<()>)
        requires
            old(self)@.wf(),
            has_session(old(self)@.sessions, spec_canonicalize(peer)),
        ensures
            final(self)@.wf(),
            queue_step(old(self)@, peer, data@, final(self)@, sent),
    {
        match self.find(canonicalize(peer)) {
            Some(i) => {
                let session = &self.sessions[i];
                if !session.closed && kcp_is_dead_link(&session.inner.kcp) {
                    return Err(Error::DeadLink);
                }
                let sent = self.sessions[i].send_data(data);
                proof {
                    let session = self.sessions@[i as int]@;
                    lemma_session_changed(old(self)@, i as int, session);
                    assert(self@ =~= (PeerView {
                        sessions: old(self)@.sessions.update(i as int, session),
                        ..old(self)@
                    }));
                    if sent is Err {
                        assert(self@ =~= old(self)@);
                    }
                }
                sent
            },
            None => Err(Error::SessionNotFound(peer)),
        }
    }

    /// Send data to a peer. Where the peer has no session, one with the given conversation id
    /// is opened, at a given instant.
    pub fn send_with(&mut self, peer: SocketAddr, data: &[u8], conv: u32, now: u64) -> (sent: (
        Result<()>,
        Vec<Action>,
    ))
        requires
            old(self)@.wf(),
        ensures
            final(self)@.wf(),
            send_step(
                old(self)@,
                peer,
                data@,
                conv,
                now,
                final(self)@,
                sent.0,
                action_views(sent.1@),
            ),
    {
        let actions = self.initiate_session_with(peer, conv, now);
        let sent = self.queue_data(peer, data);
        (sent, actions)
    }

    /// Send data to a peer.
    ///
    /// Auto-initiates a handshake (SYN) if no session exists for this peer. Data is queued into
    /// KCP immediately and flushed once the session is established. It is dropped silently if
    /// the handshake fails.
    ///
    /// Returns [`DeadLink`](Error::DeadLink) if the session's KCP retransmission limit is
    /// exhausted, and [`SessionClosed`](Error::SessionClosed) if the session was closed.
    pub fn send(&mut self, peer: SocketAddr, data: &[u8]) -> (sent: (Result<()>, Vec<Action>))
        requires
            old(self)@.wf(),
        ensures
            final(self)@.wf(),
            exists|conv: u32, now: u64|
                conv >= 1 && #[trigger] send_step(
                    old(self)@,
                    peer,
                    data@,
                    conv,
                    now,
                    final(self)@,
                    sent.0,
                    action_views(sent.1@),
                ),
            !has_session(old(self)@.sessions, spec_canonicalize(peer)) ==> exists|
                conv: u32,
                now: u64,
            |
                conv >= 1 && drawn_conv(conv) && clock_reading(now) && #[trigger] send_step(
                    old(self)@,
                    peer,
                    data@,
                    conv,
                    now,
                    final(self)@,
                    sent.0,
                    action_views(sent.1@),
                ),
    {
        let actions = self.initiate_session(peer);
        let ghost opened = self@;
        let queued = self.queue_data(peer, data);
        let sent = (queued, actions);
        proof {
            let found = has_session(old(self)@.sessions, spec_canonicalize(peer));
            let (conv, now) = choose|conv: u32, now: u64|
                conv >= 1 && (found || drawn_conv(conv) && clock_reading(now))
                    && #[trigger] initiate_step(
                    old(self)@,
                    peer,
                    conv,
                    now,
                    opened,
                    action_views(actions@),
                );
            assert(initiate_step(old(self)@, peer, conv, now, opened, action_views(sent.1@)));
            assert(send_step(
                old(self)@,
                peer,
                data@,
                conv,
                now,
                self@,
                sent.0,
                action_views(sent.1@),
            ));
        }
        sent
    }

    /// Take the next data message from any peer, if one waits.
    ///
    /// Returns [`ShuttingDown`](Error::ShuttingDown) after [`shutdown`](KcpPeer::shutdown).
    pub fn recv(&mut self) -> (message: Result<Option<DataMessage>>)
        ensures
            recv_step(
                old(self)@,
                final(self)@,
                match message {
                    Ok(Some(found)) => Ok(Some(found@)),
                    Ok(None) => Ok(None),
                    Err(err) => Err(err),
                },
            ),
    {
        if self.shutting_down {
            return Err(Error::ShuttingDown);
        }
        let message = self.pending_data.pop_front();
        proof {
            if old(self)@.pending.len() > 0 {
                assert(self@ =~= (PeerView {
                    pending: old(self)@.pending.skip(1),
                    ..old(self)@
                }));
            } else {
                assert(self@ =~= old(self)@);
            }
        }
        Ok(message)
    }

    /// List all connected peers (filters out closed sessions).
    pub fn peers(&self) -> (peers: Vec<SocketAddr>)
        ensures
            peers@ == open_peers(self@.sessions),
    {
        let mut peers: Vec<SocketAddr> = Vec::new();
        let mut i: usize = 0;
        while i < self.sessions.len()
            invariant
                i <= self.sessions@.len(),
                peers@ == open_peers(self@.sessions.take(i as int)),
            decreases self.sessions@.len() - i,
        {
            proof {
                assert(self@.sessions.take(i + 1).drop_last() =~= self@.sessions.take(i as int));
            }
            if !self.sessions[i].closed {
                peers.push(self.sessions[i].peer_addr);
            }
            i += 1;
        }
        assert(self@.sessions.take(i as int) =~= self@.sessions);
        peers
    }

    /// KCP statistics for a specific peer session, at a given instant.
    pub fn stats_at(&self, peer: SocketAddr, now: u64) -> (stats: Option<PeerStats>)
        requires
            self@.wf(),
        ensures
            stats_step(self@, peer, now, stats),
    {
        match self.find(canonicalize(peer)) {
            Some(i) => {
                let session = &self.sessions[i];
                if session.closed {
                    return None;
                }
                let kcp = &session.inner.kcp;
                Some(
                    PeerStats {
                        conv_id: session.inner.conv_id,
                        send_wnd: kcp_snd_wnd(kcp) as u32,
                        recv_wnd: kcp_rcv_wnd(kcp) as u32,
                        rmt_wnd: kcp_rmt_wnd(kcp) as u32,
                        wait_snd: kcp_wait_snd(kcp),
                        dead_link: kcp_is_dead_link(kcp),
                        elapsed: Duration::from_millis(now.saturating_sub(session.last_rx)),
                    },
                )
            },
            None => None,
        }
    }

    /// KCP statistics for a specific peer session.
    ///
    /// Returns `None` if the peer has no active session.
    pub fn stats(&self, peer: SocketAddr) -> (stats: Option<PeerStats>)
        requires
            self@.wf(),
        ensures
            exists|now: u64| clock_reading(now) && #[trigger] stats_step(self@, peer, now, stats),
    {
        let now: u64 = epoch_ms();
        self.stats_at(peer, now)
    }

    /// Force close a session with a peer.
    ///
    /// Removes the local session, sends a `RESET` packet (3 copies for reliability) to the
    /// remote peer, and fires [`Event::Disconnected`].
    pub fn disconnect(&mut self, peer: SocketAddr) -> (actions: Vec<Action>)
        requires
            old(self)@.wf(),
        ensures
            final(self)@.wf(),
            disconnect_step(old(self)@, peer, final(self)@, action_views(actions@)),
    {
        let mut actions: Vec<Action> = Vec::new();
        assert(action_views(actions@) =~= Seq::empty());
        if let Some(i) = self.find(canonicalize(peer)) {
            let session = self.remove_session(i);
            push_resets(&mut actions, peer, session.inner.conv_id);
            proof {
                lemma_action_pushed(actions@, Action::Emit(Event::Disconnected(peer)));
                assert(action_views(actions@) =~= resets(peer, session@.conv_id));
            }
            actions.push(Action::Emit(Event::Disconnected(peer)));
        }
        actions
    }

    /// Gracefully shut down: close every session, and send RESET (3 copies for reliability) to
    /// its peer.
    pub fn shutdown(&mut self) -> (actions: Vec<Action>)
        requires
            old(self)@.wf(),
        ensures
            final(self)@.wf(),
            shutdown_step(old(self)@, final(self)@, action_views(actions@)),
    {
        self.shutting_down = true;
        let ghost before = self@;
        assert(before =~= (PeerView { shutting_down: true, ..old(self)@ }));
        let mut actions: Vec<Action> = Vec::new();
        let mut i: usize = 0;
        while i < self.sessions.len()
            invariant
                self@.wf(),
                i <= self.sessions@.len(),
                self.sessions@.len() == before.sessions.len(),
                self@ =~= (PeerView { sessions: self@.sessions, ..before }),
                forall|j: int|
                    0 <= j < i ==> self@.sessions[j] == (SessionView {
                        closed: true,
                        ..before.sessions[j]
                    }),
                forall|j: int|
                    i <= j < before.sessions.len() ==> self@.sessions[j] == before.sessions[j],
                action_views(actions@) =~= all_resets(before.sessions.take(i as int)),
            decreases self.sessions@.len() - i,
        {
            let ghost at = self@;
            assert(self@.sessions[i as int] == before.sessions[i as int]);
            self.sessions[i].mark_closed();
            proof {
                let session = self.sessions@[i as int]@;
                lemma_session_changed(at, i as int, session);
                assert(self@ =~= (PeerView {
                    sessions: at.sessions.update(i as int, session),
                    ..at
                }));
                assert(before.sessions.take(i + 1).drop_last() =~= before.sessions.take(i as int));
            }
            let peer = self.sessions[i].peer_addr;
            let conv: u32 = self.sessions[i].inner.conv_id;
            push_resets(&mut actions, peer, conv);
            i += 1;
        }
        proof {
            assert(before.sessions.take(i as int) =~= before.sessions);
            assert(self@.sessions =~= before.sessions.map_values(
                |session: SessionView| SessionView { closed: true, ..session },
            ));
        }
        actions
    }
}

} // verus!
