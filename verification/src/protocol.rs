//! The protocol: what packets, ticks and calls do to the transport, as plain values.

use crate::addr::{addr_after, spec_canonicalize, CanonicalAddr, SocketAddr};
use crate::buffer::bytes_view;
use crate::config::KcpConfig;
use crate::engine::{fed, kcp_fed, transmitted, DatagramView, KcpState, Outlet};
use crate::error::{Error, IoError, Result};
use crate::packet::{control_packet, conv_of, parse_packet, PacketType};
use crate::session::{
    data_sent, drained_messages, drained_state, driven, establishes, fresh_session, retried,
    retry_result, send_result, update_result, Session, SessionState, SessionView,
};
use crate::time::{duration_nanos, NANOS_PER_MILLI};
use crate::transport::{Action, DataMessage, Event, PeerStats};
use std::time::Duration;
use vstd::prelude::*;

verus! {

/// A data message as plain values.
pub struct MessageView {
    pub peer: SocketAddr,
    pub data: Seq<u8>,
}

impl View for DataMessage {
    type V = MessageView;

    open spec fn view(&self) -> MessageView {
        MessageView { peer: self.peer, data: bytes_view(self.data) }
    }
}

/// An action as plain values.
pub enum ActionView {
    Send(DatagramView),
    Emit(Event),
    DataReady,
    Insert,
}

impl View for Action {
    type V = ActionView;

    open spec fn view(&self) -> ActionView {
        match *self {
            Action::Send(datagram) => ActionView::Send(datagram@),
            Action::Emit(event) => ActionView::Emit(event),
            Action::DataReady => ActionView::DataReady,
            Action::Insert => ActionView::Insert,
        }
    }
}

/// The transport as plain values and session views.
#[verifier::ext_equal]
pub struct PeerView {
    pub sessions: Seq<SessionView>,
    /// Sessions that were accepted and reported, and wait to be put in.
    pub lobby: Seq<SessionView>,
    pub pending: Seq<MessageView>,
    pub incarnation: u64,
    pub shutting_down: bool,
    pub config: KcpConfig,
    pub local_addr: SocketAddr,
    pub outlet: Outlet,
}

/// Sessions as their views.
pub open spec fn session_views(sessions: Seq<Session>) -> Seq<SessionView> {
    sessions.map_values(|session: Session| session@)
}

/// Actions as plain values.
pub open spec fn action_views(actions: Seq<Action>) -> Seq<ActionView> {
    actions.map_values(|action: Action| action@)
}

/// The address under which a session is kept.
pub open spec fn session_key(session: SessionView) -> CanonicalAddr {
    spec_canonicalize(session.peer_addr)
}

/// Whether index `i` holds the session of a peer.
pub open spec fn keeps(sessions: Seq<SessionView>, can: CanonicalAddr, i: int) -> bool {
    0 <= i < sessions.len() && session_key(sessions[i]) == can
}

/// Whether a peer has a session.
pub open spec fn has_session(sessions: Seq<SessionView>, can: CanonicalAddr) -> bool {
    exists|i: int| keeps(sessions, can, i)
}

/// Where the session of a peer is.
pub open spec fn session_index(sessions: Seq<SessionView>, can: CanonicalAddr) -> int {
    choose|i: int| keeps(sessions, can, i)
}

/// The session of a peer.
pub open spec fn session_of(sessions: Seq<SessionView>, can: CanonicalAddr) -> Option<SessionView> {
    if has_session(sessions, can) {
        Some(sessions[session_index(sessions, can)])
    } else {
        None
    }
}

/// The sessions with that of a peer put in: in place of the peer's old one, if there is one.
pub open spec fn with_session(sessions: Seq<SessionView>, session: SessionView) -> Seq<
    SessionView,
> {
    if has_session(sessions, session_key(session)) {
        sessions.update(session_index(sessions, session_key(session)), session)
    } else {
        sessions.push(session)
    }
}

/// The sessions without that of a peer.
pub open spec fn without_session(sessions: Seq<SessionView>, can: CanonicalAddr) -> Seq<
    SessionView,
> {
    if has_session(sessions, can) {
        sessions.remove(session_index(sessions, can))
    } else {
        sessions
    }
}

/// No peer has two sessions.
pub open spec fn distinct_peers(sessions: Seq<SessionView>) -> bool {
    forall|i: int, j: int|
        0 <= i < j < sessions.len() ==> session_key(#[trigger] sessions[i]) != session_key(
            #[trigger] sessions[j],
        )
}

impl PeerView {
    /// What holds of every transport: its sessions are sound, those that wait to
    /// be put in as well, and no peer has two.
    pub open spec fn wf(self) -> bool {
        &&& distinct_peers(self.sessions)
        &&& forall|i: int| 0 <= i < self.sessions.len() ==> (#[trigger] self.sessions[i]).wf()
        &&& forall|i: int| 0 <= i < self.lobby.len() ==> (#[trigger] self.lobby[i]).wf()
    }
}

/// A RESET packet, three times for reliability.
pub open spec fn resets(to: SocketAddr, conv: u32) -> Seq<ActionView> {
    let reset = ActionView::Send(
        DatagramView { to, packet: control_packet(PacketType::Reset, conv) },
    );
    seq![reset, reset, reset]
}

/// A SYN_ACK packet.
pub open spec fn syn_ack(to: SocketAddr, conv: u32) -> ActionView {
    ActionView::Send(DatagramView { to, packet: control_packet(PacketType::SynAck, conv) })
}

/// Messages from a peer, in order.
pub open spec fn messages_from(peer: SocketAddr, messages: Seq<Seq<u8>>) -> Seq<MessageView> {
    messages.map_values(|data: Seq<u8>| MessageView { peer, data })
}

/// What a KCP packet does. The session of the peer takes it in, and the messages that are
/// complete with it become readable. Without a session, the sender is told that there is none.
pub open spec fn data_step(
    before: PeerView,
    payload: Seq<u8>,
    from: SocketAddr,
    now: u64,
    after: PeerView,
    outcome: Result<Seq<ActionView>>,
) -> bool {
    let can = spec_canonicalize(from);
    if has_session(before.sessions, can) {
        let i = session_index(before.sessions, can);
        let (kcp, taken) = kcp_fed(before.sessions[i].kcp, payload);
        let heard = SessionView { kcp, last_rx: now, ..before.sessions[i] };
        match taken {
            Err(err) => {
                &&& fed(before.sessions[i].kcp, payload, taken, kcp)
                &&& after == (PeerView { sessions: before.sessions.update(i, heard), ..before })
                &&& outcome == Err::<Seq<ActionView>, Error>(Error::Kcp(err))
            },
            Ok(_) => {
                let messages = drained_messages(heard.engine());
                let read = after.sessions[i];
                &&& fed(before.sessions[i].kcp, payload, taken, kcp)
                &&& after == (PeerView {
                    sessions: before.sessions.update(i, read),
                    pending: before.pending + messages_from(heard.peer_addr, messages),
                    ..before
                })
                &&& read == (SessionView { kcp: read.kcp, ..heard })
                &&& read.engine() == drained_state(heard.engine())
                &&& outcome == Ok::<Seq<ActionView>, Error>(
                    if messages.len() > 0 {
                        seq![ActionView::DataReady]
                    } else {
                        Seq::empty()
                    },
                )
            },
        }
    } else {
        &&& after == before
        &&& outcome == Ok::<Seq<ActionView>, Error>(
            if payload.len() >= 4 {
                resets(from, conv_of(payload))
            } else {
                Seq::empty()
            },
        )
    }
}

/// A session that took over the conversation id of its peer.
pub open spec fn adopted(before: SessionView, conv: u32, after: SessionView) -> bool {
    &&& after == (SessionView { kcp: after.kcp, conv_id: conv, ..before })
    &&& after.engine() == (KcpState { conv, ..before.engine() })
}

/// A session that completed its handshake, whatever the output answered: it is established, and
/// what was queued on it was transmitted or is still queued, in order.
pub open spec fn completed(
    before: SessionView,
    now: u64,
    now_ms: u32,
    after: SessionView,
) -> bool {
    exists|updating: Seq<std::io::Result<usize>>, flushing: Seq<std::io::Result<usize>>|
        #[trigger] establishes(before, now, now_ms, updating, flushing, after)
}

/// A new session for a peer whose SYN came in. It waits to be put in.
pub open spec fn accepted(
    before: PeerView,
    conv: u32,
    from: SocketAddr,
    now: u64,
    after: PeerView,
) -> bool {
    exists|session: SessionView|
        {
            &&& #[trigger] fresh_session(
                session,
                conv,
                from,
                before.outlet,
                before.incarnation,
                before.config,
                SessionState::Established,
                now,
            )
            &&& after == (PeerView { lobby: before.lobby.push(session), ..before })
        }
}

/// What putting in the sessions that wait does: each takes the place of its peer's session, in
/// order.
pub open spec fn with_all(sessions: Seq<SessionView>, lobby: Seq<SessionView>) -> Seq<SessionView>
    decreases lobby.len(),
{
    if lobby.len() == 0 {
        sessions
    } else {
        with_all(with_session(sessions, lobby[0]), lobby.skip(1))
    }
}

/// What putting in all sessions that wait does.
pub open spec fn insert_step(before: PeerView, after: PeerView) -> bool {
    after == (PeerView {
        sessions: with_all(before.sessions, before.lobby),
        lobby: Seq::empty(),
        ..before
    })
}

/// What a SYN does.
///
/// A SYN of the conversation that is established is acknowledged again. In a simultaneous
/// handshake the side with the lower address takes over the other's conversation, and both
/// sides are connected. Any other SYN opens a new session; where it replaces one, the peer has
/// restarted, and its old session is closed. The connection is reported before the new session
/// is put in: that is the last of the actions.
pub open spec fn syn_step(
    before: PeerView,
    conv: u32,
    from: SocketAddr,
    now: u64,
    now_ms: u32,
    after: PeerView,
    actions: Seq<ActionView>,
) -> bool {
    let can = spec_canonicalize(from);
    if has_session(before.sessions, can) {
        let i = session_index(before.sessions, can);
        let session = before.sessions[i];
        if session.conv_id == conv {
            if session.state == SessionState::Established {
                &&& after == (PeerView {
                    sessions: before.sessions.update(
                        i,
                        SessionView { last_rx: now, ..session },
                    ),
                    ..before
                })
                &&& actions == seq![syn_ack(from, conv)]
            } else {
                after == before && actions == Seq::<ActionView>::empty()
            }
        } else if session.state is SynSent {
            if addr_after(from, before.local_addr) {
                &&& exists|yielded: SessionView|
                    {
                        &&& #[trigger] adopted(session, conv, yielded)
                        &&& completed(yielded, now, now_ms, after.sessions[i])
                    }
                &&& after == (PeerView {
                    sessions: before.sessions.update(i, after.sessions[i]),
                    ..before
                })
                &&& actions == seq![ActionView::Emit(Event::Connected(from)), syn_ack(from, conv)]
            } else {
                &&& completed(session, now, now_ms, after.sessions[i])
                &&& after == (PeerView {
                    sessions: before.sessions.update(i, after.sessions[i]),
                    ..before
                })
                &&& actions == seq![
                    ActionView::Emit(Event::Connected(from)),
                    syn_ack(from, session.conv_id),
                ]
            }
        } else {
            let closed = SessionView { closed: true, ..session };
            &&& accepted(
                PeerView { sessions: before.sessions.update(i, closed), ..before },
                conv,
                from,
                now,
                after,
            )
            &&& actions == seq![
                ActionView::Emit(Event::PeerRestarted(from)),
                syn_ack(from, conv),
                ActionView::Emit(Event::Connected(from)),
                ActionView::Insert,
            ]
        }
    } else {
        &&& accepted(before, conv, from, now, after)
        &&& actions == seq![
            syn_ack(from, conv),
            ActionView::Emit(Event::Connected(from)),
            ActionView::Insert,
        ]
    }
}

/// What a SYN_ACK does: it completes the handshake of its conversation.
pub open spec fn syn_ack_step(
    before: PeerView,
    conv: u32,
    from: SocketAddr,
    now: u64,
    now_ms: u32,
    after: PeerView,
    actions: Seq<ActionView>,
) -> bool {
    let can = spec_canonicalize(from);
    let i = session_index(before.sessions, can);
    if has_session(before.sessions, can) && before.sessions[i].state is SynSent
        && before.sessions[i].conv_id == conv {
        &&& completed(before.sessions[i], now, now_ms, after.sessions[i])
        &&& after == (PeerView {
            sessions: before.sessions.update(i, after.sessions[i]),
            ..before
        })
        &&& actions == seq![ActionView::Emit(Event::Connected(from))]
    } else {
        after == before && actions == Seq::<ActionView>::empty()
    }
}

/// What a RESET does: it ends the session of its conversation.
pub open spec fn reset_step(
    before: PeerView,
    conv: u32,
    from: SocketAddr,
    after: PeerView,
    actions: Seq<ActionView>,
) -> bool {
    let can = spec_canonicalize(from);
    if session_of(before.sessions, can) matches Some(session) && session.conv_id == conv {
        &&& after == (PeerView { sessions: without_session(before.sessions, can), ..before })
        &&& actions == seq![ActionView::Emit(Event::Disconnected(from))]
    } else {
        after == before && actions == Seq::<ActionView>::empty()
    }
}

/// What a control packet too short for its conversation id is answered with.
pub open spec fn truncated(typ: PacketType) -> Error {
    match typ {
        PacketType::Syn => Error::Io(IoError::TruncatedSyn),
        PacketType::SynAck => Error::Io(IoError::TruncatedSynAck),
        _ => Error::Io(IoError::TruncatedReset),
    }
}

/// What an incoming datagram does.
pub open spec fn incoming(
    before: PeerView,
    data: Seq<u8>,
    from: SocketAddr,
    now: u64,
    now_ms: u32,
    after: PeerView,
    outcome: Result<Seq<ActionView>>,
) -> bool {
    match parse_packet(data) {
        None => {
            &&& after == before
            &&& outcome == Err::<Seq<ActionView>, Error>(Error::Io(IoError::EmptyPacket))
        },
        Some((typ, payload)) => {
            if typ == PacketType::KcpData {
                data_step(before, payload, from, now, after, outcome)
            } else if payload.len() < 4 {
                &&& after == before
                &&& outcome == Err::<Seq<ActionView>, Error>(truncated(typ))
            } else {
                let conv = conv_of(payload);
                &&& outcome matches Ok(actions)
                &&& match typ {
                    PacketType::Syn => syn_step(before, conv, from, now, now_ms, after, actions),
                    PacketType::SynAck => syn_ack_step(
                        before,
                        conv,
                        from,
                        now,
                        now_ms,
                        after,
                        actions,
                    ),
                    _ => reset_step(before, conv, from, after, actions),
                }
            }
        },
    }
}

/// Whether a session has been idle for longer than a timeout.
pub open spec fn idle(session: SessionView, timeout: Duration, now: u64) -> bool {
    &&& session.last_rx > 0
    &&& now > session.last_rx
    &&& (now - session.last_rx) * NANOS_PER_MILLI > duration_nanos(timeout)
}

/// What one look at a session's timers comes to.
pub struct Ticked {
    pub session: SessionView,
    /// The SYN to repeat.
    pub syn: Option<DatagramView>,
    /// Whether the session ends: the link is dead, or it was idle for too long.
    pub expired: bool,
}

/// What one look at a session's timers does, where the output answered KCP as given. A session
/// that is closed is passed over. An output that failed ends no session whose link is alive.
pub open spec fn ticked(
    session: SessionView,
    config: KcpConfig,
    now: u64,
    now_ms: u32,
    answers: Seq<std::io::Result<usize>>,
) -> Ticked {
    let updated = driven(session, now_ms, answers);
    if session.closed {
        Ticked { session, syn: None, expired: false }
    } else if update_result(session, now_ms, answers) == Err::<usize, Error>(Error::DeadLink) {
        Ticked { session: updated, syn: None, expired: true }
    } else {
        match retry_result(updated, config, now) {
            Ok(syn) => Ticked {
                session: retried(updated, config, now),
                syn,
                expired: idle(updated, config.session_timeout, now),
            },
            Err(_) => Ticked { session: updated, syn: None, expired: true },
        }
    }
}

/// What one look at the timers of all sessions does to each, where the output answered the KCP
/// of each as given.
pub open spec fn all_ticked(
    sessions: Seq<SessionView>,
    config: KcpConfig,
    now: u64,
    now_ms: u32,
    answers: Seq<Seq<std::io::Result<usize>>>,
) -> Seq<Ticked> {
    Seq::new(sessions.len(), |i: int| ticked(sessions[i], config, now, now_ms, answers[i]))
}

/// The sessions that go on, in order.
pub open spec fn survivors(ticks: Seq<Ticked>) -> Seq<SessionView>
    decreases ticks.len(),
{
    if ticks.len() == 0 {
        Seq::empty()
    } else if ticks.last().expired {
        survivors(ticks.drop_last())
    } else {
        survivors(ticks.drop_last()).push(ticks.last().session)
    }
}

/// The SYNs to repeat, in order.
pub open spec fn repeated_syns(ticks: Seq<Ticked>) -> Seq<ActionView>
    decreases ticks.len(),
{
    if ticks.len() == 0 {
        Seq::empty()
    } else {
        match ticks.last().syn {
            Some(syn) => repeated_syns(ticks.drop_last()).push(ActionView::Send(syn)),
            None => repeated_syns(ticks.drop_last()),
        }
    }
}

/// How the end of a session is told: to the peer by RESET, and by an event.
pub open spec fn farewell(session: SessionView) -> Seq<ActionView> {
    resets(session.peer_addr, session.conv_id).push(
        ActionView::Emit(Event::Disconnected(session.peer_addr)),
    )
}

/// How the end of the sessions that end is told, in order.
pub open spec fn farewells(ticks: Seq<Ticked>) -> Seq<ActionView>
    decreases ticks.len(),
{
    if ticks.len() == 0 {
        Seq::empty()
    } else if ticks.last().expired {
        farewells(ticks.drop_last()) + farewell(ticks.last().session)
    } else {
        farewells(ticks.drop_last())
    }
}

/// What a tick of the update timer does: it drives KCP, repeats SYNs, and ends the sessions
/// whose link is dead or that were idle for too long. What the output answered is given.
pub open spec fn tick_with(
    before: PeerView,
    now: u64,
    now_ms: u32,
    answers: Seq<Seq<std::io::Result<usize>>>,
    after: PeerView,
    actions: Seq<ActionView>,
) -> bool {
    let ticks = all_ticked(before.sessions, before.config, now, now_ms, answers);
    &&& answers.len() == before.sessions.len()
    &&& after == (PeerView { sessions: survivors(ticks), ..before })
    &&& actions == repeated_syns(ticks) + farewells(ticks)
    &&& forall|i: int|
        0 <= i < before.sessions.len() ==> transmitted(
            (#[trigger] before.sessions[i]).engine(),
            ticks[i].session.engine(),
        )
}

/// What a tick of the update timer does, whatever the output answered.
pub open spec fn tick_step(
    before: PeerView,
    now: u64,
    now_ms: u32,
    after: PeerView,
    actions: Seq<ActionView>,
) -> bool {
    exists|answers: Seq<Seq<std::io::Result<usize>>>|
        #[trigger] tick_with(before, now, now_ms, answers, after, actions)
}

/// A transport with no session yet.
pub open spec fn fresh_peer(
    peer: PeerView,
    local_addr: SocketAddr,
    config: KcpConfig,
    outlet: Outlet,
    incarnation: u64,
) -> bool {
    peer == (PeerView {
        sessions: Seq::empty(),
        lobby: Seq::empty(),
        pending: Seq::empty(),
        incarnation,
        shutting_down: false,
        config,
        local_addr,
        outlet,
    })
}

/// What opening a session to a peer does: a peer that has one keeps it. Otherwise a session with
/// the given conversation id starts its handshake, and its SYN is sent.
pub open spec fn initiate_step(
    before: PeerView,
    peer: SocketAddr,
    conv: u32,
    now: u64,
    after: PeerView,
    actions: Seq<ActionView>,
) -> bool {
    if has_session(before.sessions, spec_canonicalize(peer)) {
        after == before && actions == Seq::<ActionView>::empty()
    } else {
        &&& exists|session: SessionView|
            {
                &&& #[trigger] fresh_session(
                    session,
                    conv,
                    peer,
                    before.outlet,
                    before.incarnation,
                    before.config,
                    SessionState::SynSent { retries: 0, sent_at: now },
                    now,
                )
                &&& after == (PeerView {
                    sessions: with_session(before.sessions, session),
                    ..before
                })
            }
        &&& actions == seq![
            ActionView::Send(
                DatagramView { to: peer, packet: control_packet(PacketType::Syn, conv) },
            ),
        ]
    }
}

/// What queueing data on the session of a peer returns: an open session whose link is dead
/// refuses, and otherwise the session decides.
pub open spec fn queue_result(session: SessionView, data: Seq<u8>) -> Result<()> {
    if !session.closed && session.engine().dead {
        Err(Error::DeadLink)
    } else {
        send_result(session, data)
    }
}

/// What queueing data on the session of a peer does. Where it is refused, nothing changes.
pub open spec fn queue_step(
    before: PeerView,
    peer: SocketAddr,
    data: Seq<u8>,
    after: PeerView,
    sent: Result<()>,
) -> bool {
    let i = session_index(before.sessions, spec_canonicalize(peer));
    &&& sent == queue_result(before.sessions[i], data)
    &&& if sent is Ok {
        &&& data_sent(before.sessions[i], data, after.sessions[i])
        &&& after == (PeerView {
            sessions: before.sessions.update(i, after.sessions[i]),
            ..before
        })
    } else {
        after == before
    }
}

/// What sending to a peer does: a session is opened where there is none, and the data is queued
/// on it.
pub open spec fn send_step(
    before: PeerView,
    peer: SocketAddr,
    data: Seq<u8>,
    conv: u32,
    now: u64,
    after: PeerView,
    sent: Result<()>,
    actions: Seq<ActionView>,
) -> bool {
    exists|opened: PeerView|
        {
            &&& #[trigger] initiate_step(before, peer, conv, now, opened, actions)
            &&& queue_step(opened, peer, data, after, sent)
        }
}

/// What reading a message does: the oldest message that waits is handed out. After a shutdown
/// there are no more reads.
pub open spec fn recv_step(
    before: PeerView,
    after: PeerView,
    message: Result<Option<MessageView>>,
) -> bool {
    if before.shutting_down {
        &&& after == before
        &&& message == Err::<Option<MessageView>, Error>(Error::ShuttingDown)
    } else if before.pending.len() == 0 {
        after == before && message == Ok::<Option<MessageView>, Error>(None)
    } else {
        &&& after == (PeerView { pending: before.pending.skip(1), ..before })
        &&& message == Ok::<Option<MessageView>, Error>(Some(before.pending[0]))
    }
}

/// The peers of the sessions that are not closed, in order.
pub open spec fn open_peers(sessions: Seq<SessionView>) -> Seq<SocketAddr>
    decreases sessions.len(),
{
    if sessions.len() == 0 {
        Seq::empty()
    } else if sessions.last().closed {
        open_peers(sessions.drop_last())
    } else {
        open_peers(sessions.drop_last()).push(sessions.last().peer_addr)
    }
}

/// Statistics that describe a session at an instant.
pub open spec fn describes(stats: PeerStats, session: SessionView, now: u64) -> bool {
    &&& stats.conv_id == session.conv_id
    &&& stats.send_wnd == session.engine().snd_wnd
    &&& stats.recv_wnd == session.engine().rcv_wnd
    &&& stats.rmt_wnd == session.engine().rmt_wnd
    &&& stats.wait_snd == session.engine().in_flight + session.engine().unsent.len()
    &&& stats.dead_link == session.engine().dead
    &&& duration_nanos(stats.elapsed) == if now >= session.last_rx {
        (now - session.last_rx) * NANOS_PER_MILLI
    } else {
        0
    }
}

/// The statistics of a peer: those of its session, if it has one that is not closed.
pub open spec fn stats_step(
    before: PeerView,
    peer: SocketAddr,
    now: u64,
    stats: Option<PeerStats>,
) -> bool {
    match session_of(before.sessions, spec_canonicalize(peer)) {
        Some(session) if !session.closed => stats matches Some(found) && describes(
            found,
            session,
            now,
        ),
        _ => stats is None,
    }
}

/// What closing the session of a peer does: it is gone, and the peer and all subscribers are
/// told.
pub open spec fn disconnect_step(
    before: PeerView,
    peer: SocketAddr,
    after: PeerView,
    actions: Seq<ActionView>,
) -> bool {
    let can = spec_canonicalize(peer);
    match session_of(before.sessions, can) {
        Some(session) => {
            &&& after == (PeerView { sessions: without_session(before.sessions, can), ..before })
            &&& actions == resets(peer, session.conv_id).push(
                ActionView::Emit(Event::Disconnected(peer)),
            )
        },
        None => after == before && actions == Seq::<ActionView>::empty(),
    }
}

/// RESETs for all sessions, in order.
pub open spec fn all_resets(sessions: Seq<SessionView>) -> Seq<ActionView>
    decreases sessions.len(),
{
    if sessions.len() == 0 {
        Seq::empty()
    } else {
        all_resets(sessions.drop_last()) + resets(
            sessions.last().peer_addr,
            sessions.last().conv_id,
        )
    }
}

/// What a shutdown does: every session is closed, and its peer told.
pub open spec fn shutdown_step(
    before: PeerView,
    after: PeerView,
    actions: Seq<ActionView>,
) -> bool {
    &&& after == (PeerView {
        shutting_down: true,
        sessions: before.sessions.map_values(
            |session: SessionView| SessionView { closed: true, ..session },
        ),
        ..before
    })
    &&& actions == all_resets(before.sessions)
}

/// The outcome of a step as plain values.
pub open spec fn outcome_view(outcome: Result<Vec<Action>>) -> Result<Seq<ActionView>> {
    match outcome {
        Ok(actions) => Ok(action_views(actions@)),
        Err(err) => Err(err),
    }
}

} // verus!
