//! What holds of the transport as a whole: laws over the steps of the protocol.

use crate::addr::{
    addr_after, law_address_order_decides, spec_canonicalize, CanonicalAddr, SocketAddr,
};
use crate::config::KcpConfig;
use crate::engine::{
    advanced, after_recv, batch, fed, first_message, fragment, fragment_count, fragments, handed,
    joined, kcp_fed, kcp_updated, message_span, peek, push_frame, push_frames, transmitted,
    window_free, window_share, window_used, DatagramView, KcpState, Segment, KCP_OVERHEAD,
    KCP_WND_RCV,
};
use crate::error::{Error, KcpError, Result};
use crate::packet::{
    control_packet, conv_bytes, conv_of, data_packet, law_control_round_trip, law_conv_round_trip,
    law_data_round_trip, parse_packet, PacketType,
};
use crate::protocol::{
    accepted, all_resets, all_ticked, disconnect_step, distinct_peers, farewell, farewells,
    has_session, incoming, initiate_step, insert_step, keeps, messages_from, open_peers,
    queue_result, queue_step, recv_step, repeated_syns, resets, send_step, session_index,
    session_key, session_of, shutdown_step, stats_step, survivors, syn_ack, tick_with, ticked,
    with_all, with_session, without_session, ActionView, MessageView, PeerView, Ticked,
};
use crate::session::{
    bytes_read, data_sent, drained_messages, driven, establishes, fresh_session, read_size,
    retried, retry_result, send_result, update_result, SessionState, SessionView,
};
use crate::time::{duration_nanos, NANOS_PER_MILLI};
use crate::transport::{Event, PeerStats};
use vstd::arithmetic::power2::pow2;
use vstd::prelude::*;

verus! {

/// Where no peer has two sessions, the place of a peer's session is the only one.
pub(crate) proof fn lemma_index_unique(sessions: Seq<SessionView>, can: CanonicalAddr, i: int)
    requires
        distinct_peers(sessions),
        keeps(sessions, can, i),
    ensures
        has_session(sessions, can),
        session_index(sessions, can) == i,
{
    let j = session_index(sessions, can);
    assert(keeps(sessions, can, j));
    assert(session_key(sessions[i]) == session_key(sessions[j]));
}

/// A session put in for a peer is the peer's session, and no other peer's session changes.
pub proof fn law_put_session(sessions: Seq<SessionView>, session: SessionView, other: CanonicalAddr)
    requires
        distinct_peers(sessions),
    ensures
        distinct_peers(with_session(sessions, session)),
        session_of(with_session(sessions, session), session_key(session)) == Some(session),
        other != session_key(session) ==> session_of(with_session(sessions, session), other)
            == session_of(sessions, other),
{
    let can = session_key(session);
    let after = with_session(sessions, session);
    let at = if has_session(sessions, can) {
        session_index(sessions, can)
    } else {
        sessions.len() as int
    };
    if has_session(sessions, can) {
        assert(keeps(sessions, can, at));
    }
    assert forall|a: int, b: int| 0 <= a < b < after.len() implies session_key(
        #[trigger] after[a],
    ) != session_key(#[trigger] after[b]) by {
        if a < sessions.len() {
            assert(!has_session(sessions, can) ==> !keeps(sessions, can, a));
        }
        assert(a < sessions.len() ==> a == at || after[a] == sessions[a]);
        assert(b < sessions.len() ==> b == at || after[b] == sessions[b]);
    }
    assert(keeps(after, can, at));
    lemma_index_unique(after, can, at);
    if other != can {
        if has_session(sessions, other) {
            let j = session_index(sessions, other);
            assert(keeps(sessions, other, j));
            assert(keeps(after, other, j));
            lemma_index_unique(after, other, j);
        } else {
            if has_session(after, other) {
                let j = session_index(after, other);
                assert(keeps(after, other, j));
                assert(keeps(sessions, other, j));
            }
        }
    }
}

/// A peer whose session is taken out has none, and no other peer's session changes.
pub proof fn law_take_session(
    sessions: Seq<SessionView>,
    can: CanonicalAddr,
    other: CanonicalAddr,
)
    requires
        distinct_peers(sessions),
    ensures
        distinct_peers(without_session(sessions, can)),
        session_of(without_session(sessions, can), can) is None,
        other != can ==> session_of(without_session(sessions, can), other) == session_of(
            sessions,
            other,
        ),
{
    if has_session(sessions, can) {
        let at = session_index(sessions, can);
        assert(keeps(sessions, can, at));
        let after = sessions.remove(at);
        assert forall|a: int, b: int| 0 <= a < b < after.len() implies session_key(
            #[trigger] after[a],
        ) != session_key(#[trigger] after[b]) by {
            let p = if a < at { a } else { a + 1 };
            let q = if b < at { b } else { b + 1 };
            assert(after[a] == sessions[p] && after[b] == sessions[q]);
        }
        if has_session(after, can) {
            let j = session_index(after, can);
            assert(keeps(after, can, j));
            let p = if j < at { j } else { j + 1 };
            assert(after[j] == sessions[p]);
            assert(session_key(sessions[p]) == session_key(sessions[at]));
        }
        if other != can {
            if has_session(sessions, other) {
                let j = session_index(sessions, other);
                assert(keeps(sessions, other, j));
                let k = if j < at { j } else { j - 1 };
                assert(after[k] == sessions[j]);
                assert(keeps(after, other, k));
                lemma_index_unique(after, other, k);
            } else if has_session(after, other) {
                let j = session_index(after, other);
                assert(keeps(after, other, j));
                let p = if j < at { j } else { j + 1 };
                assert(keeps(sessions, other, p));
            }
        }
    }
}

/// A session that changes in place, for the same peer.
pub(crate) proof fn lemma_update_session(
    sessions: Seq<SessionView>,
    i: int,
    session: SessionView,
    other: CanonicalAddr,
)
    requires
        distinct_peers(sessions),
        0 <= i < sessions.len(),
        session_key(session) == session_key(sessions[i]),
    ensures
        distinct_peers(sessions.update(i, session)),
        session_of(sessions.update(i, session), session_key(session)) == Some(session),
        other != session_key(session) ==> session_of(sessions.update(i, session), other)
            == session_of(sessions, other),
{
    assert(keeps(sessions, session_key(session), i));
    lemma_index_unique(sessions, session_key(session), i);
    law_put_session(sessions, session, other);
}

/// A packet from one peer never touches the session of another, nor the identity of the
/// transport.
pub proof fn law_other_peers_untouched(
    before: PeerView,
    data: Seq<u8>,
    from: SocketAddr,
    now: u64,
    now_ms: u32,
    after: PeerView,
    outcome: Result<Seq<ActionView>>,
    other: CanonicalAddr,
)
    requires
        before.wf(),
        incoming(before, data, from, now, now_ms, after, outcome),
        other != spec_canonicalize(from),
    ensures
        session_of(after.sessions, other) == session_of(before.sessions, other),
        after.incarnation == before.incarnation,
        after.local_addr == before.local_addr,
        after.config == before.config,
        after.outlet == before.outlet,
        after.shutting_down == before.shutting_down,
{
    let can = spec_canonicalize(from);
    let i = session_index(before.sessions, can);
    if has_session(before.sessions, can) {
        assert(keeps(before.sessions, can, i));
        if 0 <= i < after.sessions.len() && session_key(after.sessions[i]) == can {
            lemma_update_session(before.sessions, i, after.sessions[i], other);
        }
        law_take_session(before.sessions, can, other);
    }
}

/// The session that a SYN opened is the last of those that wait to be put in.
pub(crate) proof fn lemma_accepted(
    before: PeerView,
    conv: u32,
    from: SocketAddr,
    now: u64,
    after: PeerView,
) -> (session: SessionView)
    requires
        accepted(before, conv, from, now, after),
    ensures
        after == (PeerView { lobby: before.lobby.push(session), ..before }),
        fresh_session(
            session,
            conv,
            from,
            before.outlet,
            before.incarnation,
            before.config,
            SessionState::Established,
            now,
        ),
{
    choose|session: SessionView|
        {
            &&& #[trigger] fresh_session(
                session,
                conv,
                from,
                before.outlet,
                before.incarnation,
                before.config,
                SessionState::Established,
                now,
            )
            &&& after == (PeerView { lobby: before.lobby.push(session), ..before })
        }
}

/// The session that a call opened is the peer's session.
pub(crate) proof fn lemma_initiated(
    before: PeerView,
    peer: SocketAddr,
    conv: u32,
    now: u64,
    after: PeerView,
    actions: Seq<ActionView>,
) -> (session: SessionView)
    requires
        distinct_peers(before.sessions),
        session_of(before.sessions, spec_canonicalize(peer)) is None,
        initiate_step(before, peer, conv, now, after, actions),
    ensures
        after == (PeerView { sessions: with_session(before.sessions, session), ..before }),
        distinct_peers(after.sessions),
        session_of(after.sessions, spec_canonicalize(peer)) == Some(session),
        fresh_session(
            session,
            conv,
            peer,
            before.outlet,
            before.incarnation,
            before.config,
            SessionState::SynSent { retries: 0, sent_at: now },
            now,
        ),
{
    let session = choose|session: SessionView|
        {
            &&& #[trigger] fresh_session(
                session,
                conv,
                peer,
                before.outlet,
                before.incarnation,
                before.config,
                SessionState::SynSent { retries: 0, sent_at: now },
                now,
            )
            &&& after == (PeerView {
                sessions: with_session(before.sessions, session),
                ..before
            })
        };
    law_put_session(before.sessions, session, spec_canonicalize(peer));
    session
}

/// Putting in one session more.
pub(crate) proof fn lemma_with_all_push(
    sessions: Seq<SessionView>,
    lobby: Seq<SessionView>,
    session: SessionView,
)
    requires
        distinct_peers(sessions),
    ensures
        with_all(sessions, lobby.push(session)) == with_session(
            with_all(sessions, lobby),
            session,
        ),
        distinct_peers(with_all(sessions, lobby)),
    decreases lobby.len(),
{
    let more = lobby.push(session);
    if lobby.len() == 0 {
        assert(more.skip(1) =~= Seq::empty());
        assert(with_all(with_session(sessions, session), more.skip(1)) == with_session(
            sessions,
            session,
        ));
    } else {
        assert(more.skip(1) =~= lobby.skip(1).push(session));
        assert(more[0] == lobby[0]);
        law_put_session(sessions, lobby[0], session_key(session));
        lemma_with_all_push(with_session(sessions, lobby[0]), lobby.skip(1), session);
    }
}

/// Once the sessions that wait are put in, the last of them is its peer's session.
pub(crate) proof fn lemma_last_inserted(
    before: PeerView,
    lobby: Seq<SessionView>,
    session: SessionView,
)
    requires
        distinct_peers(before.sessions),
        before.lobby == lobby.push(session),
    ensures
        forall|after: PeerView| #[trigger]
            insert_step(before, after) ==> distinct_peers(after.sessions) && session_of(
                after.sessions,
                session_key(session),
            ) == Some(session),
{
    lemma_with_all_push(before.sessions, lobby, session);
    law_put_session(with_all(before.sessions, lobby), session, session_key(session));
}

/// An inbound connection is reported before its session is put in: when the SYN of a peer
/// without a session was processed, the peer has none yet. The actions end by having it put in,
/// and then the peer has it.
pub proof fn law_connected_before_insertion(
    before: PeerView,
    conv: u32,
    from: SocketAddr,
    now: u64,
    now_ms: u32,
    reported: PeerView,
    outcome: Result<Seq<ActionView>>,
    after: PeerView,
)
    requires
        before.wf(),
        session_of(before.sessions, spec_canonicalize(from)) is None,
        incoming(
            before,
            control_packet(PacketType::Syn, conv),
            from,
            now,
            now_ms,
            reported,
            outcome,
        ),
        insert_step(reported, after),
    ensures
        outcome == Ok::<Seq<ActionView>, Error>(
            seq![
                syn_ack(from, conv),
                ActionView::Emit(Event::Connected(from)),
                ActionView::Insert,
            ],
        ),
        session_of(reported.sessions, spec_canonicalize(from)) is None,
        session_of(after.sessions, spec_canonicalize(from)) matches Some(session) && fresh_session(
            session,
            conv,
            from,
            before.outlet,
            before.incarnation,
            before.config,
            SessionState::Established,
            now,
        ),
{
    law_control_round_trip(PacketType::Syn, conv);
    let session = lemma_accepted(before, conv, from, now, reported);
    lemma_last_inserted(reported, before.lobby, session);
}

/// A handshake connects both sides, in one conversation: the SYN of the initiator opens a
/// session on the other side and is acknowledged, and the SYN_ACK completes the initiator's.
pub proof fn law_handshake(
    a_addr: SocketAddr,
    b_addr: SocketAddr,
    conv: u32,
    a0: PeerView,
    t0: u64,
    a1: PeerView,
    sent: Seq<ActionView>,
    b0: PeerView,
    t1: u64,
    m1: u32,
    b1: PeerView,
    answer: Result<Seq<ActionView>>,
    b2: PeerView,
    t2: u64,
    m2: u32,
    a2: PeerView,
    done: Result<Seq<ActionView>>,
)
    requires
        a0.wf(),
        b0.wf(),
        session_of(a0.sessions, spec_canonicalize(b_addr)) is None,
        session_of(b0.sessions, spec_canonicalize(a_addr)) is None,
        initiate_step(a0, b_addr, conv, t0, a1, sent),
        incoming(b0, control_packet(PacketType::Syn, conv), a_addr, t1, m1, b1, answer),
        insert_step(b1, b2),
        incoming(a1, control_packet(PacketType::SynAck, conv), b_addr, t2, m2, a2, done),
    ensures
        sent == seq![
            ActionView::Send(
                DatagramView { to: b_addr, packet: control_packet(PacketType::Syn, conv) },
            ),
        ],
        answer == Ok::<Seq<ActionView>, Error>(
            seq![
                syn_ack(a_addr, conv),
                ActionView::Emit(Event::Connected(a_addr)),
                ActionView::Insert,
            ],
        ),
        done == Ok::<Seq<ActionView>, Error>(seq![ActionView::Emit(Event::Connected(b_addr))]),
        session_of(b2.sessions, spec_canonicalize(a_addr)) matches Some(session) && session.state
            == SessionState::Established && session.conv_id == conv,
        session_of(a2.sessions, spec_canonicalize(b_addr)) matches Some(session) && session.state
            == SessionState::Established && session.conv_id == conv,
{
    law_control_round_trip(PacketType::SynAck, conv);
    let _ = lemma_initiated(a0, b_addr, conv, t0, a1, sent);
    law_connected_before_insertion(b0, conv, a_addr, t1, m1, b1, answer, b2);
    let can = spec_canonicalize(b_addr);
    let i = session_index(a1.sessions, can);
    assert(keeps(a1.sessions, can, i));
    lemma_update_session(a1.sessions, i, a2.sessions[i], can);
}

/// A session that was settled on a conversation: it is established, and what was queued on it
/// is in flight or still queued, in order.
pub open spec fn settled(before: SessionView, conv: u32, after: SessionView) -> bool {
    let sent = after.engine().in_flight as int;
    &&& after.state == SessionState::Established
    &&& after.conv_id == conv
    &&& after.engine().conv == conv
    &&& sent + after.engine().unsent.len() == before.engine().unsent.len()
    &&& after.engine().unsent == before.engine().unsent.skip(sent)
}

/// In a simultaneous handshake, each side taking the other's SYN connects both sides, in one
/// conversation: that of the side with the higher address. What each side had queued is kept.
pub proof fn law_simultaneous_handshake(
    a_addr: SocketAddr,
    b_addr: SocketAddr,
    a0: PeerView,
    b0: PeerView,
    a_session: SessionView,
    b_session: SessionView,
    t1: u64,
    m1: u32,
    a1: PeerView,
    a_done: Result<Seq<ActionView>>,
    t2: u64,
    m2: u32,
    b1: PeerView,
    b_done: Result<Seq<ActionView>>,
)
    requires
        a0.wf(),
        b0.wf(),
        a0.local_addr == a_addr,
        b0.local_addr == b_addr,
        a_addr != b_addr,
        session_of(a0.sessions, spec_canonicalize(b_addr)) == Some(a_session),
        session_of(b0.sessions, spec_canonicalize(a_addr)) == Some(b_session),
        a_session.state is SynSent,
        b_session.state is SynSent,
        a_session.conv_id != b_session.conv_id,
        incoming(
            a0,
            control_packet(PacketType::Syn, b_session.conv_id),
            b_addr,
            t1,
            m1,
            a1,
            a_done,
        ),
        incoming(
            b0,
            control_packet(PacketType::Syn, a_session.conv_id),
            a_addr,
            t2,
            m2,
            b1,
            b_done,
        ),
    ensures
        ({
            let conv = if addr_after(a_addr, b_addr) {
                a_session.conv_id
            } else {
                b_session.conv_id
            };
            &&& a_done == Ok::<Seq<ActionView>, Error>(
                seq![ActionView::Emit(Event::Connected(b_addr)), syn_ack(b_addr, conv)],
            )
            &&& b_done == Ok::<Seq<ActionView>, Error>(
                seq![ActionView::Emit(Event::Connected(a_addr)), syn_ack(a_addr, conv)],
            )
            &&& session_of(a1.sessions, spec_canonicalize(b_addr)) matches Some(session)
                && settled(a_session, conv, session)
            &&& session_of(b1.sessions, spec_canonicalize(a_addr)) matches Some(session)
                && settled(b_session, conv, session)
        }),
{
    law_control_round_trip(PacketType::Syn, a_session.conv_id);
    law_control_round_trip(PacketType::Syn, b_session.conv_id);
    law_address_order_decides(a_addr, b_addr);
    let a_can = spec_canonicalize(a_addr);
    let b_can = spec_canonicalize(b_addr);
    let i = session_index(a0.sessions, b_can);
    assert(keeps(a0.sessions, b_can, i));
    let j = session_index(b0.sessions, a_can);
    assert(keeps(b0.sessions, a_can, j));
    lemma_update_session(a0.sessions, i, a1.sessions[i], b_can);
    lemma_update_session(b0.sessions, j, b1.sessions[j], a_can);
}

/// A SYN_ACK that no handshake waits for changes nothing.
pub proof fn law_late_syn_ack_ignored(
    before: PeerView,
    conv: u32,
    from: SocketAddr,
    now: u64,
    now_ms: u32,
    after: PeerView,
    outcome: Result<Seq<ActionView>>,
)
    requires
        incoming(
            before,
            control_packet(PacketType::SynAck, conv),
            from,
            now,
            now_ms,
            after,
            outcome,
        ),
        session_of(before.sessions, spec_canonicalize(from)) matches Some(session) ==> !(
        session.state is SynSent) || session.conv_id != conv,
    ensures
        after == before,
        outcome == Ok::<Seq<ActionView>, Error>(Seq::empty()),
{
    law_control_round_trip(PacketType::SynAck, conv);
}

/// Crash recovery: a SYN of another conversation closes a peer's established session, and once
/// the actions are performed a new one is in its place. The restart is reported before the new
/// connection.
pub proof fn law_crash_recovery(
    before: PeerView,
    old_session: SessionView,
    conv: u32,
    from: SocketAddr,
    now: u64,
    now_ms: u32,
    reported: PeerView,
    outcome: Result<Seq<ActionView>>,
    after: PeerView,
)
    requires
        before.wf(),
        session_of(before.sessions, spec_canonicalize(from)) == Some(old_session),
        old_session.state == SessionState::Established,
        old_session.conv_id != conv,
        incoming(
            before,
            control_packet(PacketType::Syn, conv),
            from,
            now,
            now_ms,
            reported,
            outcome,
        ),
        insert_step(reported, after),
    ensures
        outcome == Ok::<Seq<ActionView>, Error>(
            seq![
                ActionView::Emit(Event::PeerRestarted(from)),
                syn_ack(from, conv),
                ActionView::Emit(Event::Connected(from)),
                ActionView::Insert,
            ],
        ),
        session_of(reported.sessions, spec_canonicalize(from)) == Some(
            SessionView { closed: true, ..old_session },
        ),
        session_of(after.sessions, spec_canonicalize(from)) matches Some(session) && fresh_session(
            session,
            conv,
            from,
            before.outlet,
            before.incarnation,
            before.config,
            SessionState::Established,
            now,
        ),
{
    law_control_round_trip(PacketType::Syn, conv);
    let can = spec_canonicalize(from);
    let i = session_index(before.sessions, can);
    assert(keeps(before.sessions, can, i));
    let old_closed = SessionView { closed: true, ..old_session };
    let closed = PeerView { sessions: before.sessions.update(i, old_closed), ..before };
    lemma_update_session(before.sessions, i, old_closed, can);
    let session = lemma_accepted(closed, conv, from, now, reported);
    lemma_last_inserted(reported, closed.lobby, session);
}

/// A SYN that comes twice opens one session: the second is acknowledged again, reports nothing,
/// and changes nothing but when the peer was last heard.
pub proof fn law_repeated_syn_opens_one_session(
    before: PeerView,
    conv: u32,
    from: SocketAddr,
    t1: u64,
    m1: u32,
    opened: PeerView,
    first: Result<Seq<ActionView>>,
    inserted: PeerView,
    t2: u64,
    m2: u32,
    after: PeerView,
    second: Result<Seq<ActionView>>,
)
    requires
        before.wf(),
        session_of(before.sessions, spec_canonicalize(from)) is None,
        incoming(before, control_packet(PacketType::Syn, conv), from, t1, m1, opened, first),
        insert_step(opened, inserted),
        incoming(inserted, control_packet(PacketType::Syn, conv), from, t2, m2, after, second),
    ensures
        second == Ok::<Seq<ActionView>, Error>(seq![syn_ack(from, conv)]),
        session_of(inserted.sessions, spec_canonicalize(from)) matches Some(session) && session_of(
            after.sessions,
            spec_canonicalize(from),
        ) == Some(SessionView { last_rx: t2, ..session }),
{
    law_control_round_trip(PacketType::Syn, conv);
    let session = lemma_accepted(before, conv, from, t1, opened);
    lemma_last_inserted(opened, before.lobby, session);
    let can = spec_canonicalize(from);
    let i = session_index(inserted.sessions, can);
    assert(keeps(inserted.sessions, can, i));
    lemma_update_session(inserted.sessions, i, after.sessions[i], can);
}

/// The SYN of a handshake that this side opened itself, come back in the same conversation, is
/// ignored.
pub proof fn law_own_syn_ignored(
    before: PeerView,
    conv: u32,
    from: SocketAddr,
    now: u64,
    now_ms: u32,
    after: PeerView,
    outcome: Result<Seq<ActionView>>,
)
    requires
        session_of(before.sessions, spec_canonicalize(from)) matches Some(session)
            && session.conv_id == conv && session.state is SynSent,
        incoming(before, control_packet(PacketType::Syn, conv), from, now, now_ms, after, outcome),
    ensures
        after == before,
        outcome == Ok::<Seq<ActionView>, Error>(Seq::empty()),
{
    law_control_round_trip(PacketType::Syn, conv);
}

/// A RESET of another conversation, or from a peer without a session, changes nothing.
pub proof fn law_stale_reset_ignored(
    before: PeerView,
    conv: u32,
    from: SocketAddr,
    now: u64,
    now_ms: u32,
    after: PeerView,
    outcome: Result<Seq<ActionView>>,
)
    requires
        session_of(before.sessions, spec_canonicalize(from)) matches Some(session) ==>
            session.conv_id != conv,
        incoming(
            before,
            control_packet(PacketType::Reset, conv),
            from,
            now,
            now_ms,
            after,
            outcome,
        ),
    ensures
        after == before,
        outcome == Ok::<Seq<ActionView>, Error>(Seq::empty()),
{
    law_control_round_trip(PacketType::Reset, conv);
}

/// A RESET of the peer's conversation ends the session, and the end is reported.
pub proof fn law_reset_closes(
    before: PeerView,
    conv: u32,
    from: SocketAddr,
    now: u64,
    now_ms: u32,
    after: PeerView,
    outcome: Result<Seq<ActionView>>,
)
    requires
        before.wf(),
        session_of(before.sessions, spec_canonicalize(from)) matches Some(session)
            && session.conv_id == conv,
        incoming(
            before,
            control_packet(PacketType::Reset, conv),
            from,
            now,
            now_ms,
            after,
            outcome,
        ),
    ensures
        session_of(after.sessions, spec_canonicalize(from)) is None,
        outcome == Ok::<Seq<ActionView>, Error>(
            seq![ActionView::Emit(Event::Disconnected(from))],
        ),
{
    law_control_round_trip(PacketType::Reset, conv);
    law_take_session(before.sessions, spec_canonicalize(from), spec_canonicalize(from));
}

/// A datagram that is empty, of unknown type, or a control packet cut short is an error and
/// changes nothing.
pub proof fn law_malformed_changes_nothing(
    before: PeerView,
    data: Seq<u8>,
    from: SocketAddr,
    now: u64,
    now_ms: u32,
    after: PeerView,
    outcome: Result<Seq<ActionView>>,
)
    requires
        incoming(before, data, from, now, now_ms, after, outcome),
        data.len() == 0 || PacketType::of_byte(data[0]) is None || (data.len() < 5
            && PacketType::of_byte(data[0]) != Some(PacketType::KcpData)),
    ensures
        after == before,
        outcome is Err,
{
}

/// Nothing but a SYN opens a session: no other packet from a peer without a session leaves one,
/// nor is any event reported of it.
pub proof fn law_only_syn_opens(
    before: PeerView,
    data: Seq<u8>,
    from: SocketAddr,
    now: u64,
    now_ms: u32,
    after: PeerView,
    outcome: Result<Seq<ActionView>>,
)
    requires
        session_of(before.sessions, spec_canonicalize(from)) is None,
        data.len() == 0 || data[0] != PacketType::Syn.byte(),
        incoming(before, data, from, now, now_ms, after, outcome),
    ensures
        after == before,
        outcome matches Ok(actions) ==> forall|i: int|
            0 <= i < actions.len() ==> #[trigger] actions[i] is Send,
{
}

/// A peer that kept a session after this side lost it finds out: its data is answered by RESET
/// of its conversation, three times, and the RESET ends its session.
pub proof fn law_lost_session_is_told(
    a_addr: SocketAddr,
    b_addr: SocketAddr,
    conv: u32,
    frame: Seq<u8>,
    b0: PeerView,
    t1: u64,
    m1: u32,
    b1: PeerView,
    answer: Result<Seq<ActionView>>,
    a0: PeerView,
    t2: u64,
    m2: u32,
    a1: PeerView,
    done: Result<Seq<ActionView>>,
)
    requires
        a0.wf(),
        session_of(b0.sessions, spec_canonicalize(a_addr)) is None,
        session_of(a0.sessions, spec_canonicalize(b_addr)) matches Some(session)
            && session.conv_id == conv,
        frame.len() >= 4,
        conv_of(frame) == conv,
        incoming(b0, data_packet(frame), a_addr, t1, m1, b1, answer),
        incoming(a0, control_packet(PacketType::Reset, conv), b_addr, t2, m2, a1, done),
    ensures
        b1 == b0,
        answer == Ok::<Seq<ActionView>, Error>(resets(a_addr, conv)),
        forall|i: int|
            0 <= i < resets(a_addr, conv).len() ==> #[trigger] resets(a_addr, conv)[i]
                == ActionView::Send(
                DatagramView { to: a_addr, packet: control_packet(PacketType::Reset, conv) },
            ),
        session_of(a1.sessions, spec_canonicalize(b_addr)) is None,
        done == Ok::<Seq<ActionView>, Error>(seq![ActionView::Emit(Event::Disconnected(b_addr))]),
{
    law_data_round_trip(frame);
    law_reset_closes(a0, conv, b_addr, t2, m2, a1, done);
}

/// Disconnecting closes both sides: this one at once, the other when a RESET arrives. Each side
/// reports it.
pub proof fn law_disconnect_closes_both(
    a_addr: SocketAddr,
    b_addr: SocketAddr,
    conv: u32,
    a0: PeerView,
    a1: PeerView,
    sent: Seq<ActionView>,
    b0: PeerView,
    now: u64,
    now_ms: u32,
    b1: PeerView,
    done: Result<Seq<ActionView>>,
)
    requires
        a0.wf(),
        b0.wf(),
        session_of(a0.sessions, spec_canonicalize(b_addr)) matches Some(session)
            && session.conv_id == conv,
        session_of(b0.sessions, spec_canonicalize(a_addr)) matches Some(session)
            && session.conv_id == conv,
        disconnect_step(a0, b_addr, a1, sent),
        incoming(b0, control_packet(PacketType::Reset, conv), a_addr, now, now_ms, b1, done),
    ensures
        session_of(a1.sessions, spec_canonicalize(b_addr)) is None,
        sent == resets(b_addr, conv).push(ActionView::Emit(Event::Disconnected(b_addr))),
        session_of(b1.sessions, spec_canonicalize(a_addr)) is None,
        done == Ok::<Seq<ActionView>, Error>(seq![ActionView::Emit(Event::Disconnected(a_addr))]),
{
    law_take_session(a0.sessions, spec_canonicalize(b_addr), spec_canonicalize(b_addr));
    law_reset_closes(b0, conv, a_addr, now, now_ms, b1, done);
}

/// A peer that was disconnected is forgotten: it has no statistics, and the next send opens a
/// new session with a handshake of its own.
pub proof fn law_disconnect_then_send_reconnects(
    before: PeerView,
    peer: SocketAddr,
    gone: PeerView,
    told: Seq<ActionView>,
    stats: Option<PeerStats>,
    data: Seq<u8>,
    conv: u32,
    now: u64,
    after: PeerView,
    sent: Result<()>,
    actions: Seq<ActionView>,
)
    requires
        before.wf(),
        disconnect_step(before, peer, gone, told),
        stats_step(gone, peer, now, stats),
        send_step(gone, peer, data, conv, now, after, sent, actions),
    ensures
        stats is None,
        actions == seq![
            ActionView::Send(
                DatagramView { to: peer, packet: control_packet(PacketType::Syn, conv) },
            ),
        ],
        session_of(after.sessions, spec_canonicalize(peer)) matches Some(session)
            && session.conv_id == conv && session.state == (SessionState::SynSent {
            retries: 0,
            sent_at: now,
        }),
{
    let can = spec_canonicalize(peer);
    law_take_session(before.sessions, can, can);
    law_first_send(gone, peer, data, conv, now, after, sent, actions);
}

/// The first send to a peer opens a session: its SYN is sent, and the data is queued, cut into
/// fragments, with nothing in flight. Only a message of too many fragments is refused.
pub proof fn law_first_send(
    before: PeerView,
    peer: SocketAddr,
    data: Seq<u8>,
    conv: u32,
    now: u64,
    after: PeerView,
    sent: Result<()>,
    actions: Seq<ActionView>,
)
    requires
        distinct_peers(before.sessions),
        session_of(before.sessions, spec_canonicalize(peer)) is None,
        send_step(before, peer, data, conv, now, after, sent, actions),
    ensures
        distinct_peers(after.sessions),
        actions == seq![
            ActionView::Send(
                DatagramView { to: peer, packet: control_packet(PacketType::Syn, conv) },
            ),
        ],
        session_of(after.sessions, spec_canonicalize(peer)) matches Some(session) && {
            let mss = session.engine().mss as nat;
            &&& session.conv_id == conv
            &&& session.state == (SessionState::SynSent { retries: 0, sent_at: now })
            &&& !session.closed
            &&& session.engine().in_flight == 0
            &&& sent == if fragment_count(data.len(), mss) < KCP_WND_RCV {
                Ok::<(), Error>(())
            } else {
                Err(Error::Kcp(KcpError::UserBufTooBig))
            }
            &&& session.engine().unsent == if sent is Ok {
                fragments(data, mss)
            } else {
                Seq::empty()
            }
        },
{
    let can = spec_canonicalize(peer);
    let opened = choose|opened: PeerView|
        {
            &&& #[trigger] initiate_step(before, peer, conv, now, opened, actions)
            &&& queue_step(opened, peer, data, after, sent)
        };
    let _ = lemma_initiated(before, peer, conv, now, opened, actions);
    let i = session_index(opened.sessions, can);
    assert(keeps(opened.sessions, can, i));
    lemma_update_session(opened.sessions, i, after.sessions[i], can);
    let session = after.sessions[i];
    if sent is Ok {
        assert(session.engine().unsent =~= fragments(data, session.engine().mss as nat));
    }
}

/// Sending to a peer that has a session opens no other: nothing is sent at once, and the session
/// stays in its place and state.
pub proof fn law_send_keeps_session(
    before: PeerView,
    peer: SocketAddr,
    session: SessionView,
    data: Seq<u8>,
    conv: u32,
    now: u64,
    after: PeerView,
    sent: Result<()>,
    actions: Seq<ActionView>,
)
    requires
        before.wf(),
        session_of(before.sessions, spec_canonicalize(peer)) == Some(session),
        send_step(before, peer, data, conv, now, after, sent, actions),
    ensures
        actions == Seq::<ActionView>::empty(),
        sent == queue_result(session, data),
        session_of(after.sessions, spec_canonicalize(peer)) matches Some(queued) && if sent is Ok {
            data_sent(session, data, queued)
        } else {
            queued == session
        },
        after.sessions.len() == before.sessions.len(),
{
    let can = spec_canonicalize(peer);
    let opened = choose|opened: PeerView|
        {
            &&& #[trigger] initiate_step(before, peer, conv, now, opened, actions)
            &&& queue_step(opened, peer, data, after, sent)
        };
    let i = session_index(opened.sessions, can);
    assert(keeps(opened.sessions, can, i));
    lemma_update_session(opened.sessions, i, after.sessions[i], can);
}

/// What was queued during the handshake is flushed when the SYN_ACK arrives, and none of it is
/// lost: what left the queue is in flight, what did not leave stays queued in order. Without
/// congestion control, and unless the output fails, as much leaves as the windows allow.
pub proof fn law_queued_data_survives_handshake(
    before: PeerView,
    peer: SocketAddr,
    session: SessionView,
    now: u64,
    now_ms: u32,
    after: PeerView,
    outcome: Result<Seq<ActionView>>,
)
    requires
        before.wf(),
        session_of(before.sessions, spec_canonicalize(peer)) == Some(session),
        session.state is SynSent,
        incoming(
            before,
            control_packet(PacketType::SynAck, session.conv_id),
            peer,
            now,
            now_ms,
            after,
            outcome,
        ),
    ensures
        outcome == Ok::<Seq<ActionView>, Error>(seq![ActionView::Emit(Event::Connected(peer))]),
        session_of(after.sessions, spec_canonicalize(peer)) matches Some(done) && {
            &&& settled(session, session.conv_id, done)
            &&& exists|
                updating: Seq<std::io::Result<usize>>,
                flushing: Seq<std::io::Result<usize>>,
            |
                {
                    &&& #[trigger] establishes(session, now, now_ms, updating, flushing, done)
                    &&& kcp_updated(session.kcp, now_ms, updating).1 is Ok
                        && session.engine().no_congestion ==> done.engine().in_flight
                        >= window_share(session.engine())
                }
        },
{
    law_control_round_trip(PacketType::SynAck, session.conv_id);
    let can = spec_canonicalize(peer);
    let i = session_index(before.sessions, can);
    assert(keeps(before.sessions, can, i));
    lemma_update_session(before.sessions, i, after.sessions[i], can);
}

/// A look at the timers keeps a session's peer.
pub(crate) proof fn lemma_ticked_peer(
    session: SessionView,
    config: KcpConfig,
    now: u64,
    now_ms: u32,
    answers: Seq<std::io::Result<usize>>,
)
    ensures
        ticked(session, config, now, now_ms, answers).session.peer_addr == session.peer_addr,
{
}

/// Each survivor of a tick is a session that did not expire.
pub(crate) proof fn lemma_survivor_origin(ticks: Seq<Ticked>, k: int) -> (i: int)
    requires
        0 <= k < survivors(ticks).len(),
    ensures
        k <= i < ticks.len(),
        !ticks[i].expired,
        survivors(ticks)[k] == ticks[i].session,
    decreases ticks.len(),
{
    let rest = ticks.drop_last();
    if k < survivors(rest).len() {
        let i = lemma_survivor_origin(rest, k);
        assert(rest[i] == ticks[i]);
        i
    } else {
        lemma_survivors_at_most(rest);
        ticks.len() - 1
    }
}

/// A tick adds no sessions.
pub(crate) proof fn lemma_survivors_at_most(ticks: Seq<Ticked>)
    ensures
        survivors(ticks).len() <= ticks.len(),
    decreases ticks.len(),
{
    if ticks.len() > 0 {
        lemma_survivors_at_most(ticks.drop_last());
    }
}

/// Each session that did not expire survives a tick.
pub(crate) proof fn lemma_survivor_kept(ticks: Seq<Ticked>, i: int) -> (k: int)
    requires
        0 <= i < ticks.len(),
        !ticks[i].expired,
    ensures
        0 <= k < survivors(ticks).len(),
        survivors(ticks)[k] == ticks[i].session,
    decreases ticks.len(),
{
    let rest = ticks.drop_last();
    if i == ticks.len() - 1 {
        survivors(rest).len() as int
    } else {
        assert(rest[i] == ticks[i]);
        lemma_survivor_kept(rest, i)
    }
}

/// Survivors of different peers are different.
proof fn lemma_survivors_distinct(ticks: Seq<Ticked>)
    requires
        distinct_peers(ticks.map_values(|tick: Ticked| tick.session)),
    ensures
        distinct_peers(survivors(ticks)),
    decreases ticks.len(),
{
    if ticks.len() > 0 {
        let rest = ticks.drop_last();
        let all = ticks.map_values(|tick: Ticked| tick.session);
        assert(rest.map_values(|tick: Ticked| tick.session) =~= all.drop_last());
        assert(distinct_peers(all.drop_last())) by {
            assert forall|a: int, b: int| 0 <= a < b < all.len() - 1 implies session_key(
                #[trigger] all.drop_last()[a],
            ) != session_key(#[trigger] all.drop_last()[b]) by {
                assert(session_key(all[a]) != session_key(all[b]));
            }
        }
        lemma_survivors_distinct(rest);
        let kept = survivors(ticks);
        assert forall|a: int, b: int| 0 <= a < b < kept.len() implies session_key(
            #[trigger] kept[a],
        ) != session_key(#[trigger] kept[b]) by {
            if b < survivors(rest).len() {
                assert(kept[a] == survivors(rest)[a] && kept[b] == survivors(rest)[b]);
            } else {
                let i = lemma_survivor_origin(rest, a);
                assert(kept[a] == all[i]);
                assert(kept[b] == all[ticks.len() - 1]);
            }
        }
    }
}

/// What a tick makes of a peer's session depends on that session alone: it goes on as its timers
/// leave it, or it is gone.
pub proof fn law_tick_session(
    before: PeerView,
    now: u64,
    now_ms: u32,
    answers: Seq<Seq<std::io::Result<usize>>>,
    after: PeerView,
    actions: Seq<ActionView>,
    can: CanonicalAddr,
)
    requires
        before.wf(),
        tick_with(before, now, now_ms, answers, after, actions),
    ensures
        session_of(after.sessions, can) == match session_of(before.sessions, can) {
            Some(session) => {
                let i = session_index(before.sessions, can);
                let tick = ticked(session, before.config, now, now_ms, answers[i]);
                if tick.expired {
                    None
                } else {
                    Some(tick.session)
                }
            },
            None => None,
        },
{
    let ticks = all_ticked(before.sessions, before.config, now, now_ms, answers);
    let all = ticks.map_values(|tick: Ticked| tick.session);
    assert forall|a: int, b: int| 0 <= a < b < all.len() implies session_key(
        #[trigger] all[a],
    ) != session_key(#[trigger] all[b]) by {
        lemma_ticked_peer(before.sessions[a], before.config, now, now_ms, answers[a]);
        lemma_ticked_peer(before.sessions[b], before.config, now, now_ms, answers[b]);
        assert(session_key(before.sessions[a]) != session_key(before.sessions[b]));
    }
    lemma_survivors_distinct(ticks);
    if has_session(before.sessions, can) {
        let i = session_index(before.sessions, can);
        assert(keeps(before.sessions, can, i));
        lemma_ticked_peer(before.sessions[i], before.config, now, now_ms, answers[i]);
        if !ticks[i].expired {
            let k = lemma_survivor_kept(ticks, i);
            assert(keeps(after.sessions, can, k));
            lemma_index_unique(after.sessions, can, k);
        }
    }
    if has_session(after.sessions, can) {
        let k = session_index(after.sessions, can);
        assert(keeps(after.sessions, can, k));
        let i = lemma_survivor_origin(ticks, k);
        lemma_ticked_peer(before.sessions[i], before.config, now, now_ms, answers[i]);
        assert(keeps(before.sessions, can, i));
        lemma_index_unique(before.sessions, can, i);
    }
}

/// The session timeout: an established session whose link is not found dead ends on a tick
/// exactly where the peer was not heard for longer than the timeout.
pub proof fn law_session_timeout(
    before: PeerView,
    now: u64,
    now_ms: u32,
    answers: Seq<Seq<std::io::Result<usize>>>,
    after: PeerView,
    actions: Seq<ActionView>,
    can: CanonicalAddr,
    session: SessionView,
)
    requires
        before.wf(),
        tick_with(before, now, now_ms, answers, after, actions),
        session_of(before.sessions, can) == Some(session),
        session.state == SessionState::Established,
        !session.closed,
        update_result(session, now_ms, answers[session_index(before.sessions, can)]) != Err::<
            usize,
            Error,
        >(Error::DeadLink),
        session.last_rx > 0,
    ensures
        session_of(after.sessions, can) is None <==> (now - session.last_rx) * NANOS_PER_MILLI
            > duration_nanos(before.config.session_timeout),
{
    law_tick_session(before, now, now_ms, answers, after, actions, can);
    if now <= session.last_rx {
        assert((now - session.last_rx) * NANOS_PER_MILLI <= 0) by (nonlinear_arith)
            requires
                now <= session.last_rx,
        ;
    }
}

/// During the handshake no tick touches KCP: what was queued is neither transmitted nor lost.
pub proof fn law_handshake_holds_data_back(
    session: SessionView,
    config: KcpConfig,
    now: u64,
    now_ms: u32,
    answers: Seq<std::io::Result<usize>>,
)
    requires
        session.state is SynSent,
    ensures
        ticked(session, config, now, now_ms, answers).session.kcp == session.kcp,
{
}

/// A tick reports the end of a session exactly for those that it ends.
pub proof fn law_tick_reports_the_ended(
    before: PeerView,
    now: u64,
    now_ms: u32,
    answers: Seq<Seq<std::io::Result<usize>>>,
    after: PeerView,
    actions: Seq<ActionView>,
    event: Event,
)
    requires
        tick_with(before, now, now_ms, answers, after, actions),
    ensures
        actions.contains(ActionView::Emit(event)) <==> exists|i: int|
            0 <= i < before.sessions.len() && ticked(
                #[trigger] before.sessions[i],
                before.config,
                now,
                now_ms,
                answers[i],
            ).expired && event == Event::Disconnected(before.sessions[i].peer_addr),
{
    let ticks = all_ticked(before.sessions, before.config, now, now_ms, answers);
    let reported = ActionView::Emit(event);
    let syns = repeated_syns(ticks);
    let byes = farewells(ticks);
    lemma_syns_only_send(ticks);
    lemma_farewell_events(ticks, event);
    if actions.contains(reported) {
        let k = actions.index_of(reported);
        assert(actions[k] == reported);
        assert(k >= syns.len());
        assert(byes[k - syns.len()] == reported);
        assert(byes.contains(reported));
        let i = choose|i: int|
            0 <= i < ticks.len() && (#[trigger] ticks[i]).expired && event == Event::Disconnected(
                ticks[i].session.peer_addr,
            );
        lemma_ticked_peer(before.sessions[i], before.config, now, now_ms, answers[i]);
        assert(ticked(before.sessions[i], before.config, now, now_ms, answers[i]).expired);
    }
    if exists|i: int|
        0 <= i < before.sessions.len() && ticked(
            #[trigger] before.sessions[i],
            before.config,
            now,
            now_ms,
            answers[i],
        ).expired && event == Event::Disconnected(before.sessions[i].peer_addr) {
        let i = choose|i: int|
            0 <= i < before.sessions.len() && ticked(
                #[trigger] before.sessions[i],
                before.config,
                now,
                now_ms,
                answers[i],
            ).expired && event == Event::Disconnected(before.sessions[i].peer_addr);
        lemma_ticked_peer(before.sessions[i], before.config, now, now_ms, answers[i]);
        assert(ticks[i].expired);
        let k = byes.index_of(reported);
        assert(byes[k] == reported);
        assert(actions[syns.len() + k] == reported);
    }
}

/// Repeating SYNs reports nothing.
pub(crate) proof fn lemma_syns_only_send(ticks: Seq<Ticked>)
    ensures
        forall|k: int|
            0 <= k < repeated_syns(ticks).len()
                ==> #[trigger] repeated_syns(ticks)[k] is Send,
    decreases ticks.len(),
{
    if ticks.len() > 0 {
        lemma_syns_only_send(ticks.drop_last());
    }
}

/// Farewells report exactly the sessions that ended.
proof fn lemma_farewell_events(ticks: Seq<Ticked>, event: Event)
    ensures
        farewells(ticks).contains(ActionView::Emit(event)) <==> exists|i: int|
            0 <= i < ticks.len() && (#[trigger] ticks[i]).expired && event == Event::Disconnected(
                ticks[i].session.peer_addr,
            ),
    decreases ticks.len(),
{
    let reported = ActionView::Emit(event);
    if ticks.len() > 0 {
        let rest = ticks.drop_last();
        let last = ticks.last();
        lemma_farewell_events(rest, event);
        let before = farewells(rest);
        let all = farewells(ticks);
        if before.contains(reported) {
            let k = before.index_of(reported);
            assert(before[k] == reported);
            assert(all[k] == reported);
            let i = choose|i: int|
                0 <= i < rest.len() && (#[trigger] rest[i]).expired && event
                    == Event::Disconnected(rest[i].session.peer_addr);
            assert(ticks[i] == rest[i]);
        }
        if last.expired && event == Event::Disconnected(last.session.peer_addr) {
            assert(ticks[ticks.len() - 1] == last);
            assert(farewell(last.session)[3] == reported);
            assert(all[(before.len() + 3) as int] == reported);
        }
        if all.contains(reported) && !before.contains(reported) {
            let k = all.index_of(reported);
            assert(all[k] == reported);
            assert(last.expired);
            assert(k < before.len() ==> before[k] == reported);
            let bye = farewell(last.session);
            assert(bye[k - before.len()] == reported);
            assert(bye[0] is Send && bye[1] is Send && bye[2] is Send);
            assert(ticks[ticks.len() - 1].expired);
        }
        if exists|i: int|
            0 <= i < ticks.len() && (#[trigger] ticks[i]).expired && event == Event::Disconnected(
                ticks[i].session.peer_addr,
            ) {
            let i = choose|i: int|
                0 <= i < ticks.len() && (#[trigger] ticks[i]).expired && event
                    == Event::Disconnected(ticks[i].session.peer_addr);
            if i < rest.len() {
                assert(rest[i].expired);
            }
        }
    }
}

/// A shutdown closes every session: from then on reads report it, no peer is listed, and a peer
/// that had a session has no statistics, and a send to it is refused and changes nothing.
pub proof fn law_shutdown_closes_sessions(
    before: PeerView,
    after: PeerView,
    actions: Seq<ActionView>,
    read: PeerView,
    message: Result<Option<MessageView>>,
    peer: SocketAddr,
    now: u64,
    stats: Option<PeerStats>,
    data: Seq<u8>,
    conv: u32,
    later: PeerView,
    sent: Result<()>,
    told: Seq<ActionView>,
)
    requires
        before.wf(),
        shutdown_step(before, after, actions),
        recv_step(after, read, message),
        session_of(before.sessions, spec_canonicalize(peer)) is Some,
        stats_step(after, peer, now, stats),
        send_step(after, peer, data, conv, now, later, sent, told),
    ensures
        message == Err::<Option<MessageView>, Error>(Error::ShuttingDown),
        open_peers(after.sessions) == Seq::<SocketAddr>::empty(),
        stats is None,
        sent == Err::<(), Error>(Error::SessionClosed),
        told == Seq::<ActionView>::empty(),
        later == after,
{
    let can = spec_canonicalize(peer);
    assert(after.sessions.len() == before.sessions.len());
    assert forall|i: int| #[trigger] keeps(after.sessions, can, i) == keeps(
        before.sessions,
        can,
        i,
    ) by {}
    let i = session_index(before.sessions, can);
    assert(keeps(before.sessions, can, i));
    assert(keeps(after.sessions, can, i));
    assert forall|a: int, b: int| 0 <= a < b < after.sessions.len() implies session_key(
        #[trigger] after.sessions[a],
    ) != session_key(#[trigger] after.sessions[b]) by {
        assert(session_key(before.sessions[a]) != session_key(before.sessions[b]));
    }
    lemma_index_unique(after.sessions, can, i);
    lemma_all_closed(after.sessions);
    let opened = choose|opened: PeerView|
        {
            &&& #[trigger] initiate_step(after, peer, conv, now, opened, told)
            &&& queue_step(opened, peer, data, later, sent)
        };
    assert(opened == after);
    assert(later.sessions =~= after.sessions);
}

/// Where every session is closed, no peer is listed.
proof fn lemma_all_closed(sessions: Seq<SessionView>)
    requires
        forall|i: int| 0 <= i < sessions.len() ==> (#[trigger] sessions[i]).closed,
    ensures
        open_peers(sessions) == Seq::<SocketAddr>::empty(),
    decreases sessions.len(),
{
    if sessions.len() > 0 {
        lemma_all_closed(sessions.drop_last());
    }
}

/// Messages are read in the order of their arrival: what arrives later is read later.
pub proof fn law_arrivals_wait_their_turn(
    before: PeerView,
    data: Seq<u8>,
    from: SocketAddr,
    now: u64,
    now_ms: u32,
    arrived: PeerView,
    outcome: Result<Seq<ActionView>>,
)
    requires
        incoming(before, data, from, now, now_ms, arrived, outcome),
    ensures
        before.pending.is_prefix_of(arrived.pending),
        arrived.pending != before.pending ==> outcome == Ok::<Seq<ActionView>, Error>(
            seq![ActionView::DataReady],
        ),
{
    assert(before.pending.is_prefix_of(before.pending));
    match parse_packet(data) {
        Some((PacketType::KcpData, payload)) => {
            let can = spec_canonicalize(from);
            if has_session(before.sessions, can) && outcome is Ok {
                let i = session_index(before.sessions, can);
                let (kcp, _) = kcp_fed(before.sessions[i].kcp, payload);
                let heard = SessionView { kcp, last_rx: now, ..before.sessions[i] };
                let messages = drained_messages(heard.engine());
                let added = messages_from(heard.peer_addr, messages);
                assert(arrived.pending == before.pending + added);
                if messages.len() == 0 {
                    assert(before.pending + added =~= before.pending);
                }
            }
        },
        _ => {},
    }
}

/// When SYN retry `k` is due, in milliseconds, for a first SYN at `start`: the waits before the
/// retries double, so they add up to the base interval times two to the `k`, less one.
pub open spec fn retry_time(start: nat, base_ms: nat, k: nat) -> nat {
    start + base_ms * (pow2(k) - 1) as nat
}

/// The schedule of SYN retries: a handshake that was looked at as each retry fell due sends the
/// next retry at the next time of the schedule, and not before.
pub proof fn law_syn_retry_schedule(
    session: SessionView,
    config: KcpConfig,
    start: nat,
    base_ms: nat,
    k: u32,
    now: u64,
)
    requires
        duration_nanos(config.syn_retry_interval) == base_ms * NANOS_PER_MILLI,
        k < config.syn_max_retries,
        session.state matches SessionState::SynSent { retries, sent_at } && retries == k && sent_at
            == retry_time(start, base_ms, k as nat),
        now >= retry_time(start, base_ms, k as nat),
    ensures
        retry_result(session, config, now) == Ok::<Option<DatagramView>, Error>(
            if now >= retry_time(start, base_ms, (k + 1) as nat) {
                Some(
                    DatagramView {
                        to: session.peer_addr,
                        packet: control_packet(PacketType::Syn, session.conv_id),
                    },
                )
            } else {
                None
            },
        ),
        retried(session, config, now) == if now >= retry_time(start, base_ms, (k + 1) as nat) {
            SessionView {
                state: SessionState::SynSent { retries: (k + 1) as u32, sent_at: now },
                ..session
            }
        } else {
            session
        },
{
    let waits = pow2(k as nat);
    vstd::arithmetic::power2::lemma_pow2_pos(k as nat);
    vstd::arithmetic::power2::lemma_pow2_unfold((k + 1) as nat);
    assert(pow2((k + 1) as nat) == 2 * waits);
    assert(base_ms * (2 * waits - 1) == base_ms * (waits - 1) + base_ms * waits)
        by (nonlinear_arith);
    let sent_at = retry_time(start, base_ms, k as nat);
    assert(retry_time(start, base_ms, (k + 1) as nat) == sent_at + base_ms * waits);
    assert((base_ms * 1_000_000) * waits == (base_ms * waits) * 1_000_000) by (nonlinear_arith);
}

/// A handshake whose retries are spent ends on the next tick.
pub proof fn law_handshake_given_up(
    session: SessionView,
    config: KcpConfig,
    now: u64,
    now_ms: u32,
    answers: Seq<std::io::Result<usize>>,
)
    requires
        session.state matches SessionState::SynSent { retries, .. } && retries
            >= config.syn_max_retries,
        !session.closed,
    ensures
        ticked(session, config, now, now_ms, answers).expired,
        ticked(session, config, now, now_ms, answers).syn is None,
{
}

/// A read loses nothing: what it hands out and what it keeps are the bytes there were. What it
/// keeps is what the next read takes from, and it keeps something only where it filled the
/// buffer.
pub proof fn law_reads_conserve_bytes(
    before: SessionView,
    bytes: Seq<u8>,
    room: nat,
    after: SessionView,
)
    requires
        before.readable() == Ok::<Seq<u8>, KcpError>(bytes),
        bytes_read(before, room, after),
    ensures
        bytes.take(read_size(bytes, room) as int) + after.recv_buf == bytes,
        after.recv_buf.len() > 0 ==> read_size(bytes, room) == room && after.readable() == Ok::<
            Seq<u8>,
            KcpError,
        >(after.recv_buf),
{
    assert(bytes.take(read_size(bytes, room) as int) + after.recv_buf =~= bytes);
}

/// How many fragments a message takes: as many as its bytes fill, the last maybe in part.
pub(crate) proof fn lemma_fragment_count(len: nat, mss: nat)
    requires
        mss > 0,
    ensures
        fragment_count(len, mss) >= 1,
        (fragment_count(len, mss) - 1) * mss <= len,
        len <= fragment_count(len, mss) * mss,
{
    if len > mss {
        let n = len + mss - 1;
        let q = n / mss as int;
        vstd::arithmetic::div_mod::lemma_fundamental_div_mod(n, mss as int);
        vstd::arithmetic::div_mod::lemma_mod_bound(n, mss as int);
        assert(mss * q == q * mss) by (nonlinear_arith);
        assert(q >= 1) by (nonlinear_arith)
            requires
                q * mss + mss > len,
                len > mss,
                mss > 0,
        ;
        assert((q - 1) * mss == q * mss - mss) by (nonlinear_arith);
    } else {
        assert(1 * mss == mss) by (nonlinear_arith);
        assert(0 * mss == 0) by (nonlinear_arith);
    }
}

/// The fragments from one on, followed by anything, span themselves and join to the rest of the
/// message.
pub(crate) proof fn lemma_fragments_from(data: Seq<u8>, mss: nat, rest: Seq<Segment>, i: nat)
    requires
        mss > 0,
        fragment_count(data.len(), mss) < KCP_WND_RCV,
        i < fragment_count(data.len(), mss),
    ensures
        message_span(fragments(data, mss).skip(i as int) + rest) == fragment_count(
            data.len(),
            mss,
        ) - i,
        i * mss <= data.len(),
        joined(fragments(data, mss).skip(i as int)) == data.skip((i * mss) as int),
    decreases fragment_count(data.len(), mss) - i,
{
    let count = fragment_count(data.len(), mss);
    let all = fragments(data, mss);
    let here = all.skip(i as int);
    lemma_fragment_count(data.len(), mss);
    assert(i * mss <= (count - 1) * mss) by (nonlinear_arith)
        requires
            i <= count - 1,
    ;
    assert(here[0] == fragment(data, mss, i as int));
    assert((here + rest)[0] == here[0]);
    assert((here + rest).skip(1) =~= all.skip((i + 1) as int) + rest);
    assert(here.skip(1) =~= all.skip((i + 1) as int));
    assert((i + 1) * mss == i * mss + mss) by (nonlinear_arith);
    if i + 1 < count {
        lemma_fragments_from(data, mss, rest, i + 1);
        assert(here[0].data + data.skip(((i + 1) * mss) as int) =~= data.skip((i * mss) as int));
    } else {
        assert(here.skip(1) =~= Seq::empty());
        assert(joined(here.skip(1)) =~= Seq::<u8>::empty());
        assert(here[0].data + Seq::<u8>::empty() =~= data.skip((i * mss) as int));
    }
}

/// Cutting a message into fragments and joining them gives the message back, whatever follows
/// it in the queue.
pub proof fn law_fragments_rejoin(data: Seq<u8>, mss: nat, rest: Seq<Segment>)
    requires
        mss > 0,
        fragment_count(data.len(), mss) < KCP_WND_RCV,
    ensures
        message_span(fragments(data, mss) + rest) == fragments(data, mss).len(),
        first_message(fragments(data, mss) + rest) == data,
        peek(fragments(data, mss) + rest) == Ok::<nat, KcpError>(data.len()),
{
    let all = fragments(data, mss);
    lemma_fragment_count(data.len(), mss);
    lemma_fragments_from(data, mss, rest, 0);
    assert(all.skip(0) =~= all);
    assert(0 * mss == 0) by (nonlinear_arith);
    assert(data.skip(0) =~= data);
    assert((all + rest).take(all.len() as int) =~= all);
    assert((all + rest)[0] == fragment(data, mss, 0));
}

/// The fragments of messages, one message after the other.
pub open spec fn all_fragments(messages: Seq<Seq<u8>>, mss: nat) -> Seq<Segment>
    decreases messages.len(),
{
    if messages.len() == 0 {
        Seq::empty()
    } else {
        fragments(messages[0], mss) + all_fragments(messages.skip(1), mss)
    }
}

/// The fragments of one message more.
proof fn lemma_all_fragments_push(messages: Seq<Seq<u8>>, data: Seq<u8>, mss: nat)
    ensures
        all_fragments(messages.push(data), mss) == all_fragments(messages, mss) + fragments(
            data,
            mss,
        ),
    decreases messages.len(),
{
    let more = messages.push(data);
    if messages.len() == 0 {
        assert(more.skip(1) =~= Seq::empty());
        assert(all_fragments(more.skip(1), mss) =~= Seq::empty());
        assert(all_fragments(more, mss) =~= fragments(data, mss));
        assert(all_fragments(messages, mss) + fragments(data, mss) =~= fragments(data, mss));
    } else {
        assert(more.skip(1) =~= messages.skip(1).push(data));
        assert(more[0] == messages[0]);
        lemma_all_fragments_push(messages.skip(1), data, mss);
        assert(all_fragments(more, mss) =~= all_fragments(messages, mss) + fragments(data, mss));
    }
}

/// Messages that are sent queue up in order: a session whose unsent segments are the fragments
/// of some messages has, after one more was sent, the fragments of those and of that one.
pub proof fn law_sends_queue_in_order(
    before: SessionView,
    messages: Seq<Seq<u8>>,
    data: Seq<u8>,
    after: SessionView,
)
    requires
        before.engine().unsent == all_fragments(messages, before.engine().mss as nat),
        send_result(before, data) is Ok,
        data_sent(before, data, after),
    ensures
        after.engine().mss == before.engine().mss,
        after.engine().unsent == all_fragments(
            messages.push(data),
            before.engine().mss as nat,
        ),
{
    lemma_all_fragments_push(messages, data, before.engine().mss as nat);
}

/// What is read is what was sent: a session whose engine received the fragments of messages, in
/// order, hands out those messages, whole and in order.
pub proof fn law_messages_read_back(session: SessionView, messages: Seq<Seq<u8>>, mss: nat)
    requires
        session.wf(),
        mss > 0,
        forall|i: int|
            0 <= i < messages.len() ==> fragment_count((#[trigger] messages[i]).len(), mss)
                < KCP_WND_RCV,
        session.engine().received + session.engine().ready == all_fragments(messages, mss),
    ensures
        drained_messages(session.engine()) == messages,
{
    lemma_messages_read_back(session.engine(), messages, mss);
}

/// An engine that uses its receive window hands out the messages whose fragments it received.
proof fn lemma_messages_read_back(state: KcpState, messages: Seq<Seq<u8>>, mss: nat)
    requires
        mss > 0,
        forall|i: int|
            0 <= i < messages.len() ==> fragment_count((#[trigger] messages[i]).len(), mss)
                < KCP_WND_RCV,
        state.received + state.ready == all_fragments(messages, mss),
        state.rcv_wnd >= KCP_WND_RCV,
        window_used(state),
    ensures
        drained_messages(state) == messages,
    decreases messages.len(),
{
    let total = state.received + state.ready;
    if messages.len() == 0 {
        assert(total.len() == 0);
        assert(state.received.len() == 0);
        assert(drained_messages(state) =~= messages);
    } else {
        let first = fragments(messages[0], mss);
        let others = all_fragments(messages.skip(1), mss);
        lemma_fragment_count(messages[0].len(), mss);
        assert(total.len() == first.len() + others.len());
        assert(state.received.len() >= first.len());
        let rest = state.received.skip(first.len() as int);
        assert(state.received =~= first + rest) by {
            assert(state.received =~= total.take(state.received.len() as int));
        }
        law_fragments_rejoin(messages[0], mss, rest);
        let next = after_recv(state);
        assert(next.received + next.ready =~= rest + state.ready);
        assert(rest + state.ready =~= total.skip(first.len() as int));
        assert(total.skip(first.len() as int) =~= others);
        assert forall|i: int| 0 <= i < messages.skip(1).len() implies fragment_count(
            (#[trigger] messages.skip(1)[i]).len(),
            mss,
        ) < KCP_WND_RCV by {
            assert(messages.skip(1)[i] == messages[i + 1]);
        }
        lemma_messages_read_back(next, messages.skip(1), mss);
        assert(drained_messages(state) =~= seq![messages[0]] + messages.skip(1));
        assert(seq![messages[0]] + messages.skip(1) =~= messages);
    }
}

/// At most one session per peer: two places that keep a session of one peer are the same place.
pub proof fn law_one_session_per_peer(peer: PeerView, can: CanonicalAddr, i: int, j: int)
    requires
        peer.wf(),
        keeps(peer.sessions, can, i),
        keeps(peer.sessions, can, j),
    ensures
        i == j,
{
    lemma_index_unique(peer.sessions, can, i);
    lemma_index_unique(peer.sessions, can, j);
}

/// Sending to one peer never touches the session of another.
pub proof fn law_send_touches_one_peer(
    before: PeerView,
    peer: SocketAddr,
    data: Seq<u8>,
    conv: u32,
    now: u64,
    after: PeerView,
    sent: Result<()>,
    actions: Seq<ActionView>,
    other: CanonicalAddr,
)
    requires
        before.wf(),
        send_step(before, peer, data, conv, now, after, sent, actions),
        other != spec_canonicalize(peer),
    ensures
        session_of(after.sessions, other) == session_of(before.sessions, other),
        after.pending == before.pending,
{
    let can = spec_canonicalize(peer);
    let opened = choose|opened: PeerView|
        {
            &&& #[trigger] initiate_step(before, peer, conv, now, opened, actions)
            &&& queue_step(opened, peer, data, after, sent)
        };
    if session_of(before.sessions, can) is None {
        let session = lemma_initiated(before, peer, conv, now, opened, actions);
        law_put_session(before.sessions, session, other);
    }
    let i = session_index(opened.sessions, can);
    assert(keeps(opened.sessions, can, i));
    lemma_update_session(opened.sessions, i, after.sessions[i], other);
}

/// Disconnecting one peer never touches the session of another.
pub proof fn law_disconnect_touches_one_peer(
    before: PeerView,
    peer: SocketAddr,
    after: PeerView,
    actions: Seq<ActionView>,
    other: CanonicalAddr,
)
    requires
        before.wf(),
        disconnect_step(before, peer, after, actions),
        other != spec_canonicalize(peer),
    ensures
        session_of(after.sessions, other) == session_of(before.sessions, other),
        after.pending == before.pending,
{
    law_take_session(before.sessions, spec_canonicalize(peer), other);
}

/// A connection is reported only of the peer whose packet came in, and only where that peer has
/// an established session, or where one waits to be put in and the actions end by having that
/// done.
pub proof fn law_connected_means_established(
    before: PeerView,
    data: Seq<u8>,
    from: SocketAddr,
    now: u64,
    now_ms: u32,
    after: PeerView,
    actions: Seq<ActionView>,
    peer: SocketAddr,
)
    requires
        before.wf(),
        incoming(before, data, from, now, now_ms, after, Ok::<Seq<ActionView>, Error>(actions)),
        actions.contains(ActionView::Emit(Event::Connected(peer))),
    ensures
        peer == from,
        if actions.last() == ActionView::Insert {
            let session = after.lobby.last();
            &&& after.lobby.len() > 0
            &&& session.peer_addr == peer
            &&& session.state == SessionState::Established
            &&& session.last_rx == now
        } else {
            session_of(after.sessions, spec_canonicalize(peer)) matches Some(session)
                && session.state == SessionState::Established && session.last_rx == now
        },
{
    let can = spec_canonicalize(from);
    let i = session_index(before.sessions, can);
    if has_session(before.sessions, can) {
        assert(keeps(before.sessions, can, i));
        if 0 <= i < after.sessions.len() && session_key(after.sessions[i]) == can {
            lemma_update_session(before.sessions, i, after.sessions[i], can);
        }
    }
}

/// A session is gone before its end is reported: where a packet has the end of a session
/// reported, the peer has none any more.
pub proof fn law_disconnected_means_gone(
    before: PeerView,
    data: Seq<u8>,
    from: SocketAddr,
    now: u64,
    now_ms: u32,
    after: PeerView,
    actions: Seq<ActionView>,
    peer: SocketAddr,
)
    requires
        before.wf(),
        incoming(before, data, from, now, now_ms, after, Ok::<Seq<ActionView>, Error>(actions)),
        actions.contains(ActionView::Emit(Event::Disconnected(peer))),
    ensures
        peer == from,
        session_of(after.sessions, spec_canonicalize(peer)) is None,
{
    let can = spec_canonicalize(from);
    law_take_session(before.sessions, can, can);
}

/// The same of a tick: where it reports the end of a session, the peer has none any more.
pub proof fn law_expired_means_gone(
    before: PeerView,
    now: u64,
    now_ms: u32,
    answers: Seq<Seq<std::io::Result<usize>>>,
    after: PeerView,
    actions: Seq<ActionView>,
    peer: SocketAddr,
)
    requires
        before.wf(),
        tick_with(before, now, now_ms, answers, after, actions),
        actions.contains(ActionView::Emit(Event::Disconnected(peer))),
    ensures
        session_of(after.sessions, spec_canonicalize(peer)) is None,
{
    let event = Event::Disconnected(peer);
    law_tick_reports_the_ended(before, now, now_ms, answers, after, actions, event);
    let i = choose|i: int|
        0 <= i < before.sessions.len() && ticked(
            #[trigger] before.sessions[i],
            before.config,
            now,
            now_ms,
            answers[i],
        ).expired && event == Event::Disconnected(before.sessions[i].peer_addr);
    let can = spec_canonicalize(peer);
    assert(keeps(before.sessions, can, i));
    lemma_index_unique(before.sessions, can, i);
    law_tick_session(before, now, now_ms, answers, after, actions, can);
}

/// Where the farewell of a session that ended stands among all farewells.
pub(crate) proof fn lemma_farewell_stands(ticks: Seq<Ticked>, i: int) -> (k: int)
    requires
        0 <= i < ticks.len(),
        ticks[i].expired,
    ensures
        0 <= k,
        k + 4 <= farewells(ticks).len(),
        farewells(ticks).subrange(k, k + 4) == farewell(ticks[i].session),
    decreases ticks.len(),
{
    let rest = ticks.drop_last();
    if i == ticks.len() - 1 {
        let k = farewells(rest).len() as int;
        assert(farewells(ticks).subrange(k, k + 4) =~= farewell(ticks[i].session));
        k
    } else {
        assert(rest[i] == ticks[i]);
        let k = lemma_farewell_stands(rest, i);
        assert(farewells(ticks).subrange(k, k + 4) =~= farewells(rest).subrange(k, k + 4));
        k
    }
}

/// The peer of every session that a tick ends is told: three RESETs of its conversation go out,
/// and the end is reported after them.
pub proof fn law_tick_tells_the_peer(
    before: PeerView,
    now: u64,
    now_ms: u32,
    answers: Seq<Seq<std::io::Result<usize>>>,
    after: PeerView,
    actions: Seq<ActionView>,
    i: int,
)
    requires
        tick_with(before, now, now_ms, answers, after, actions),
        0 <= i < before.sessions.len(),
        ticked(before.sessions[i], before.config, now, now_ms, answers[i]).expired,
    ensures
        exists|k: int|
            0 <= k && k + 4 <= actions.len() && #[trigger] actions.subrange(k, k + 4) == resets(
                before.sessions[i].peer_addr,
                before.sessions[i].conv_id,
            ).push(ActionView::Emit(Event::Disconnected(before.sessions[i].peer_addr))),
{
    let ticks = all_ticked(before.sessions, before.config, now, now_ms, answers);
    let syns = repeated_syns(ticks);
    let k = lemma_farewell_stands(ticks, i);
    let at = syns.len() + k;
    assert(actions.subrange(at, at + 4) =~= farewells(ticks).subrange(k, k + 4));
}

/// A shutdown tells every peer: three RESETs of the conversation for each session, in order.
pub proof fn law_shutdown_tells_every_peer(
    before: PeerView,
    after: PeerView,
    actions: Seq<ActionView>,
    i: int,
)
    requires
        shutdown_step(before, after, actions),
        0 <= i < before.sessions.len(),
    ensures
        actions.len() == 3 * before.sessions.len(),
        actions.subrange(3 * i, 3 * i + 3) == resets(
            before.sessions[i].peer_addr,
            before.sessions[i].conv_id,
        ),
{
    lemma_all_resets(before.sessions, i);
}

/// Where the RESETs of a session stand among all.
proof fn lemma_all_resets(sessions: Seq<SessionView>, i: int)
    requires
        0 <= i < sessions.len(),
    ensures
        all_resets(sessions).len() == 3 * sessions.len(),
        all_resets(sessions).subrange(3 * i, 3 * i + 3) == resets(
            sessions[i].peer_addr,
            sessions[i].conv_id,
        ),
    decreases sessions.len(),
{
    let rest = sessions.drop_last();
    let all = all_resets(sessions);
    if rest.len() == 0 {
        assert(all_resets(rest) =~= Seq::empty());
    } else {
        let j = if i < rest.len() {
            i
        } else {
            0
        };
        lemma_all_resets(rest, j);
        if i < rest.len() {
            assert(all.subrange(3 * i, 3 * i + 3) =~= all_resets(rest).subrange(3 * i, 3 * i + 3));
        }
    }
    if i == rest.len() {
        assert(all.subrange(3 * i, 3 * i + 3) =~= resets(
            sessions[i].peer_addr,
            sessions[i].conv_id,
        ));
    }
}

/// Reads hand out the messages that wait, oldest first, each once: a row of reads gives the
/// first of them, and leaves the others.
pub proof fn law_reads_oldest_first(states: Seq<PeerView>, messages: Seq<MessageView>)
    requires
        states.len() == messages.len() + 1,
        forall|i: int|
            0 <= i < messages.len() ==> #[trigger] recv_step(
                states[i],
                states[i + 1],
                Ok::<Option<MessageView>, Error>(Some(messages[i])),
            ),
    ensures
        messages.is_prefix_of(states[0].pending),
        states.last().pending == states[0].pending.skip(messages.len() as int),
    decreases messages.len(),
{
    if messages.len() == 0 {
        assert(states[0].pending.skip(0) =~= states[0].pending);
    } else {
        let n = messages.len() - 1;
        let fewer = messages.drop_last();
        assert forall|i: int| 0 <= i < fewer.len() implies #[trigger] recv_step(
            states.drop_last()[i],
            states.drop_last()[i + 1],
            Ok::<Option<MessageView>, Error>(Some(fewer[i])),
        ) by {
            assert(recv_step(
                states[i],
                states[i + 1],
                Ok::<Option<MessageView>, Error>(Some(messages[i])),
            ));
        }
        law_reads_oldest_first(states.drop_last(), fewer);
        assert(recv_step(
            states[n],
            states[n + 1],
            Ok::<Option<MessageView>, Error>(Some(messages[n])),
        ));
        assert(states[0].pending.skip(n).skip(1) =~= states[0].pending.skip(n + 1));
        assert(messages =~= fewer.push(messages[n]));
        assert(messages.is_prefix_of(states[0].pending)) by {
            assert(messages =~= states[0].pending.take(messages.len() as int));
        }
    }
}

/// The frame of a segment is as long as its header and its data, and spells its conversation.
proof fn lemma_push_frame(
    conv: u32,
    frg: u8,
    wnd: u16,
    ts: u32,
    sn: u32,
    una: u32,
    data: Seq<u8>,
)
    ensures
        push_frame(conv, frg, wnd, ts, sn, una, data).len() == KCP_OVERHEAD + data.len(),
        conv_of(push_frame(conv, frg, wnd, ts, sn, una, data)) == conv,
{
    let frame = push_frame(conv, frg, wnd, ts, sn, una, data);
    law_conv_round_trip(conv);
    assert(frame[0] == conv_bytes(conv)[0]);
    assert(frame[1] == conv_bytes(conv)[1]);
    assert(frame[2] == conv_bytes(conv)[2]);
    assert(frame[3] == conv_bytes(conv)[3]);
}

/// A packet that carries a whole message in the segment that comes next makes the message
/// readable at once: it is the next to join the messages that wait.
pub proof fn law_next_segment_is_read(
    before: PeerView,
    session: SessionView,
    from: SocketAddr,
    wnd: u16,
    ts: u32,
    una: u32,
    data: Seq<u8>,
    now: u64,
    now_ms: u32,
    after: PeerView,
    outcome: Result<Seq<ActionView>>,
)
    requires
        before.wf(),
        session_of(before.sessions, spec_canonicalize(from)) == Some(session),
        session.engine().received.len() == 0,
        session.engine().ready.len() == 0,
        data.len() <= u32::MAX,
        incoming(
            before,
            data_packet(
                push_frame(session.conv_id, 0, wnd, ts, session.engine().next, una, data),
            ),
            from,
            now,
            now_ms,
            after,
            outcome,
        ),
    ensures
        outcome == Ok::<Seq<ActionView>, Error>(seq![ActionView::DataReady]),
        before.pending.push(
            MessageView { peer: session.peer_addr, data },
        ).is_prefix_of(after.pending),
{
    let frame = push_frame(session.conv_id, 0, wnd, ts, session.engine().next, una, data);
    law_data_round_trip(frame);
    lemma_push_frame(session.conv_id, 0, wnd, ts, session.engine().next, una, data);
    let can = spec_canonicalize(from);
    let i = session_index(before.sessions, can);
    assert(keeps(before.sessions, can, i));
    assert(session.wf());
    let (kcp, taken) = kcp_fed(session.kcp, frame);
    let heard = SessionView { kcp, last_rx: now, ..session };
    let segment = Segment { frg: 0, data };
    let queue = heard.engine().received;
    assert(session.engine().received.push(segment)[0] == segment);
    assert(queue[0] == segment);
    assert(queue.take(1) =~= seq![segment]);
    assert(joined(queue.take(1)) =~= data) by {
        reveal_with_fuel(joined, 2);
        assert(queue.take(1).skip(1) =~= Seq::empty());
    }
    assert(first_message(queue) == data);
    let messages = drained_messages(heard.engine());
    assert(messages[0] == data);
    let added = messages_from(session.peer_addr, messages);
    assert(added[0] == MessageView { peer: session.peer_addr, data });
    assert(after.pending == before.pending + added);
}

/// Data of another conversation is refused and reaches no queue: of the session only when the
/// peer was last heard changes.
pub proof fn law_foreign_data_refused(
    before: PeerView,
    session: SessionView,
    from: SocketAddr,
    frame: Seq<u8>,
    now: u64,
    now_ms: u32,
    after: PeerView,
    outcome: Result<Seq<ActionView>>,
)
    requires
        before.wf(),
        session_of(before.sessions, spec_canonicalize(from)) == Some(session),
        frame.len() >= KCP_OVERHEAD,
        conv_of(frame) != session.conv_id,
        incoming(before, data_packet(frame), from, now, now_ms, after, outcome),
    ensures
        outcome == Err::<Seq<ActionView>, Error>(
            Error::Kcp(KcpError::ConvInconsistent(session.conv_id, conv_of(frame))),
        ),
        session_of(after.sessions, spec_canonicalize(from)) == Some(
            SessionView { last_rx: now, ..session },
        ),
        after.pending == before.pending,
{
    law_data_round_trip(frame);
    let can = spec_canonicalize(from);
    let i = session_index(before.sessions, can);
    assert(keeps(before.sessions, can, i));
    assert(session.wf());
    lemma_update_session(before.sessions, i, after.sessions[i], can);
}

/// The bytes that reads of a session can still give: the rest of a message, then the complete
/// messages one after the other.
pub open spec fn readable_bytes(session: SessionView) -> Seq<u8> {
    session.recv_buf + drained_messages(session.engine()).flatten()
}

/// One read takes its bytes from the front of those that can be read.
proof fn lemma_read_takes_front(before: SessionView, room: nat, after: SessionView)
    requires
        before.readable() is Ok,
        bytes_read(before, room, after),
    ensures
        ({
            let bytes = before.readable()->Ok_0;
            readable_bytes(before) == bytes.take(read_size(bytes, room) as int) + readable_bytes(
                after,
            )
        }),
{
    let bytes = before.readable()->Ok_0;
    let n = read_size(bytes, room) as int;
    let all = drained_messages(before.engine());
    assert(bytes =~= bytes.take(n) + bytes.skip(n));
    if before.recv_buf.len() > 0 {
        assert(readable_bytes(before) =~= bytes.take(n) + readable_bytes(after));
    } else {
        let rest = drained_messages(after_recv(before.engine()));
        assert(all == seq![first_message(before.engine().received)] + rest);
        assert(all.drop_first() =~= rest);
        assert(all.first() == bytes);
        assert(all.flatten() == bytes + rest.flatten());
        assert(readable_bytes(before) =~= bytes.take(n) + readable_bytes(after));
    }
}

/// A row of reads gives the bytes of the messages in order, each byte once, whatever room each
/// read has: what was handed out and what can still be read are what could be read at first.
/// Once a read has to wait, everything that could be read was handed out.
pub proof fn law_reads_give_the_stream(
    sessions: Seq<SessionView>,
    rooms: Seq<nat>,
    pieces: Seq<Seq<u8>>,
)
    requires
        sessions.len() == rooms.len() + 1,
        pieces.len() == rooms.len(),
        forall|i: int|
            0 <= i < rooms.len() ==> (#[trigger] sessions[i]).readable() is Ok && bytes_read(
                sessions[i],
                rooms[i],
                sessions[i + 1],
            ) && pieces[i] == sessions[i].readable()->Ok_0.take(
                read_size(sessions[i].readable()->Ok_0, rooms[i]) as int,
            ),
    ensures
        readable_bytes(sessions[0]) == pieces.flatten() + readable_bytes(sessions.last()),
        sessions.last().readable() is Err ==> readable_bytes(sessions[0]) == pieces.flatten(),
    decreases rooms.len(),
{
    if rooms.len() == 0 {
        assert(pieces.flatten() + readable_bytes(sessions[0]) =~= readable_bytes(sessions[0]));
    } else {
        lemma_read_takes_front(sessions[0], rooms[0], sessions[1]);
        assert forall|i: int| 0 <= i < rooms.skip(1).len() implies (
        #[trigger] sessions.skip(1)[i]).readable() is Ok && bytes_read(
            sessions.skip(1)[i],
            rooms.skip(1)[i],
            sessions.skip(1)[i + 1],
        ) && pieces.skip(1)[i] == sessions.skip(1)[i].readable()->Ok_0.take(
            read_size(sessions.skip(1)[i].readable()->Ok_0, rooms.skip(1)[i]) as int,
        ) by {
            assert(sessions[i + 1].readable() is Ok);
        }
        law_reads_give_the_stream(sessions.skip(1), rooms.skip(1), pieces.skip(1));
        assert(pieces.drop_first() =~= pieces.skip(1));
        assert(pieces.flatten() + readable_bytes(sessions.last()) =~= pieces[0] + (
        pieces.skip(1).flatten() + readable_bytes(sessions.last())));
    }
    if sessions.last().readable() is Err {
        assert(readable_bytes(sessions.last()) =~= Seq::empty());
        assert(pieces.flatten() + Seq::<u8>::empty() =~= pieces.flatten());
    }
}

/// A dead link is pruned: an open session whose link is dead once its timer was driven ends on
/// that tick, whatever the output answered.
pub proof fn law_dead_link_is_pruned(
    session: SessionView,
    config: KcpConfig,
    now: u64,
    now_ms: u32,
    answers: Seq<std::io::Result<usize>>,
)
    requires
        !session.closed,
        driven(session, now_ms, answers).engine().dead,
    ensures
        ticked(session, config, now, now_ms, answers).expired,
{
}

/// A dead link is not fatal: a send on it is refused and changes nothing, the next tick ends the
/// session, and the send after that opens a new one with a handshake of its own.
pub proof fn law_dead_link_then_send_reconnects(
    before: PeerView,
    peer: SocketAddr,
    session: SessionView,
    early: Seq<u8>,
    c0: u32,
    t0: u64,
    refused: PeerView,
    first: Result<()>,
    told: Seq<ActionView>,
    t1: u64,
    m1: u32,
    answers: Seq<Seq<std::io::Result<usize>>>,
    pruned: PeerView,
    ended: Seq<ActionView>,
    data: Seq<u8>,
    conv: u32,
    t2: u64,
    after: PeerView,
    sent: Result<()>,
    actions: Seq<ActionView>,
)
    requires
        before.wf(),
        session_of(before.sessions, spec_canonicalize(peer)) == Some(session),
        !session.closed,
        session.engine().dead,
        send_step(before, peer, early, c0, t0, refused, first, told),
        tick_with(refused, t1, m1, answers, pruned, ended),
        send_step(pruned, peer, data, conv, t2, after, sent, actions),
    ensures
        first == Err::<(), Error>(Error::DeadLink),
        told == Seq::<ActionView>::empty(),
        refused == before,
        session_of(pruned.sessions, spec_canonicalize(peer)) is None,
        ended.contains(ActionView::Emit(Event::Disconnected(session.peer_addr))),
        actions == seq![
            ActionView::Send(
                DatagramView { to: peer, packet: control_packet(PacketType::Syn, conv) },
            ),
        ],
        session_of(after.sessions, spec_canonicalize(peer)) matches Some(opened)
            && opened.conv_id == conv && opened.state == (SessionState::SynSent {
            retries: 0,
            sent_at: t2,
        }),
{
    let can = spec_canonicalize(peer);
    law_send_keeps_session(before, peer, session, early, c0, t0, refused, first, told);
    let opened = choose|opened: PeerView|
        {
            &&& #[trigger] initiate_step(before, peer, c0, t0, opened, told)
            &&& queue_step(opened, peer, early, refused, first)
        };
    assert(opened == before);
    let i = session_index(before.sessions, can);
    assert(keeps(before.sessions, can, i));
    assert(transmitted(before.sessions[i].engine(), all_ticked(
        before.sessions,
        before.config,
        t1,
        m1,
        answers,
    )[i].session.engine()));
    lemma_dead_stays(session, before.config, t1, m1, answers[i]);
    law_dead_link_is_pruned(session, before.config, t1, m1, answers[i]);
    law_tick_session(before, t1, m1, answers, pruned, ended, can);
    law_tick_reports_the_ended(
        before,
        t1,
        m1,
        answers,
        pruned,
        ended,
        Event::Disconnected(session.peer_addr),
    );
    let ticks = all_ticked(before.sessions, before.config, t1, m1, answers);
    let all = ticks.map_values(|tick: Ticked| tick.session);
    assert forall|a: int, b: int| 0 <= a < b < all.len() implies session_key(
        #[trigger] all[a],
    ) != session_key(#[trigger] all[b]) by {
        lemma_ticked_peer(before.sessions[a], before.config, t1, m1, answers[a]);
        lemma_ticked_peer(before.sessions[b], before.config, t1, m1, answers[b]);
        assert(session_key(before.sessions[a]) != session_key(before.sessions[b]));
    }
    lemma_survivors_distinct(ticks);
    law_first_send(pruned, peer, data, conv, t2, after, sent, actions);
}

/// A link that is dead when its timer is driven is dead afterwards.
proof fn lemma_dead_stays(
    session: SessionView,
    config: KcpConfig,
    now: u64,
    now_ms: u32,
    answers: Seq<std::io::Result<usize>>,
)
    requires
        !session.closed,
        session.engine().dead,
        transmitted(
            session.engine(),
            ticked(session, config, now, now_ms, answers).session.engine(),
        ),
    ensures
        driven(session, now_ms, answers).engine().dead,
{
}

/// The size of segments on the wire.
pub open spec fn frames_size(segments: Seq<Segment>) -> nat
    decreases segments.len(),
{
    if segments.len() == 0 {
        0
    } else {
        KCP_OVERHEAD as nat + segments[0].data.len() + frames_size(segments.skip(1))
    }
}

/// Segments that fit as a whole make up one batch, and their frames are as long as their size.
proof fn lemma_frames(
    conv: u32,
    wnd: u16,
    ts: u32,
    sn: u32,
    una: u32,
    segments: Seq<Segment>,
    room: int,
)
    requires
        frames_size(segments) <= room,
    ensures
        batch(segments, room) == segments.len(),
        push_frames(conv, wnd, ts, sn, una, segments).len() == frames_size(segments),
        segments.len() > 0 ==> conv_of(push_frames(conv, wnd, ts, sn, una, segments)) == conv
            && frames_size(segments) >= KCP_OVERHEAD,
        forall|i: int| 0 <= i < segments.len() ==> (#[trigger] segments[i]).data.len() <= room,
    decreases segments.len(),
{
    if segments.len() > 0 {
        let first = segments[0];
        let rest = segments.skip(1);
        lemma_push_frame(conv, first.frg, wnd, ts, sn, una, first.data);
        lemma_frames(
            conv,
            wnd,
            ts,
            advanced(sn, 1),
            una,
            rest,
            room - KCP_OVERHEAD - first.data.len(),
        );
        let head = push_frame(conv, first.frg, wnd, ts, sn, una, first.data);
        let all = push_frames(conv, wnd, ts, sn, una, segments);
        assert(all[0] == head[0] && all[1] == head[1] && all[2] == head[2] && all[3] == head[3]);
        assert forall|i: int| 0 <= i < segments.len() implies (#[trigger] segments[i]).data.len()
            <= room by {
            if i > 0 {
                assert(segments[i] == rest[i - 1]);
            }
        }
    }
}

/// What one side queued during the handshake is what the other side reads. The messages that fit
/// one packet and the windows leave in the first packet that is handed over when the handshake
/// completes, and that packet makes exactly these messages readable at the other side, whole and
/// in order.
pub proof fn law_queued_messages_cross(
    a_session: SessionView,
    messages: Seq<Seq<u8>>,
    now: u64,
    now_ms: u32,
    updating: Seq<std::io::Result<usize>>,
    flushing: Seq<std::io::Result<usize>>,
    a_done: SessionView,
    b0: PeerView,
    b_session: SessionView,
    from: SocketAddr,
    t1: u64,
    m1: u32,
    b1: PeerView,
    outcome: Result<Seq<ActionView>>,
)
    requires
        a_session.wf(),
        a_session.state is SynSent,
        a_session.engine().quiet,
        a_session.engine().no_congestion,
        messages.len() > 0,
        forall|i: int|
            0 <= i < messages.len() ==> fragment_count(
                (#[trigger] messages[i]).len(),
                a_session.engine().mss as nat,
            ) < KCP_WND_RCV,
        a_session.engine().unsent == all_fragments(messages, a_session.engine().mss as nat),
        frames_size(a_session.engine().unsent) <= a_session.engine().mtu,
        a_session.engine().unsent.len() <= a_session.engine().snd_wnd,
        a_session.engine().unsent.len() <= a_session.engine().rmt_wnd,
        establishes(a_session, now, now_ms, updating, flushing, a_done),
        b0.wf(),
        session_of(b0.sessions, spec_canonicalize(from)) == Some(b_session),
        b_session.conv_id == a_session.conv_id,
        b_session.engine().next == a_session.engine().sn,
        b_session.engine().early == 0,
        b_session.engine().ready.len() == 0,
        b_session.engine().received.len() == 0,
        a_session.engine().unsent.len() <= b_session.engine().rcv_wnd,
        incoming(
            b0,
            handed(a_done.engine().output.outlet.queue)[handed(
                a_session.engine().output.outlet.queue,
            ).len() as int].packet,
            from,
            t1,
            m1,
            b1,
            outcome,
        ),
    ensures
        handed(a_done.engine().output.outlet.queue)[handed(
            a_session.engine().output.outlet.queue,
        ).len() as int].to == a_session.peer_addr,
        outcome == Ok::<Seq<ActionView>, Error>(seq![ActionView::DataReady]),
        b1.pending == b0.pending + messages_from(b_session.peer_addr, messages),
{
    let engine = a_session.engine();
    let mss = engine.mss as nat;
    let segments = engine.unsent;
    lemma_fragment_count(messages[0].len(), mss);
    assert(fragment_count(messages[0].len(), mss) < KCP_WND_RCV);
    assert(segments.len() >= fragments(messages[0], mss).len());
    assert(segments.take(segments.len() as int) =~= segments);
    let frame = push_frames(
        engine.conv,
        window_free(engine),
        now_ms,
        engine.sn,
        engine.next,
        segments,
    );
    lemma_frames(
        engine.conv,
        window_free(engine),
        now_ms,
        engine.sn,
        engine.next,
        segments,
        engine.mtu as int,
    );
    law_data_round_trip(frame);
    let can = spec_canonicalize(from);
    let i = session_index(b0.sessions, can);
    assert(keeps(b0.sessions, can, i));
    assert(b_session.wf());
    let (kcp, taken) = kcp_fed(b_session.kcp, frame);
    let heard = SessionView { kcp, last_rx: t1, ..b_session };
    assert(fed(b_session.kcp, frame, taken, kcp));
    assert(heard.engine().received =~= segments);
    assert(heard.engine().received + heard.engine().ready =~= all_fragments(messages, mss));
    lemma_messages_read_back(heard.engine(), messages, mss);
}

} // verus!
