//! What the operations come to, in plain values: what goes out, what is reported and what becomes
//! of a session, from what was there before.

use crate::addr::{addr_after, spec_canonicalize, CanonicalAddr, SocketAddr};
use crate::config::{law_config_reaches_engine, KcpConfig};
use crate::connection::{read_poll, write_poll, Polled};
use crate::engine::{
    after_recv, first_message, fragment_count, fragments, joined, kcp_fed, kcp_flushed, kcp_state,
    kcp_updated, message_span, new_state, peek, transmitted, DatagramView, DirectOutput, KcpState,
    Outlet, Segment,
};
use crate::error::{Error, IoError, KcpError, Result};
use crate::laws::{
    law_expired_means_gone, law_put_session, law_shutdown_tells_every_peer, law_take_session,
    law_tick_session, law_tick_tells_the_peer, lemma_accepted, lemma_fragment_count,
    lemma_fragments_from, lemma_index_unique, lemma_initiated, lemma_last_inserted,
    lemma_survivor_origin, lemma_survivors_at_most, lemma_update_session, lemma_with_all_push,
};
use crate::packet::{control_packet, conv_of, parse_packet, PacketType};
use crate::protocol::{
    adopted, all_ticked, completed, disconnect_step, distinct_peers, farewell, farewells,
    fresh_peer, has_session, incoming, initiate_step, insert_step, keeps, messages_from,
    open_peers, queue_step, recv_step, repeated_syns, resets, send_step, session_index,
    session_key, session_of, shutdown_step, stats_step, survivors, tick_with, ticked, with_all,
    with_session, ActionView, MessageView, PeerView, Ticked,
};
use crate::session::{
    bytes_read, data_sent, drained_messages, drained_state, drives, establishes,
    lemma_after_recv_shrinks, lemma_message_span, read_size, retried, retry_result, send_result,
    SessionState, SessionView,
};
use crate::time::duration_nanos;
use crate::transport::{Event, PeerStats};
use kcp::Kcp;
use vstd::arithmetic::power2::pow2;
use vstd::prelude::*;

verus! {

/// How long a message may be: an open session takes every message of up to 127 segments, and
/// refuses a longer one as too big. A closed session takes none.
pub proof fn law_message_size(session: SessionView, data: Seq<u8>)
    requires
        session.engine().mss > 0,
    ensures
        send_result(session, data) is Ok <==> !session.closed && data.len() <= 127
            * session.engine().mss,
        send_result(session, data) == Err::<(), Error>(Error::SessionClosed) <==> session.closed,
        send_result(session, data) == Err::<(), Error>(Error::Kcp(KcpError::UserBufTooBig)) <==>
            !session.closed && data.len() > 127 * session.engine().mss,
{
    let mss = session.engine().mss as nat;
    let count = fragment_count(data.len(), mss);
    lemma_fragment_count(data.len(), mss);
    if count <= 127 {
        assert(count * mss <= 127 * mss) by (nonlinear_arith)
            requires
                count <= 127,
        ;
    } else if data.len() > mss {
        let n = data.len() + mss - 1;
        vstd::arithmetic::div_mod::lemma_fundamental_div_mod(n, mss as int);
        vstd::arithmetic::div_mod::lemma_mod_bound(n, mss as int);
        assert(mss * count >= mss * 128) by (nonlinear_arith)
            requires
                count >= 128,
        ;
        assert(mss * 128 == 128 * mss) by (nonlinear_arith);
    }
}

/// What sending does: the bytes of the message wait behind all that waited before, and nothing
/// else of the session changes. A message that is refused changes nothing.
pub proof fn law_sent_bytes_are_queued(before: SessionView, data: Seq<u8>, after: SessionView)
    requires
        before.engine().mss > 0,
        data_sent(before, data, after),
    ensures
        !before.closed && data.len() <= 127 * before.engine().mss ==> {
            let waited = before.engine().unsent;
            let waiting = after.engine().unsent;
            &&& waited.is_prefix_of(waiting)
            &&& joined(waiting.skip(waited.len() as int)) == data
            &&& waiting.last().frg == 0
            &&& after == (SessionView { kcp: after.kcp, ..before })
            &&& after.engine() == (KcpState { unsent: waiting, ..before.engine() })
        },
        before.closed || data.len() > 127 * before.engine().mss ==> after == before,
{
    let mss = before.engine().mss as nat;
    law_message_size(before, data);
    if send_result(before, data) is Ok {
        let all = fragments(data, mss);
        lemma_fragment_count(data.len(), mss);
        lemma_fragments_from(data, mss, Seq::empty(), 0);
        assert(0 * mss == 0) by (nonlinear_arith);
        assert(data.skip(0) =~= data);
        assert(all.skip(0) =~= all);
        assert(after.engine().unsent.skip(before.engine().unsent.len() as int) =~= all);
    }
}

/// What driving a session's timer does and returns. Before the handshake is done, nothing. Then
/// KCP is updated, and nothing else of the session changes. A link that KCP found dead is
/// reported before anything else, then a failure of KCP; otherwise the segments are counted that
/// the peer has not acknowledged.
pub proof fn law_update_reports(
    before: SessionView,
    now_ms: u32,
    answers: Seq<std::io::Result<usize>>,
    after: SessionView,
    waiting: Result<usize>,
)
    requires
        drives(before, now_ms, answers, after, waiting),
    ensures
        before.state is SynSent ==> after == before,
        !(before.state is SynSent) ==> after == (SessionView {
            kcp: kcp_updated(before.kcp, now_ms, answers).0,
            ..before
        }),
        waiting == Err::<usize, Error>(Error::DeadLink) <==> after.engine().dead,
        !after.engine().dead && !(before.state is SynSent) ==> match kcp_updated(
            before.kcp,
            now_ms,
            answers,
        ).1 {
            Err(err) => waiting == Err::<usize, Error>(Error::Kcp(err)),
            Ok(_) => waiting is Ok,
        },
        !after.engine().dead && before.state is SynSent ==> waiting is Ok,
        waiting matches Ok(n) ==> (after.engine().in_flight + after.engine().unsent.len()
            <= usize::MAX ==> n == after.engine().in_flight + after.engine().unsent.len()),
{
}

/// The milliseconds from one instant to another, none where the clock went back.
pub open spec fn millis_between(start: u64, now: u64) -> int {
    if now >= start {
        now - start
    } else {
        0
    }
}

/// The handshake timer: a SYN is sent again once the wait, the base interval doubled for each
/// retry so far, has passed since the last one, as long as retries are left. It is then counted,
/// and the next wait starts. Once all retries are spent the handshake has failed. A session that
/// is past its handshake sends no SYN.
pub proof fn law_handshake_timer(session: SessionView, config: KcpConfig, now: u64)
    ensures
        match session.state {
            SessionState::SynSent { retries, sent_at } => {
                let due = millis_between(sent_at, now) * 1_000_000 >= duration_nanos(
                    config.syn_retry_interval,
                ) * pow2(retries as nat);
                &&& retries >= config.syn_max_retries ==> {
                    &&& retry_result(session, config, now) == Err::<
                        Option<DatagramView>,
                        Error,
                    >(Error::DeadLink)
                    &&& retried(session, config, now) == session
                }
                &&& retries < config.syn_max_retries && due ==> {
                    &&& retry_result(session, config, now) == Ok::<Option<DatagramView>, Error>(
                        Some(
                            DatagramView {
                                to: session.peer_addr,
                                packet: control_packet(PacketType::Syn, session.conv_id),
                            },
                        ),
                    )
                    &&& retried(session, config, now) == (SessionView {
                        state: SessionState::SynSent {
                            retries: (retries + 1) as u32,
                            sent_at: now,
                        },
                        ..session
                    })
                }
                &&& retries < config.syn_max_retries && !due ==> {
                    &&& retry_result(session, config, now) == Ok::<Option<DatagramView>, Error>(
                        None,
                    )
                    &&& retried(session, config, now) == session
                }
            },
            _ => {
                &&& retry_result(session, config, now) == Ok::<Option<DatagramView>, Error>(None)
                &&& retried(session, config, now) == session
            },
        },
{
}

/// A read takes as many bytes as there are and as the buffer has room for. What it leaves of a
/// message is read next, and a message that was begun is gone from KCP.
pub proof fn law_read_fills_the_buffer(
    before: SessionView,
    bytes: Seq<u8>,
    room: nat,
    after: SessionView,
)
    requires
        before.readable() == Ok::<Seq<u8>, KcpError>(bytes),
        bytes_read(before, room, after),
    ensures
        before.recv_buf.len() > 0 ==> bytes == before.recv_buf,
        before.recv_buf.len() == 0 ==> bytes == first_message(before.engine().received),
        room <= bytes.len() ==> read_size(bytes, room) == room && after.recv_buf == bytes.skip(
            room as int,
        ),
        room >= bytes.len() ==> read_size(bytes, room) == bytes.len() && after.recv_buf.len() == 0,
        after == (SessionView { kcp: after.kcp, recv_buf: after.recv_buf, ..before }),
        before.recv_buf.len() > 0 ==> after.engine() == before.engine(),
        before.recv_buf.len() == 0 ==> after.engine() == after_recv(before.engine()),
{
}

/// What a read that is polled comes to. A closed session is a reset connection. What is left of a
/// message is read first, then the next message that is complete; with nothing received the read
/// waits, and a message whose fragments are not all there is an error.
pub proof fn law_polled_read(session: SessionView, room: nat)
    requires
        room <= usize::MAX,
    ensures
        session.closed <==> read_poll(session, room) == Polled::Failed(IoError::SessionClosed),
        !session.closed && session.recv_buf.len() > 0 ==> read_poll(session, room)
            == Polled::Ready(
            (if room <= session.recv_buf.len() {
                room
            } else {
                session.recv_buf.len()
            }) as usize,
        ),
        !session.closed && session.recv_buf.len() == 0 ==> match peek(session.engine().received) {
            Ok(len) => read_poll(session, room) == Polled::Ready(
                (if room <= len {
                    room
                } else {
                    len
                }) as usize,
            ),
            Err(err) => if session.engine().received.len() == 0 {
                read_poll(session, room) == Polled::Pending
            } else {
                read_poll(session, room) == Polled::Failed(IoError::Kcp(err))
            },
        },
{
}

/// What a write that is polled comes to. A closed session is a reset connection. A message that
/// the session takes is written whole, and one that is too big waits.
pub proof fn law_polled_write(session: SessionView, data: Seq<u8>)
    requires
        session.engine().mss > 0,
        data.len() <= usize::MAX,
    ensures
        session.closed ==> write_poll(session, data) == Polled::Failed(IoError::SessionClosed),
        !session.closed && data.len() <= 127 * session.engine().mss ==> write_poll(session, data)
            == Polled::Ready(data.len() as usize),
        !session.closed && data.len() > 127 * session.engine().mss ==> write_poll(session, data)
            == Polled::Pending,
{
    law_message_size(session, data);
}

/// The bytes of messages, one message after the other.
pub open spec fn concatenated(messages: Seq<Seq<u8>>) -> Seq<u8>
    decreases messages.len(),
{
    if messages.len() == 0 {
        Seq::empty()
    } else {
        messages[0] + concatenated(messages.skip(1))
    }
}

/// The bytes of two rows of segments.
proof fn lemma_joined_append(a: Seq<Segment>, b: Seq<Segment>)
    ensures
        joined(a + b) == joined(a) + joined(b),
    decreases a.len(),
{
    if a.len() == 0 {
        assert(a + b =~= b);
        assert(joined(a) + joined(b) =~= joined(b));
    } else {
        assert((a + b).skip(1) =~= a.skip(1) + b);
        lemma_joined_append(a.skip(1), b);
        assert(joined(a + b) =~= joined(a) + joined(b));
    }
}

/// Draining an engine reads every message that is complete and nothing else: what is left starts
/// with no complete message, and the bytes that were read and those that are left are the bytes
/// there were, in order.
pub proof fn law_drained_completely(state: KcpState)
    ensures
        peek(drained_state(state).received) is Err,
        concatenated(drained_messages(state)) + joined(
            drained_state(state).received + drained_state(state).ready,
        ) == joined(state.received + state.ready),
        peek(state.received) is Ok <==> drained_messages(state).len() > 0,
    decreases state.received.len() + state.ready.len(),
{
    let total = state.received + state.ready;
    if peek(state.received) is Err {
        assert(concatenated(drained_messages(state)) + joined(total) =~= joined(total));
    } else {
        let next = after_recv(state);
        let span = message_span(state.received) as int;
        lemma_message_span(state.received);
        lemma_after_recv_shrinks(state);
        law_drained_completely(next);
        let first = state.received.take(span);
        assert(next.received + next.ready =~= total.skip(span));
        assert(total =~= first + total.skip(span));
        lemma_joined_append(first, total.skip(span));
        let messages = drained_messages(state);
        assert(messages[0] == first_message(state.received));
        assert(messages.skip(1) =~= drained_messages(next));
        let left = joined(drained_state(state).received + drained_state(state).ready);
        assert(concatenated(messages) + left =~= joined(first) + (concatenated(messages.skip(1))
            + left));
    }
}

/// A datagram that carries a type byte and, behind it, a conversation id, the lowest byte first.
/// What follows them does not matter.
pub open spec fn carries(data: Seq<u8>, typ: u8, conv: u32) -> bool {
    &&& data.len() >= 5
    &&& data[0] == typ
    &&& data[1] + 0x100 * data[2] + 0x1_0000 * data[3] + 0x100_0000 * data[4] == conv
}

/// How a datagram that carries a conversation id is taken apart.
proof fn lemma_carried(data: Seq<u8>, typ: u8, conv: u32)
    requires
        carries(data, typ, conv),
        typ <= 3,
    ensures
        parse_packet(data) == Some((PacketType::of_byte(typ)->0, data.skip(1))),
        data.skip(1).len() >= 4,
        conv_of(data.skip(1)) == conv,
{
}

/// What completing a handshake leaves of a session.
proof fn lemma_completed(before: SessionView, now: u64, now_ms: u32, after: SessionView)
    requires
        completed(before, now, now_ms, after),
    ensures
        after == (SessionView {
            kcp: after.kcp,
            state: SessionState::Established,
            last_rx: now,
            ..before
        }),
        transmitted(before.engine(), after.engine()),
        after.engine().clock == now_ms,
{
    let (updating, flushing) = choose|
        updating: Seq<std::io::Result<usize>>,
        flushing: Seq<std::io::Result<usize>>,
    | #[trigger] establishes(before, now, now_ms, updating, flushing, after);
    assert(establishes(before, now, now_ms, updating, flushing, after));
}

/// A handshake that completes brings KCP up to the clock and flushes it at once, whatever was
/// queued and whatever the output answers.
pub proof fn law_completion_flushes(
    before: SessionView,
    now: u64,
    now_ms: u32,
    after: SessionView,
)
    requires
        completed(before, now, now_ms, after),
    ensures
        exists|updating: Seq<std::io::Result<usize>>, flushing: Seq<std::io::Result<usize>>|
            after.kcp == (#[trigger] kcp_flushed(
                (#[trigger] kcp_updated(before.kcp, now_ms, updating)).0,
                flushing,
            )).0,
        after.state == SessionState::Established,
        after.last_rx == now,
        after.engine().clock == now_ms,
        after.engine().in_flight + after.engine().unsent.len() == before.engine().in_flight
            + before.engine().unsent.len(),
{
    let (updating, flushing) = choose|
        updating: Seq<std::io::Result<usize>>,
        flushing: Seq<std::io::Result<usize>>,
    | #[trigger] establishes(before, now, now_ms, updating, flushing, after);
    let updated = kcp_updated(before.kcp, now_ms, updating);
    assert(after.kcp == kcp_flushed(updated.0, flushing).0);
}

/// A SYN from a peer without a session is acknowledged, the connection is reported, and once the
/// actions are performed the peer has a session: established in the conversation of the SYN, open,
/// heard at that instant, with nothing queued or received, and configured as the transport is.
pub proof fn law_syn_opens_a_session(
    before: PeerView,
    data: Seq<u8>,
    conv: u32,
    from: SocketAddr,
    now: u64,
    now_ms: u32,
    reported: PeerView,
    outcome: Result<Seq<ActionView>>,
    after: PeerView,
)
    requires
        before.wf(),
        carries(data, 1, conv),
        session_of(before.sessions, spec_canonicalize(from)) is None,
        incoming(before, data, from, now, now_ms, reported, outcome),
        insert_step(reported, after),
    ensures
        outcome == Ok::<Seq<ActionView>, Error>(
            seq![
                ActionView::Send(
                    DatagramView { to: from, packet: control_packet(PacketType::SynAck, conv) },
                ),
                ActionView::Emit(Event::Connected(from)),
                ActionView::Insert,
            ],
        ),
        session_of(after.sessions, spec_canonicalize(from)) matches Some(session) && {
            &&& session.state == SessionState::Established
            &&& session.conv_id == conv && session.engine().conv == conv
            &&& session.peer_addr == from && session.engine().output.peer == from
            &&& session.incarnation == before.incarnation
            &&& session.last_rx == now
            &&& !session.closed && !session.engine().dead
            &&& session.recv_buf.len() == 0 && session.engine().received.len() == 0
            &&& session.engine().unsent.len() == 0 && session.engine().in_flight == 0
            &&& session.engine() == before.config.applied(
                new_state(conv, DirectOutput { outlet: before.outlet, peer: from }),
            )
        },
{
    lemma_carried(data, 1, conv);
    let session = lemma_accepted(before, conv, from, now, reported);
    lemma_last_inserted(reported, before.lobby, session);
}

/// A SYN of the conversation that a peer's session is in. An established session acknowledges it
/// and has heard the peer at that instant; nothing else changes and nothing is reported. Any other
/// session ignores it.
pub proof fn law_syn_of_the_conversation(
    before: PeerView,
    session: SessionView,
    data: Seq<u8>,
    from: SocketAddr,
    now: u64,
    now_ms: u32,
    after: PeerView,
    outcome: Result<Seq<ActionView>>,
)
    requires
        before.wf(),
        session_of(before.sessions, spec_canonicalize(from)) == Some(session),
        carries(data, 1, session.conv_id),
        incoming(before, data, from, now, now_ms, after, outcome),
    ensures
        session.state == SessionState::Established ==> {
            &&& session_of(after.sessions, spec_canonicalize(from)) == Some(
                SessionView { last_rx: now, ..session },
            )
            &&& after == (PeerView { sessions: after.sessions, ..before })
            &&& outcome == Ok::<Seq<ActionView>, Error>(
                seq![
                    ActionView::Send(
                        DatagramView {
                            to: from,
                            packet: control_packet(PacketType::SynAck, session.conv_id),
                        },
                    ),
                ],
            )
        },
        session.state != SessionState::Established ==> after == before && outcome == Ok::<
            Seq<ActionView>,
            Error,
        >(Seq::empty()),
{
    lemma_carried(data, 1, session.conv_id);
    let can = spec_canonicalize(from);
    let i = session_index(before.sessions, can);
    assert(keeps(before.sessions, can, i));
    if session.state == SessionState::Established {
        lemma_update_session(before.sessions, i, after.sessions[i], can);
    }
}

/// The SYN of a peer whose session is in its own handshake, in another conversation, completes
/// both handshakes. The session moves to the peer's conversation where the peer's address comes
/// after the local one, and keeps its own otherwise. It is established and has heard the peer at
/// that instant. The connection is reported, and the conversation that was settled on is
/// acknowledged. What was queued is in flight or still queued.
pub proof fn law_syn_meets_a_handshake(
    before: PeerView,
    session: SessionView,
    data: Seq<u8>,
    conv: u32,
    from: SocketAddr,
    now: u64,
    now_ms: u32,
    after: PeerView,
    outcome: Result<Seq<ActionView>>,
)
    requires
        before.wf(),
        session_of(before.sessions, spec_canonicalize(from)) == Some(session),
        session.state is SynSent,
        session.conv_id != conv,
        carries(data, 1, conv),
        incoming(before, data, from, now, now_ms, after, outcome),
    ensures
        ({
            let settled = if addr_after(from, before.local_addr) {
                conv
            } else {
                session.conv_id
            };
            &&& session_of(after.sessions, spec_canonicalize(from)) matches Some(done) && {
                &&& done == (SessionView {
                    kcp: done.kcp,
                    state: SessionState::Established,
                    conv_id: settled,
                    last_rx: now,
                    ..session
                })
                &&& transmitted(
                    KcpState { conv: settled, ..session.engine() },
                    done.engine(),
                )
                &&& done.engine().clock == now_ms
            }
            &&& after == (PeerView { sessions: after.sessions, ..before })
            &&& outcome == Ok::<Seq<ActionView>, Error>(
                seq![
                    ActionView::Emit(Event::Connected(from)),
                    ActionView::Send(
                        DatagramView {
                            to: from,
                            packet: control_packet(PacketType::SynAck, settled),
                        },
                    ),
                ],
            )
        }),
{
    lemma_carried(data, 1, conv);
    let can = spec_canonicalize(from);
    let i = session_index(before.sessions, can);
    assert(keeps(before.sessions, can, i));
    if addr_after(from, before.local_addr) {
        let yielded = choose|yielded: SessionView|
            {
                &&& #[trigger] adopted(session, conv, yielded)
                &&& completed(yielded, now, now_ms, after.sessions[i])
            };
        lemma_completed(yielded, now, now_ms, after.sessions[i]);
    } else {
        lemma_completed(session, now, now_ms, after.sessions[i]);
        assert(session.engine() == (KcpState { conv: session.conv_id, ..session.engine() }));
    }
    lemma_update_session(before.sessions, i, after.sessions[i], can);
}

/// The SYN of another conversation from a peer whose session is past its handshake: the peer has
/// restarted. Its session is closed at once, the restart and the new connection are reported, in
/// that order, and once the actions are performed a fresh session is in the place of the old.
pub proof fn law_syn_restarts(
    before: PeerView,
    session: SessionView,
    data: Seq<u8>,
    conv: u32,
    from: SocketAddr,
    now: u64,
    now_ms: u32,
    reported: PeerView,
    outcome: Result<Seq<ActionView>>,
    after: PeerView,
)
    requires
        before.wf(),
        session_of(before.sessions, spec_canonicalize(from)) == Some(session),
        !(session.state is SynSent),
        session.conv_id != conv,
        carries(data, 1, conv),
        incoming(before, data, from, now, now_ms, reported, outcome),
        insert_step(reported, after),
    ensures
        outcome == Ok::<Seq<ActionView>, Error>(
            seq![
                ActionView::Emit(Event::PeerRestarted(from)),
                ActionView::Send(
                    DatagramView { to: from, packet: control_packet(PacketType::SynAck, conv) },
                ),
                ActionView::Emit(Event::Connected(from)),
                ActionView::Insert,
            ],
        ),
        session_of(reported.sessions, spec_canonicalize(from)) == Some(
            SessionView { closed: true, ..session },
        ),
        session_of(after.sessions, spec_canonicalize(from)) matches Some(fresh) && {
            &&& fresh.state == SessionState::Established
            &&& fresh.conv_id == conv && fresh.engine().conv == conv
            &&& fresh.peer_addr == from && fresh.engine().output.peer == from
            &&& fresh.incarnation == before.incarnation
            &&& fresh.last_rx == now
            &&& !fresh.closed && !fresh.engine().dead
            &&& fresh.recv_buf.len() == 0 && fresh.engine().received.len() == 0
            &&& fresh.engine().unsent.len() == 0 && fresh.engine().in_flight == 0
            &&& fresh.engine() == before.config.applied(
                new_state(conv, DirectOutput { outlet: before.outlet, peer: from }),
            )
        },
        after.pending == before.pending,
{
    lemma_carried(data, 1, conv);
    let can = spec_canonicalize(from);
    let i = session_index(before.sessions, can);
    assert(keeps(before.sessions, can, i));
    let old_closed = SessionView { closed: true, ..session };
    let closed = PeerView { sessions: before.sessions.update(i, old_closed), ..before };
    lemma_update_session(before.sessions, i, old_closed, can);
    let fresh = lemma_accepted(closed, conv, from, now, reported);
    lemma_last_inserted(reported, closed.lobby, fresh);
}

/// A SYN_ACK completes the handshake of its conversation: the session is established, has heard
/// the peer at that instant and keeps all else, what was queued is in flight or still queued, and
/// the connection is reported. A SYN_ACK that no handshake waits for changes nothing and is
/// answered by nothing.
pub proof fn law_syn_ack_completes(
    before: PeerView,
    data: Seq<u8>,
    conv: u32,
    from: SocketAddr,
    now: u64,
    now_ms: u32,
    after: PeerView,
    outcome: Result<Seq<ActionView>>,
)
    requires
        before.wf(),
        carries(data, 2, conv),
        incoming(before, data, from, now, now_ms, after, outcome),
    ensures
        match session_of(before.sessions, spec_canonicalize(from)) {
            Some(session) if session.state is SynSent && session.conv_id == conv => {
                &&& session_of(after.sessions, spec_canonicalize(from)) matches Some(done) && {
                    &&& done == (SessionView {
                        kcp: done.kcp,
                        state: SessionState::Established,
                        last_rx: now,
                        ..session
                    })
                    &&& transmitted(session.engine(), done.engine())
                    &&& done.engine().clock == now_ms
                }
                &&& after == (PeerView { sessions: after.sessions, ..before })
                &&& outcome == Ok::<Seq<ActionView>, Error>(
                    seq![ActionView::Emit(Event::Connected(from))],
                )
            },
            _ => after == before && outcome == Ok::<Seq<ActionView>, Error>(Seq::empty()),
        },
{
    lemma_carried(data, 2, conv);
    let can = spec_canonicalize(from);
    let i = session_index(before.sessions, can);
    if has_session(before.sessions, can) {
        assert(keeps(before.sessions, can, i));
        if before.sessions[i].state is SynSent && before.sessions[i].conv_id == conv {
            lemma_completed(before.sessions[i], now, now_ms, after.sessions[i]);
            lemma_update_session(before.sessions, i, after.sessions[i], can);
        }
    }
}

/// A RESET ends the session of its conversation, whatever its state, and the end is reported. A
/// RESET of any other conversation changes nothing. It is never answered.
pub proof fn law_reset_ends(
    before: PeerView,
    data: Seq<u8>,
    conv: u32,
    from: SocketAddr,
    now: u64,
    now_ms: u32,
    after: PeerView,
    outcome: Result<Seq<ActionView>>,
)
    requires
        before.wf(),
        carries(data, 3, conv),
        incoming(before, data, from, now, now_ms, after, outcome),
    ensures
        match session_of(before.sessions, spec_canonicalize(from)) {
            Some(session) if session.conv_id == conv => {
                &&& session_of(after.sessions, spec_canonicalize(from)) is None
                &&& after.sessions.len() == before.sessions.len() - 1
                &&& after == (PeerView { sessions: after.sessions, ..before })
                &&& outcome == Ok::<Seq<ActionView>, Error>(
                    seq![ActionView::Emit(Event::Disconnected(from))],
                )
            },
            _ => after == before && outcome == Ok::<Seq<ActionView>, Error>(Seq::empty()),
        },
{
    lemma_carried(data, 3, conv);
    let can = spec_canonicalize(from);
    if has_session(before.sessions, can) {
        assert(keeps(before.sessions, can, session_index(before.sessions, can)));
        law_take_session(before.sessions, can, can);
    }
}

/// What becomes of a datagram that is no packet: an empty one and one of no known type are taken
/// for empty packets, and a control packet cut short is named by its type. None changes anything.
pub proof fn law_malformed_is_named(
    before: PeerView,
    data: Seq<u8>,
    from: SocketAddr,
    now: u64,
    now_ms: u32,
    after: PeerView,
    outcome: Result<Seq<ActionView>>,
)
    requires
        incoming(before, data, from, now, now_ms, after, outcome),
    ensures
        data.len() == 0 || data[0] > 3 ==> after == before && outcome == Err::<
            Seq<ActionView>,
            Error,
        >(Error::Io(IoError::EmptyPacket)),
        0 < data.len() < 5 && data[0] == 1 ==> after == before && outcome == Err::<
            Seq<ActionView>,
            Error,
        >(Error::Io(IoError::TruncatedSyn)),
        0 < data.len() < 5 && data[0] == 2 ==> after == before && outcome == Err::<
            Seq<ActionView>,
            Error,
        >(Error::Io(IoError::TruncatedSynAck)),
        0 < data.len() < 5 && data[0] == 3 ==> after == before && outcome == Err::<
            Seq<ActionView>,
            Error,
        >(Error::Io(IoError::TruncatedReset)),
        data.len() >= 5 && 1 <= data[0] <= 3 ==> outcome is Ok,
{
}

/// Whenever a data packet comes from a peer that has a session, accepted by KCP or not, the
/// session has heard the peer at that instant. It stays open or closed, in its conversation and
/// its state, and what was left of a message stays too.
pub proof fn law_data_is_heard(
    before: PeerView,
    session: SessionView,
    data: Seq<u8>,
    from: SocketAddr,
    now: u64,
    now_ms: u32,
    after: PeerView,
    outcome: Result<Seq<ActionView>>,
)
    requires
        before.wf(),
        session_of(before.sessions, spec_canonicalize(from)) == Some(session),
        data.len() > 0,
        data[0] == 0,
        incoming(before, data, from, now, now_ms, after, outcome),
    ensures
        session_of(after.sessions, spec_canonicalize(from)) matches Some(heard) && {
            &&& heard.last_rx == now
            &&& heard.conv_id == session.conv_id
            &&& heard.state == session.state
            &&& heard.closed == session.closed
            &&& heard.incarnation == session.incarnation
            &&& heard.recv_buf == session.recv_buf
            &&& heard.peer_addr == session.peer_addr
        },
        after.sessions.len() == before.sessions.len(),
{
    let can = spec_canonicalize(from);
    let i = session_index(before.sessions, can);
    assert(keeps(before.sessions, can, i));
    lemma_update_session(before.sessions, i, after.sessions[i], can);
}

/// What a data packet from a peer that has a session comes to. The frame behind the type byte is
/// fed to the session's KCP. What KCP refuses is an error, and no message becomes readable. What
/// it takes completes messages or not: those that are complete become readable, from the peer's
/// address, behind all that wait, and KCP is left with no complete message. That data is ready is
/// told once, and only where a message became readable.
pub proof fn law_data_becomes_readable(
    before: PeerView,
    session: SessionView,
    data: Seq<u8>,
    from: SocketAddr,
    now: u64,
    now_ms: u32,
    after: PeerView,
    outcome: Result<Seq<ActionView>>,
)
    requires
        before.wf(),
        session_of(before.sessions, spec_canonicalize(from)) == Some(session),
        data.len() > 0,
        data[0] == 0,
        incoming(before, data, from, now, now_ms, after, outcome),
    ensures
        ({
            let (kcp, taken) = kcp_fed(session.kcp, data.skip(1));
            let heard = session_of(after.sessions, spec_canonicalize(from))->0;
            match taken {
                Err(err) => {
                    &&& outcome == Err::<Seq<ActionView>, Error>(Error::Kcp(err))
                    &&& after.pending == before.pending
                    &&& heard.kcp == kcp
                },
                Ok(_) => {
                    let messages = after.pending.skip(before.pending.len() as int);
                    &&& before.pending.is_prefix_of(after.pending)
                    &&& messages.map_values(|message: MessageView| message.data)
                        == drained_messages(kcp_state(kcp))
                    &&& forall|k: int|
                        0 <= k < messages.len() ==> (#[trigger] messages[k]).peer
                            == session.peer_addr
                    &&& heard.engine() == drained_state(kcp_state(kcp))
                    &&& messages.len() > 0 ==> outcome == Ok::<Seq<ActionView>, Error>(
                        seq![ActionView::DataReady],
                    )
                    &&& messages.len() == 0 ==> outcome == Ok::<Seq<ActionView>, Error>(
                        Seq::empty(),
                    )
                },
            }
        }),
        after.lobby == before.lobby,
{
    let can = spec_canonicalize(from);
    let i = session_index(before.sessions, can);
    assert(keeps(before.sessions, can, i));
    lemma_update_session(before.sessions, i, after.sessions[i], can);
    let (kcp, taken) = kcp_fed(session.kcp, data.skip(1));
    if taken is Ok {
        let drained = drained_messages(kcp_state(kcp));
        let messages = after.pending.skip(before.pending.len() as int);
        assert(messages =~= messages_from(session.peer_addr, drained));
        assert(messages.map_values(|message: MessageView| message.data) =~= drained);
        assert(before.pending =~= after.pending.take(before.pending.len() as int));
    }
}

/// Data from a peer without a session changes nothing. Where it is long enough to name its
/// conversation, the sender is answered by exactly three RESETs of that conversation; shorter
/// data is answered by nothing.
pub proof fn law_data_without_a_session(
    before: PeerView,
    data: Seq<u8>,
    from: SocketAddr,
    now: u64,
    now_ms: u32,
    after: PeerView,
    outcome: Result<Seq<ActionView>>,
)
    requires
        session_of(before.sessions, spec_canonicalize(from)) is None,
        data.len() > 0,
        data[0] == 0,
        incoming(before, data, from, now, now_ms, after, outcome),
    ensures
        after == before,
        forall|conv: u32| #[trigger]
            carries(data, 0, conv) ==> {
                let reset = ActionView::Send(
                    DatagramView { to: from, packet: control_packet(PacketType::Reset, conv) },
                );
                outcome == Ok::<Seq<ActionView>, Error>(seq![reset, reset, reset])
            },
        data.len() < 5 ==> outcome == Ok::<Seq<ActionView>, Error>(Seq::empty()),
{
}

/// The KCP engine of a session after a tick: updated where the handshake is done, untouched
/// before.
pub open spec fn engine_ticked(
    session: SessionView,
    now_ms: u32,
    answers: Seq<std::io::Result<usize>>,
) -> Kcp<DirectOutput> {
    if session.state is SynSent {
        session.kcp
    } else {
        kcp_updated(session.kcp, now_ms, answers).0
    }
}

/// When a tick ends a session. It must be open, and one of three things must hold: KCP has found
/// the link dead, the handshake has spent its retries, or the peer was not heard for longer than
/// the session timeout. No other session ends.
pub proof fn law_tick_ends_sessions(
    before: PeerView,
    now: u64,
    now_ms: u32,
    answers: Seq<Seq<std::io::Result<usize>>>,
    after: PeerView,
    actions: Seq<ActionView>,
    i: int,
)
    requires
        before.wf(),
        tick_with(before, now, now_ms, answers, after, actions),
        0 <= i < before.sessions.len(),
    ensures
        ({
            let session = before.sessions[i];
            session_of(after.sessions, spec_canonicalize(session.peer_addr)) is None <==> {
                &&& !session.closed
                &&& {
                    ||| kcp_state(engine_ticked(session, now_ms, answers[i])).dead
                    ||| session.state matches SessionState::SynSent { retries, .. } && retries
                        >= before.config.syn_max_retries
                    ||| session.last_rx > 0 && millis_between(session.last_rx, now) * 1_000_000
                        > duration_nanos(before.config.session_timeout)
                }
            }
        }),
{
    let can = spec_canonicalize(before.sessions[i].peer_addr);
    assert(keeps(before.sessions, can, i));
    lemma_index_unique(before.sessions, can, i);
    law_tick_session(before, now, now_ms, answers, after, actions, can);
}

/// What a tick leaves of a session that goes on. A closed session stays as it is. Of an open one,
/// past its handshake, KCP is updated and nothing else changes. One in its handshake keeps
/// everything but its retry count and the instant of its last SYN, which change where the next
/// SYN is due.
pub proof fn law_tick_keeps_sessions(
    before: PeerView,
    now: u64,
    now_ms: u32,
    answers: Seq<Seq<std::io::Result<usize>>>,
    after: PeerView,
    actions: Seq<ActionView>,
    i: int,
)
    requires
        before.wf(),
        tick_with(before, now, now_ms, answers, after, actions),
        0 <= i < before.sessions.len(),
    ensures
        ({
            let session = before.sessions[i];
            session_of(after.sessions, spec_canonicalize(session.peer_addr)) matches Some(kept)
                ==> {
                &&& session.closed ==> kept == session
                &&& !session.closed && !(session.state is SynSent) ==> kept == (SessionView {
                    kcp: kcp_updated(session.kcp, now_ms, answers[i]).0,
                    ..session
                })
                &&& !session.closed ==> (session.state matches SessionState::SynSent {
                    retries,
                    sent_at,
                } ==> {
                    let due = millis_between(sent_at, now) * 1_000_000 >= duration_nanos(
                        before.config.syn_retry_interval,
                    ) * pow2(retries as nat);
                    &&& due ==> kept == (SessionView {
                        state: SessionState::SynSent {
                            retries: (retries + 1) as u32,
                            sent_at: now,
                        },
                        ..session
                    })
                    &&& !due ==> kept == session
                })
                &&& transmitted(session.engine(), kept.engine())
            }
        }),
        after == (PeerView { sessions: after.sessions, ..before }),
{
    let can = spec_canonicalize(before.sessions[i].peer_addr);
    assert(keeps(before.sessions, can, i));
    lemma_index_unique(before.sessions, can, i);
    law_tick_session(before, now, now_ms, answers, after, actions, can);
}

/// A SYN that a look at a session's timers asked for is among those that a tick repeats.
proof fn lemma_syn_repeated(ticks: Seq<Ticked>, i: int, syn: DatagramView)
    requires
        0 <= i < ticks.len(),
        ticks[i].syn == Some(syn),
    ensures
        repeated_syns(ticks).contains(ActionView::Send(syn)),
    decreases ticks.len(),
{
    let rest = ticks.drop_last();
    let all = repeated_syns(ticks);
    if i == ticks.len() - 1 {
        assert(all.last() == ActionView::Send(syn));
        assert(all[all.len() - 1] == ActionView::Send(syn));
    } else {
        assert(rest[i] == ticks[i]);
        lemma_syn_repeated(rest, i, syn);
        let k = repeated_syns(rest).index_of(ActionView::Send(syn));
        assert(repeated_syns(rest)[k] == ActionView::Send(syn));
        assert(all[k] == ActionView::Send(syn));
    }
}

/// Each SYN that a tick repeats is one that a look at a session's timers asked for.
proof fn lemma_syn_asked_for(ticks: Seq<Ticked>, k: int) -> (i: int)
    requires
        0 <= k < repeated_syns(ticks).len(),
    ensures
        0 <= i < ticks.len(),
        ticks[i].syn is Some,
        repeated_syns(ticks)[k] == ActionView::Send(ticks[i].syn->0),
    decreases ticks.len(),
{
    let rest = ticks.drop_last();
    if k < repeated_syns(rest).len() {
        let i = lemma_syn_asked_for(rest, k);
        assert(rest[i] == ticks[i]);
        i
    } else {
        ticks.len() - 1
    }
}

/// A tick repeats the SYN of every handshake that is due. For each open session that waits for
/// its SYN_ACK, whose link is not dead and whose retries are not spent, a SYN of its conversation
/// goes to its peer once the wait has passed, however many went before. And a retry is counted
/// only where the SYN went out.
pub proof fn law_tick_repeats_due_syns(
    before: PeerView,
    now: u64,
    now_ms: u32,
    answers: Seq<Seq<std::io::Result<usize>>>,
    after: PeerView,
    actions: Seq<ActionView>,
    i: int,
    retries: u32,
    sent_at: u64,
)
    requires
        before.wf(),
        tick_with(before, now, now_ms, answers, after, actions),
        0 <= i < before.sessions.len(),
        before.sessions[i].state == (SessionState::SynSent { retries, sent_at }),
    ensures
        ({
            let session = before.sessions[i];
            let syn = ActionView::Send(
                DatagramView {
                    to: session.peer_addr,
                    packet: control_packet(PacketType::Syn, session.conv_id),
                },
            );
            let due = retries < before.config.syn_max_retries && millis_between(sent_at, now)
                * 1_000_000 >= duration_nanos(before.config.syn_retry_interval) * pow2(
                retries as nat,
            );
            &&& !session.closed && !session.engine().dead && due ==> actions.contains(syn)
            &&& session_of(after.sessions, spec_canonicalize(session.peer_addr)) matches Some(kept)
                ==> (kept.state != session.state ==> {
                &&& actions.contains(syn)
                &&& kept.state == (SessionState::SynSent {
                    retries: (retries + 1) as u32,
                    sent_at: now,
                })
            })
        }),
{
    let session = before.sessions[i];
    let ticks = all_ticked(before.sessions, before.config, now, now_ms, answers);
    let datagram = DatagramView {
        to: session.peer_addr,
        packet: control_packet(PacketType::Syn, session.conv_id),
    };
    let syns = repeated_syns(ticks);
    law_handshake_timer(session, before.config, now);
    law_tick_keeps_sessions(before, now, now_ms, answers, after, actions, i);
    law_tick_ends_sessions(before, now, now_ms, answers, after, actions, i);
    if ticks[i].syn == Some(datagram) {
        lemma_syn_repeated(ticks, i, datagram);
        let k = syns.index_of(ActionView::Send(datagram));
        assert(syns[k] == ActionView::Send(datagram));
        assert(actions[k] == ActionView::Send(datagram));
    }
}

/// The farewells of a tick are four actions for each session that ends.
proof fn lemma_farewells_count(ticks: Seq<Ticked>)
    ensures
        farewells(ticks).len() == 4 * (ticks.len() - survivors(ticks).len()),
    decreases ticks.len(),
{
    if ticks.len() > 0 {
        lemma_farewells_count(ticks.drop_last());
    }
}

/// The farewells of a tick stand in groups of four, each of them of a session that ends.
proof fn lemma_farewell_groups(ticks: Seq<Ticked>, j: int) -> (i: int)
    requires
        0 <= j < ticks.len() - survivors(ticks).len(),
    ensures
        0 <= i < ticks.len(),
        ticks[i].expired,
        farewells(ticks).len() >= 4 * j + 4,
        farewells(ticks).subrange(4 * j, 4 * j + 4) == farewell(ticks[i].session),
    decreases ticks.len(),
{
    let rest = ticks.drop_last();
    lemma_survivors_at_most(rest);
    lemma_farewells_count(rest);
    lemma_farewells_count(ticks);
    if j < rest.len() - survivors(rest).len() {
        let i = lemma_farewell_groups(rest, j);
        assert(rest[i] == ticks[i]);
        assert(farewells(ticks).subrange(4 * j, 4 * j + 4) =~= farewells(rest).subrange(
            4 * j,
            4 * j + 4,
        ));
        i
    } else {
        assert(farewells(ticks).subrange(4 * j, 4 * j + 4) =~= farewell(ticks.last().session));
        ticks.len() - 1
    }
}

/// How many actions a tick asks for: four for each session that ends, and before them no more
/// SYNs than there are sessions.
pub proof fn law_tick_action_count(
    before: PeerView,
    now: u64,
    now_ms: u32,
    answers: Seq<Seq<std::io::Result<usize>>>,
    after: PeerView,
    actions: Seq<ActionView>,
)
    requires
        tick_with(before, now, now_ms, answers, after, actions),
    ensures
        after.sessions.len() <= before.sessions.len(),
        4 * (before.sessions.len() - after.sessions.len()) <= actions.len(),
        actions.len() <= 4 * (before.sessions.len() - after.sessions.len())
            + before.sessions.len(),
{
    let ticks = all_ticked(before.sessions, before.config, now, now_ms, answers);
    lemma_survivors_at_most(ticks);
    lemma_farewells_count(ticks);
    lemma_syns_at_most(ticks);
}

/// A tick sends no SYN that is not due: each of the actions before the farewells is the SYN of an
/// open session in its handshake, to its peer, whose retries are not spent and whose wait has
/// passed.
pub proof fn law_tick_repeats_only_due_syns(
    before: PeerView,
    now: u64,
    now_ms: u32,
    answers: Seq<Seq<std::io::Result<usize>>>,
    after: PeerView,
    actions: Seq<ActionView>,
    k: int,
)
    requires
        tick_with(before, now, now_ms, answers, after, actions),
        0 <= k < actions.len() - 4 * (before.sessions.len() - after.sessions.len()),
    ensures
        exists|i: int|
            {
                let session = #[trigger] before.sessions[i];
                &&& 0 <= i < before.sessions.len()
                &&& !session.closed
                &&& actions[k] == ActionView::Send(
                    DatagramView {
                        to: session.peer_addr,
                        packet: control_packet(PacketType::Syn, session.conv_id),
                    },
                )
                &&& session.state matches SessionState::SynSent { retries, sent_at }
                &&& retries < before.config.syn_max_retries
                &&& millis_between(sent_at, now) * 1_000_000 >= duration_nanos(
                    before.config.syn_retry_interval,
                ) * pow2(retries as nat)
            },
{
    let ticks = all_ticked(before.sessions, before.config, now, now_ms, answers);
    lemma_farewells_count(ticks);
    let i = lemma_syn_asked_for(ticks, k);
    let session = before.sessions[i];
    law_handshake_timer(session, before.config, now);
    assert(ticks[i] == ticked(session, before.config, now, now_ms, answers[i]));
    assert(actions[k] == repeated_syns(ticks)[k]);
    assert(session.state is SynSent);
}

/// A tick takes leave of every session that it ends, and of no other: behind the SYNs come, for
/// each, three RESETs of its conversation to its peer and the report of its end.
pub proof fn law_tick_takes_leave(
    before: PeerView,
    now: u64,
    now_ms: u32,
    answers: Seq<Seq<std::io::Result<usize>>>,
    after: PeerView,
    actions: Seq<ActionView>,
    j: int,
)
    requires
        before.wf(),
        tick_with(before, now, now_ms, answers, after, actions),
        0 <= j < before.sessions.len() - after.sessions.len(),
    ensures
        ({
            let ended = before.sessions.len() - after.sessions.len();
            let at = actions.len() - 4 * ended + 4 * j;
            exists|i: int|
                {
                    let session = #[trigger] before.sessions[i];
                    let reset = ActionView::Send(
                        DatagramView {
                            to: session.peer_addr,
                            packet: control_packet(PacketType::Reset, session.conv_id),
                        },
                    );
                    &&& 0 <= i < before.sessions.len()
                    &&& session_of(after.sessions, spec_canonicalize(session.peer_addr)) is None
                    &&& actions[at] == reset
                    &&& actions[at + 1] == reset
                    &&& actions[at + 2] == reset
                    &&& actions[at + 3] == ActionView::Emit(Event::Disconnected(session.peer_addr))
                }
        }),
{
    let ticks = all_ticked(before.sessions, before.config, now, now_ms, answers);
    let byes = farewells(ticks);
    let syns = repeated_syns(ticks).len() as int;
    lemma_farewells_count(ticks);
    let i = lemma_farewell_groups(ticks, j);
    let session = before.sessions[i];
    let can = spec_canonicalize(session.peer_addr);
    assert(keeps(before.sessions, can, i));
    lemma_index_unique(before.sessions, can, i);
    law_tick_session(before, now, now_ms, answers, after, actions, can);
    assert(ticks[i] == ticked(session, before.config, now, now_ms, answers[i]));
    let group = byes.subrange(4 * j, 4 * j + 4);
    assert(group == farewell(ticks[i].session));
    assert(ticks[i].session.peer_addr == session.peer_addr);
    assert(ticks[i].session.conv_id == session.conv_id);
    lemma_farewell_spelled(ticks[i].session);
    let at = actions.len() - 4 * (before.sessions.len() - after.sessions.len()) + 4 * j;
    assert(at == syns + 4 * j);
    assert(group[0] == byes[4 * j] && byes[4 * j] == actions[at]);
    assert(group[1] == byes[4 * j + 1] && byes[4 * j + 1] == actions[at + 1]);
    assert(group[2] == byes[4 * j + 2] && byes[4 * j + 2] == actions[at + 2]);
    assert(group[3] == byes[4 * j + 3] && byes[4 * j + 3] == actions[at + 3]);
    assert(before.sessions[i] == session);
}

/// The four actions of a farewell.
proof fn lemma_farewell_spelled(session: SessionView)
    ensures
        ({
            let reset = ActionView::Send(
                DatagramView {
                    to: session.peer_addr,
                    packet: control_packet(PacketType::Reset, session.conv_id),
                },
            );
            let bye = farewell(session);
            &&& bye.len() == 4
            &&& bye[0] == reset
            &&& bye[1] == reset
            &&& bye[2] == reset
            &&& bye[3] == ActionView::Emit(Event::Disconnected(session.peer_addr))
        }),
{
}

/// A tick repeats no more SYNs than there are sessions.
proof fn lemma_syns_at_most(ticks: Seq<Ticked>)
    ensures
        repeated_syns(ticks).len() <= ticks.len(),
    decreases ticks.len(),
{
    if ticks.len() > 0 {
        lemma_syns_at_most(ticks.drop_last());
    }
}

/// A tick sends no SYN twice.
pub proof fn law_tick_repeats_a_syn_once(
    before: PeerView,
    now: u64,
    now_ms: u32,
    answers: Seq<Seq<std::io::Result<usize>>>,
    after: PeerView,
    actions: Seq<ActionView>,
    a: int,
    b: int,
)
    requires
        before.wf(),
        tick_with(before, now, now_ms, answers, after, actions),
        0 <= a < b < actions.len() - 4 * (before.sessions.len() - after.sessions.len()),
    ensures
        actions[a] != actions[b],
{
    let ticks = all_ticked(before.sessions, before.config, now, now_ms, answers);
    lemma_farewells_count(ticks);
    assert forall|i: int, j: int| 0 <= i < j < ticks.len() && ticks[i].syn is Some
        && ticks[j].syn is Some implies (#[trigger] ticks[i]).syn->0.to != (
    #[trigger] ticks[j]).syn->0.to by {
        assert(session_key(before.sessions[i]) != session_key(before.sessions[j]));
    }
    lemma_syns_differ(ticks, a, b);
}

/// SYNs to different peers are different.
proof fn lemma_syns_differ(ticks: Seq<Ticked>, a: int, b: int)
    requires
        forall|i: int, j: int|
            0 <= i < j < ticks.len() && ticks[i].syn is Some && ticks[j].syn is Some ==> (
            #[trigger] ticks[i]).syn->0.to != (#[trigger] ticks[j]).syn->0.to,
        0 <= a < b < repeated_syns(ticks).len(),
    ensures
        repeated_syns(ticks)[a] != repeated_syns(ticks)[b],
    decreases ticks.len(),
{
    let rest = ticks.drop_last();
    if b < repeated_syns(rest).len() {
        lemma_syns_differ(rest, a, b);
    } else {
        let i = lemma_syn_asked_for(rest, a);
        assert(rest[i] == ticks[i]);
        assert(ticks[ticks.len() - 1].syn is Some);
        assert(ticks[i].syn->0.to != ticks[ticks.len() - 1].syn->0.to);
    }
}

/// A peer that sent data within the session timeout keeps its session: after any data packet,
/// accepted by KCP or not, no tick ends the session for being idle until the timeout has passed
/// since that packet. A session past its handshake whose link is alive goes on, and its end is
/// not reported.
pub proof fn law_data_keeps_the_session(
    before: PeerView,
    session: SessionView,
    data: Seq<u8>,
    from: SocketAddr,
    heard_at: u64,
    heard_ms: u32,
    heard: PeerView,
    outcome: Result<Seq<ActionView>>,
    now: u64,
    now_ms: u32,
    answers: Seq<Seq<std::io::Result<usize>>>,
    after: PeerView,
    actions: Seq<ActionView>,
)
    requires
        before.wf(),
        heard.wf(),
        session_of(before.sessions, spec_canonicalize(from)) == Some(session),
        data.len() > 0,
        data[0] == 0,
        incoming(before, data, from, heard_at, heard_ms, heard, outcome),
        tick_with(heard, now, now_ms, answers, after, actions),
        !session.closed,
        !(session.state is SynSent),
        !kcp_state(
            kcp_updated(
                session_of(heard.sessions, spec_canonicalize(from))->0.kcp,
                now_ms,
                answers[session_index(heard.sessions, spec_canonicalize(from))],
            ).0,
        ).dead,
        (now - heard_at) * 1_000_000 <= duration_nanos(before.config.session_timeout),
    ensures
        session_of(after.sessions, spec_canonicalize(from)) matches Some(kept) && kept.last_rx
            == heard_at && kept.conv_id == session.conv_id && !kept.closed,
        !actions.contains(ActionView::Emit(Event::Disconnected(from))),
{
    let can = spec_canonicalize(from);
    law_data_is_heard(before, session, data, from, heard_at, heard_ms, heard, outcome);
    let i = session_index(heard.sessions, can);
    assert(keeps(heard.sessions, can, i));
    law_tick_ends_sessions(heard, now, now_ms, answers, after, actions, i);
    law_tick_keeps_sessions(heard, now, now_ms, answers, after, actions, i);
    if actions.contains(ActionView::Emit(Event::Disconnected(from))) {
        law_expired_means_gone(heard, now, now_ms, answers, after, actions, from);
    }
}

/// Every session that a tick ends is taken leave of: its peer is sent three RESETs of its
/// conversation, and then its end is reported.
pub proof fn law_tick_tells_each_end(
    before: PeerView,
    now: u64,
    now_ms: u32,
    answers: Seq<Seq<std::io::Result<usize>>>,
    after: PeerView,
    actions: Seq<ActionView>,
    i: int,
)
    requires
        before.wf(),
        tick_with(before, now, now_ms, answers, after, actions),
        0 <= i < before.sessions.len(),
        session_of(after.sessions, spec_canonicalize(before.sessions[i].peer_addr)) is None,
    ensures
        exists|at: int|
            {
                let session = before.sessions[i];
                let reset = ActionView::Send(
                    DatagramView {
                        to: session.peer_addr,
                        packet: control_packet(PacketType::Reset, session.conv_id),
                    },
                );
                &&& 0 <= at && at + 4 <= actions.len()
                &&& #[trigger] actions[at] == reset
                &&& actions[at + 1] == reset
                &&& actions[at + 2] == reset
                &&& actions[at + 3] == ActionView::Emit(Event::Disconnected(session.peer_addr))
            },
{
    let session = before.sessions[i];
    let can = spec_canonicalize(session.peer_addr);
    assert(keeps(before.sessions, can, i));
    lemma_index_unique(before.sessions, can, i);
    law_tick_session(before, now, now_ms, answers, after, actions, can);
    law_tick_tells_the_peer(before, now, now_ms, answers, after, actions, i);
    let bye = resets(session.peer_addr, session.conv_id).push(
        ActionView::Emit(Event::Disconnected(session.peer_addr)),
    );
    let at = choose|k: int|
        0 <= k && k + 4 <= actions.len() && #[trigger] actions.subrange(k, k + 4) == bye;
    let group = actions.subrange(at, at + 4);
    assert(group == bye);
    lemma_farewell_spelled(session);
    assert(group[0] == actions[at]);
    assert(group[1] == actions[at + 1]);
    assert(group[2] == actions[at + 2]);
    assert(group[3] == actions[at + 3]);
}

/// Opening a session to a peer that has none: one SYN of the conversation goes to the peer, and
/// the peer has a session that waits for its SYN_ACK since that instant, open, with nothing queued
/// or received, and configured as the transport is. A peer that has a session keeps it, and
/// nothing goes out.
pub proof fn law_initiate_opens_a_session(
    before: PeerView,
    peer: SocketAddr,
    conv: u32,
    now: u64,
    after: PeerView,
    actions: Seq<ActionView>,
)
    requires
        before.wf(),
        initiate_step(before, peer, conv, now, after, actions),
    ensures
        session_of(before.sessions, spec_canonicalize(peer)) is Some ==> after == before
            && actions.len() == 0,
        session_of(before.sessions, spec_canonicalize(peer)) is None ==> {
            &&& actions == seq![
                ActionView::Send(
                    DatagramView { to: peer, packet: control_packet(PacketType::Syn, conv) },
                ),
            ]
            &&& session_of(after.sessions, spec_canonicalize(peer)) matches Some(session) && {
                &&& session.state == (SessionState::SynSent { retries: 0, sent_at: now })
                &&& session.conv_id == conv && session.engine().conv == conv
                &&& session.peer_addr == peer && session.engine().output.peer == peer
                &&& session.incarnation == before.incarnation
                &&& session.last_rx == now
                &&& !session.closed && !session.engine().dead
                &&& session.recv_buf.len() == 0 && session.engine().received.len() == 0
                &&& session.engine().unsent.len() == 0 && session.engine().in_flight == 0
                &&& session.engine() == before.config.applied(
                    new_state(conv, DirectOutput { outlet: before.outlet, peer }),
                )
            }
            &&& after.sessions.len() == before.sessions.len() + 1
            &&& after == (PeerView { sessions: after.sessions, ..before })
        },
{
    if session_of(before.sessions, spec_canonicalize(peer)) is None {
        let _ = lemma_initiated(before, peer, conv, now, after, actions);
    }
}

/// What a send to a peer that has a session returns and does. A closed session refuses, then a
/// dead link does, then a message of more than 127 segments is too big, and nothing changes.
/// Otherwise the bytes wait behind all that waited before, and nothing else of the session
/// changes. Nothing goes out at once.
pub proof fn law_send_queues_or_refuses(
    before: PeerView,
    peer: SocketAddr,
    session: SessionView,
    data: Seq<u8>,
    conv: u32,
    now: u64,
    after: PeerView,
    sent: Result<()>,
    actions: Seq<ActionView>,
)
    requires
        before.wf(),
        session_of(before.sessions, spec_canonicalize(peer)) == Some(session),
        send_step(before, peer, data, conv, now, after, sent, actions),
    ensures
        actions.len() == 0,
        ({
            let fits = data.len() <= 127 * session.engine().mss;
            &&& session.closed ==> sent == Err::<(), Error>(Error::SessionClosed)
            &&& !session.closed && session.engine().dead ==> sent == Err::<(), Error>(
                Error::DeadLink,
            )
            &&& !session.closed && !session.engine().dead && !fits ==> sent == Err::<(), Error>(
                Error::Kcp(KcpError::UserBufTooBig),
            )
            &&& !session.closed && !session.engine().dead && fits ==> {
                let waited = session.engine().unsent;
                let queued = session_of(after.sessions, spec_canonicalize(peer))->0;
                let waiting = queued.engine().unsent;
                &&& sent == Ok::<(), Error>(())
                &&& waited.is_prefix_of(waiting)
                &&& joined(waiting.skip(waited.len() as int)) == data
                &&& queued == (SessionView { kcp: queued.kcp, ..session })
                &&& queued.engine() == (KcpState { unsent: waiting, ..session.engine() })
            }
            &&& sent is Err ==> after == before
        }),
        session_of(after.sessions, spec_canonicalize(peer)) is Some,
        after == (PeerView { sessions: after.sessions, ..before }),
{
    let can = spec_canonicalize(peer);
    let i = session_index(before.sessions, can);
    assert(keeps(before.sessions, can, i));
    assert(before.sessions[i].wf());
    law_message_size(session, data);
    let opened = choose|opened: PeerView|
        {
            &&& #[trigger] initiate_step(before, peer, conv, now, opened, actions)
            &&& queue_step(opened, peer, data, after, sent)
        };
    assert(opened == before);
    if sent is Ok {
        law_sent_bytes_are_queued(session, data, after.sessions[i]);
        lemma_update_session(before.sessions, i, after.sessions[i], can);
    }
}

/// What the first send to a peer does: one SYN of the conversation goes to the peer, and the bytes
/// wait in its new session, which has nothing in flight. A message of more than 127 segments is
/// refused as too big, and the session is opened all the same.
pub proof fn law_first_send_opens_and_queues(
    before: PeerView,
    peer: SocketAddr,
    data: Seq<u8>,
    conv: u32,
    now: u64,
    after: PeerView,
    sent: Result<()>,
    actions: Seq<ActionView>,
)
    requires
        before.wf(),
        session_of(before.sessions, spec_canonicalize(peer)) is None,
        send_step(before, peer, data, conv, now, after, sent, actions),
    ensures
        actions == seq![
            ActionView::Send(
                DatagramView { to: peer, packet: control_packet(PacketType::Syn, conv) },
            ),
        ],
        session_of(after.sessions, spec_canonicalize(peer)) matches Some(session) && {
            let fits = data.len() <= 127 * session.engine().mss;
            &&& session.state == (SessionState::SynSent { retries: 0, sent_at: now })
            &&& session.conv_id == conv && session.engine().conv == conv
            &&& session.peer_addr == peer
            &&& session.last_rx == now
            &&& session.incarnation == before.incarnation
            &&& !session.closed && !session.engine().dead
            &&& session.engine().in_flight == 0
            &&& fits ==> sent == Ok::<(), Error>(()) && joined(session.engine().unsent) == data
            &&& !fits ==> sent == Err::<(), Error>(Error::Kcp(KcpError::UserBufTooBig))
                && session.engine().unsent.len() == 0
        },
{
    let can = spec_canonicalize(peer);
    let opened = choose|opened: PeerView|
        {
            &&& #[trigger] initiate_step(before, peer, conv, now, opened, actions)
            &&& queue_step(opened, peer, data, after, sent)
        };
    let session = lemma_initiated(before, peer, conv, now, opened, actions);
    law_config_reaches_engine(
        before.config,
        new_state(conv, DirectOutput { outlet: before.outlet, peer }),
    );
    law_message_size(session, data);
    let i = session_index(opened.sessions, can);
    assert(keeps(opened.sessions, can, i));
    if sent is Ok {
        law_sent_bytes_are_queued(session, data, after.sessions[i]);
        let waiting = after.sessions[i].engine().unsent;
        assert(waiting.skip(0) =~= waiting);
        lemma_update_session(opened.sessions, i, after.sessions[i], can);
    }
}

/// The statistics of a peer are those of its session, if it has an open one, and there are none
/// otherwise: the windows under their own names, the segments not acknowledged, whether KCP found
/// the link dead, and the time since the peer was heard.
pub proof fn law_stats_report_the_session(
    before: PeerView,
    peer: SocketAddr,
    now: u64,
    stats: Option<PeerStats>,
)
    requires
        stats_step(before, peer, now, stats),
    ensures
        stats is Some <==> session_of(before.sessions, spec_canonicalize(peer)) is Some
            && !session_of(before.sessions, spec_canonicalize(peer))->0.closed,
        stats matches Some(found) ==> {
            let session = session_of(before.sessions, spec_canonicalize(peer))->0;
            let engine = session.engine();
            &&& found.conv_id == session.conv_id
            &&& found.send_wnd == engine.snd_wnd
            &&& found.recv_wnd == engine.rcv_wnd
            &&& found.rmt_wnd == engine.rmt_wnd
            &&& found.wait_snd == engine.in_flight + engine.unsent.len()
            &&& found.dead_link == engine.dead
            &&& duration_nanos(found.elapsed) == millis_between(session.last_rx, now) * 1_000_000
        },
{
}

/// The statistics of a peer whose session was just opened from this side report the
/// configuration: its send window, its receive window or 128 where that is smaller, the
/// conversation, nothing waiting, a live link, the window of 128 that a remote side is taken to
/// have, and the time since the session was opened.
pub proof fn law_stats_of_an_opened_session(
    before: PeerView,
    peer: SocketAddr,
    conv: u32,
    opened_at: u64,
    opened: PeerView,
    actions: Seq<ActionView>,
    now: u64,
    stats: Option<PeerStats>,
)
    requires
        before.wf(),
        before.config.snd_wnd > 0,
        before.config.rcv_wnd > 0,
        session_of(before.sessions, spec_canonicalize(peer)) is None,
        initiate_step(before, peer, conv, opened_at, opened, actions),
        stats_step(opened, peer, now, stats),
    ensures
        stats matches Some(found) && {
            &&& found.send_wnd == before.config.snd_wnd
            &&& found.recv_wnd == if before.config.rcv_wnd > 128 {
                before.config.rcv_wnd
            } else {
                128
            }
            &&& found.conv_id == conv
            &&& found.rmt_wnd == 128
            &&& found.wait_snd == 0
            &&& !found.dead_link
            &&& now >= opened_at ==> duration_nanos(found.elapsed) == (now - opened_at) * 1_000_000
        },
{
    law_initiate_opens_a_session(before, peer, conv, opened_at, opened, actions);
    law_stats_report_the_session(opened, peer, now, stats);
}

/// The same of a peer whose SYN opened the session.
pub proof fn law_stats_of_an_accepted_session(
    before: PeerView,
    data: Seq<u8>,
    conv: u32,
    from: SocketAddr,
    opened_at: u64,
    now_ms: u32,
    reported: PeerView,
    outcome: Result<Seq<ActionView>>,
    opened: PeerView,
    now: u64,
    stats: Option<PeerStats>,
)
    requires
        before.wf(),
        before.config.snd_wnd > 0,
        before.config.rcv_wnd > 0,
        carries(data, 1, conv),
        session_of(before.sessions, spec_canonicalize(from)) is None,
        incoming(before, data, from, opened_at, now_ms, reported, outcome),
        insert_step(reported, opened),
        stats_step(opened, from, now, stats),
    ensures
        stats matches Some(found) && {
            &&& found.send_wnd == before.config.snd_wnd
            &&& found.recv_wnd == if before.config.rcv_wnd > 128 {
                before.config.rcv_wnd
            } else {
                128
            }
            &&& found.conv_id == conv
            &&& found.rmt_wnd == 128
            &&& found.wait_snd == 0
            &&& !found.dead_link
            &&& now >= opened_at ==> duration_nanos(found.elapsed) == (now - opened_at) * 1_000_000
        },
{
    law_syn_opens_a_session(
        before,
        data,
        conv,
        from,
        opened_at,
        now_ms,
        reported,
        outcome,
        opened,
    );
    law_stats_report_the_session(opened, from, now, stats);
}

/// The peers that are listed, and the place of each among the sessions.
proof fn lemma_listed(sessions: Seq<SessionView>, addr: SocketAddr)
    ensures
        open_peers(sessions).contains(addr) <==> exists|i: int|
            0 <= i < sessions.len() && !(#[trigger] sessions[i]).closed && sessions[i].peer_addr
                == addr,
    decreases sessions.len(),
{
    if sessions.len() > 0 {
        let rest = sessions.drop_last();
        let last = sessions.last();
        let all = open_peers(sessions);
        lemma_listed(rest, addr);
        if open_peers(rest).contains(addr) {
            let k = open_peers(rest).index_of(addr);
            assert(open_peers(rest)[k] == addr);
            assert(all[k] == addr);
            let i = choose|i: int|
                0 <= i < rest.len() && !(#[trigger] rest[i]).closed && rest[i].peer_addr == addr;
            assert(sessions[i] == rest[i]);
        }
        if !last.closed && last.peer_addr == addr {
            assert(all[all.len() - 1] == addr);
            assert(sessions[sessions.len() - 1] == last);
        }
        if all.contains(addr) && !open_peers(rest).contains(addr) {
            let k = all.index_of(addr);
            assert(all[k] == addr);
            assert(k < open_peers(rest).len() ==> open_peers(rest)[k] == addr);
            assert(!last.closed && last.peer_addr == addr);
        }
        if exists|i: int|
            0 <= i < sessions.len() && !(#[trigger] sessions[i]).closed && sessions[i].peer_addr
                == addr {
            let i = choose|i: int|
                0 <= i < sessions.len() && !(#[trigger] sessions[i]).closed
                    && sessions[i].peer_addr == addr;
            if i < rest.len() {
                assert(rest[i] == sessions[i]);
            }
        }
    }
}

/// No peer is listed twice.
proof fn lemma_listed_once(sessions: Seq<SessionView>)
    requires
        distinct_peers(sessions),
    ensures
        open_peers(sessions).no_duplicates(),
    decreases sessions.len(),
{
    if sessions.len() > 0 {
        let rest = sessions.drop_last();
        let last = sessions.last();
        assert forall|a: int, b: int| 0 <= a < b < rest.len() implies session_key(
            #[trigger] rest[a],
        ) != session_key(#[trigger] rest[b]) by {
            assert(session_key(sessions[a]) != session_key(sessions[b]));
        }
        lemma_listed_once(rest);
        lemma_listed(rest, last.peer_addr);
        if open_peers(rest).contains(last.peer_addr) {
            let i = choose|i: int|
                0 <= i < rest.len() && !(#[trigger] rest[i]).closed && rest[i].peer_addr
                    == last.peer_addr;
            assert(session_key(sessions[i]) != session_key(sessions[sessions.len() - 1]));
        }
        let before = open_peers(rest);
        let all = open_peers(sessions);
        assert forall|a: int, b: int| 0 <= a < all.len() && 0 <= b < all.len() && a
            != b implies all[a] != all[b] by {
            if a < before.len() && b < before.len() {
                assert(before[a] != before[b]);
            } else if a < before.len() {
                assert(before.contains(before[a]));
            } else {
                assert(before.contains(before[b]));
            }
        }
    }
}

/// The peers that are listed are those with an open session, each once, under the address that
/// the session has: exactly those that have statistics.
pub proof fn law_listed_peers_have_stats(
    before: PeerView,
    addr: SocketAddr,
    now: u64,
    stats: Option<PeerStats>,
)
    requires
        before.wf(),
        stats_step(before, addr, now, stats),
    ensures
        open_peers(before.sessions).no_duplicates(),
        open_peers(before.sessions).contains(addr) ==> stats is Some,
        stats is Some ==> {
            let session = session_of(before.sessions, spec_canonicalize(addr))->0;
            open_peers(before.sessions).contains(session.peer_addr)
        },
{
    let can = spec_canonicalize(addr);
    lemma_listed_once(before.sessions);
    lemma_listed(before.sessions, addr);
    if open_peers(before.sessions).contains(addr) {
        let i = choose|i: int|
            0 <= i < before.sessions.len() && !(#[trigger] before.sessions[i]).closed
                && before.sessions[i].peer_addr == addr;
        assert(keeps(before.sessions, can, i));
        lemma_index_unique(before.sessions, can, i);
    }
    if stats is Some {
        let i = session_index(before.sessions, can);
        assert(keeps(before.sessions, can, i));
        lemma_listed(before.sessions, before.sessions[i].peer_addr);
    }
}

/// A peer's session is found under the canonical form of the address that the session has, and
/// what is found under an address is the session of that peer.
pub proof fn law_sessions_are_found(before: PeerView, can: CanonicalAddr, i: int)
    requires
        before.wf(),
        0 <= i < before.sessions.len(),
    ensures
        session_of(before.sessions, spec_canonicalize(before.sessions[i].peer_addr)) == Some(
            before.sessions[i],
        ),
        session_of(before.sessions, can) matches Some(session) ==> before.sessions.contains(session)
            && spec_canonicalize(session.peer_addr) == can,
        session_of(before.sessions, can) is None ==> spec_canonicalize(
            before.sessions[i].peer_addr,
        ) != can,
{
    let own = spec_canonicalize(before.sessions[i].peer_addr);
    assert(keeps(before.sessions, own, i));
    lemma_index_unique(before.sessions, own, i);
    if has_session(before.sessions, can) {
        let at = session_index(before.sessions, can);
        assert(keeps(before.sessions, can, at));
        assert(before.sessions[at] == session_of(before.sessions, can)->0);
    }
}

/// Disconnecting a peer that has a session: the session is gone, whatever its state, exactly three
/// RESETs of its conversation go to the peer, and then the end is reported. A peer without a
/// session is not told anything.
pub proof fn law_disconnect_tells_the_peer(
    before: PeerView,
    peer: SocketAddr,
    after: PeerView,
    actions: Seq<ActionView>,
)
    requires
        before.wf(),
        disconnect_step(before, peer, after, actions),
    ensures
        match session_of(before.sessions, spec_canonicalize(peer)) {
            Some(session) => {
                let reset = ActionView::Send(
                    DatagramView {
                        to: peer,
                        packet: control_packet(PacketType::Reset, session.conv_id),
                    },
                );
                &&& actions == seq![
                    reset,
                    reset,
                    reset,
                    ActionView::Emit(Event::Disconnected(peer)),
                ]
                &&& session_of(after.sessions, spec_canonicalize(peer)) is None
                &&& after.sessions.len() == before.sessions.len() - 1
                &&& after == (PeerView { sessions: after.sessions, ..before })
            },
            None => after == before && actions.len() == 0,
        },
{
    let can = spec_canonicalize(peer);
    if has_session(before.sessions, can) {
        assert(keeps(before.sessions, can, session_index(before.sessions, can)));
        law_take_session(before.sessions, can, can);
    }
}

/// A shutdown closes every session and leaves all else of it, and sends exactly three RESETs of
/// its conversation to each peer, session by session. Nothing is reported.
pub proof fn law_shutdown_resets_every_session(
    before: PeerView,
    after: PeerView,
    actions: Seq<ActionView>,
    i: int,
)
    requires
        shutdown_step(before, after, actions),
        0 <= i < before.sessions.len(),
    ensures
        after.shutting_down,
        after == (PeerView { sessions: after.sessions, shutting_down: true, ..before }),
        after.sessions.len() == before.sessions.len(),
        after.sessions[i] == (SessionView { closed: true, ..before.sessions[i] }),
        actions.len() == 3 * before.sessions.len(),
        forall|k: int|
            3 * i <= k < 3 * i + 3 ==> #[trigger] actions[k] == ActionView::Send(
                DatagramView {
                    to: before.sessions[i].peer_addr,
                    packet: control_packet(PacketType::Reset, before.sessions[i].conv_id),
                },
            ),
{
    law_shutdown_tells_every_peer(before, after, actions, i);
    let group = actions.subrange(3 * i, 3 * i + 3);
    assert forall|k: int| 3 * i <= k < 3 * i + 3 implies #[trigger] actions[k]
        == ActionView::Send(
        DatagramView {
            to: before.sessions[i].peer_addr,
            packet: control_packet(PacketType::Reset, before.sessions[i].conv_id),
        },
    ) by {
        assert(actions[k] == group[k - 3 * i]);
    }
}

/// What a read comes to: after a shutdown an error, else the message that waits longest, which is
/// then gone, or nothing where none waits. It changes nothing else.
pub proof fn law_recv_takes_the_oldest(
    before: PeerView,
    after: PeerView,
    message: Result<Option<MessageView>>,
)
    requires
        recv_step(before, after, message),
    ensures
        before.shutting_down <==> message == Err::<Option<MessageView>, Error>(
            Error::ShuttingDown,
        ),
        !before.shutting_down && before.pending.len() == 0 ==> message == Ok::<
            Option<MessageView>,
            Error,
        >(None),
        !before.shutting_down && before.pending.len() > 0 ==> {
            &&& message == Ok::<Option<MessageView>, Error>(Some(before.pending.first()))
            &&& before.pending == seq![before.pending.first()] + after.pending
            &&& after == (PeerView { pending: after.pending, ..before })
        },
        before.shutting_down || before.pending.len() == 0 ==> after == before,
{
    if !before.shutting_down && before.pending.len() > 0 {
        assert(before.pending =~= seq![before.pending.first()] + before.pending.skip(1));
    }
}

/// A transport that was just bound has no session, lists no peer and has no statistics, nothing
/// waits to be read, and it is not shutting down.
pub proof fn law_bound_transport_is_empty(
    peer: PeerView,
    local_addr: SocketAddr,
    config: KcpConfig,
    outlet: Outlet,
    incarnation: u64,
    addr: SocketAddr,
    now: u64,
    stats: Option<PeerStats>,
    read: PeerView,
    message: Result<Option<MessageView>>,
)
    requires
        fresh_peer(peer, local_addr, config, outlet, incarnation),
        stats_step(peer, addr, now, stats),
        recv_step(peer, read, message),
    ensures
        peer.local_addr == local_addr,
        peer.config == config,
        peer.outlet == outlet,
        peer.incarnation == incarnation,
        peer.sessions.len() == 0 && peer.lobby.len() == 0 && peer.pending.len() == 0,
        open_peers(peer.sessions).len() == 0,
        stats is None,
        message == Ok::<Option<MessageView>, Error>(None),
{
}

/// Putting in the sessions that wait: the peer of each has the last one that waits for it, every
/// other peer keeps what it had, and none waits any more.
pub proof fn law_waiting_sessions_are_put_in(before: PeerView, after: PeerView, can: CanonicalAddr)
    requires
        before.wf(),
        insert_step(before, after),
    ensures
        after.lobby.len() == 0,
        after == (PeerView { sessions: after.sessions, lobby: after.lobby, ..before }),
        forall|k: int|
            0 <= k < before.lobby.len() && spec_canonicalize(
                (#[trigger] before.lobby[k]).peer_addr,
            ) == can && (forall|later: int|
                k < later < before.lobby.len() ==> spec_canonicalize(
                    (#[trigger] before.lobby[later]).peer_addr,
                ) != can) ==> session_of(after.sessions, can) == Some(before.lobby[k]),
        (forall|k: int|
            0 <= k < before.lobby.len() ==> spec_canonicalize(
                (#[trigger] before.lobby[k]).peer_addr,
            ) != can) ==> session_of(after.sessions, can) == session_of(before.sessions, can),
{
    lemma_put_in(before.sessions, before.lobby, can);
}

/// What putting in a row of sessions makes of a peer's session.
proof fn lemma_put_in(sessions: Seq<SessionView>, lobby: Seq<SessionView>, can: CanonicalAddr)
    requires
        distinct_peers(sessions),
    ensures
        distinct_peers(with_all(sessions, lobby)),
        forall|k: int|
            0 <= k < lobby.len() && session_key(#[trigger] lobby[k]) == can && (forall|later: int|
                k < later < lobby.len() ==> session_key(#[trigger] lobby[later]) != can)
                ==> session_of(with_all(sessions, lobby), can) == Some(lobby[k]),
        (forall|k: int| 0 <= k < lobby.len() ==> session_key(#[trigger] lobby[k]) != can)
            ==> session_of(with_all(sessions, lobby), can) == session_of(sessions, can),
    decreases lobby.len(),
{
    if lobby.len() > 0 {
        let rest = lobby.drop_last();
        let last = lobby.last();
        lemma_put_in(sessions, rest, can);
        assert(lobby =~= rest.push(last));
        lemma_with_all_push(sessions, rest, last);
        law_put_session(with_all(sessions, rest), last, can);
        assert(lobby[lobby.len() - 1] == last);
        assert forall|k: int|
            0 <= k < lobby.len() && session_key(#[trigger] lobby[k]) == can && (forall|later: int|
                k < later < lobby.len() ==> session_key(#[trigger] lobby[later]) != can)
            implies session_of(with_all(sessions, lobby), can) == Some(lobby[k]) by {
            if k < rest.len() {
                assert(rest[k] == lobby[k]);
                assert(session_key(lobby[lobby.len() - 1]) != can);
                assert forall|later: int| k < later < rest.len() implies session_key(
                    #[trigger] rest[later],
                ) != can by {
                    assert(rest[later] == lobby[later]);
                }
            }
        }
        if forall|k: int| 0 <= k < lobby.len() ==> session_key(#[trigger] lobby[k]) != can {
            assert forall|k: int| 0 <= k < rest.len() implies session_key(#[trigger] rest[k])
                != can by {
                assert(rest[k] == lobby[k]);
            }
        }
    }
}

/// One operation of the transport, whatever came in, whatever it was called with and whatever the
/// output answered.
pub open spec fn operates(before: PeerView, after: PeerView) -> bool {
    ||| exists|
        data: Seq<u8>,
        from: SocketAddr,
        now: u64,
        now_ms: u32,
        outcome: Result<Seq<ActionView>>,
    |
        #[trigger] incoming(before, data, from, now, now_ms, after, outcome)
    ||| insert_step(before, after)
    ||| exists|
        now: u64,
        now_ms: u32,
        answers: Seq<Seq<std::io::Result<usize>>>,
        actions: Seq<ActionView>,
    |
        #[trigger] tick_with(before, now, now_ms, answers, after, actions)
    ||| exists|peer: SocketAddr, conv: u32, now: u64, actions: Seq<ActionView>| #[trigger]
        initiate_step(before, peer, conv, now, after, actions)
    ||| exists|
        peer: SocketAddr,
        data: Seq<u8>,
        conv: u32,
        now: u64,
        sent: Result<()>,
        actions: Seq<ActionView>,
    |
        #[trigger] send_step(before, peer, data, conv, now, after, sent, actions)
    ||| exists|peer: SocketAddr, actions: Seq<ActionView>| #[trigger]
        disconnect_step(before, peer, after, actions)
    ||| exists|actions: Seq<ActionView>| #[trigger] shutdown_step(before, after, actions)
    ||| exists|message: Result<Option<MessageView>>| #[trigger] recv_step(before, after, message)
}

/// An engine with the windows, the packet size and the retransmissions of a configuration.
pub open spec fn engine_follows(engine: KcpState, config: KcpConfig) -> bool {
    &&& engine.snd_wnd == config.snd_wnd
    &&& engine.rcv_wnd == if config.rcv_wnd > 128 {
        config.rcv_wnd
    } else {
        128
    }
    &&& engine.mtu == if config.mtu > 50 {
        config.mtu
    } else {
        50
    }
    &&& engine.max_resend == config.maximum_resend_times
}

/// Sessions whose engines all follow a configuration.
pub open spec fn all_follow(sessions: Seq<SessionView>, config: KcpConfig) -> bool {
    forall|i: int|
        0 <= i < sessions.len() ==> engine_follows((#[trigger] sessions[i]).engine(), config)
}

/// Reading messages leaves the settings of an engine.
proof fn lemma_drained_settings(state: KcpState)
    ensures
        drained_state(state).snd_wnd == state.snd_wnd,
        drained_state(state).rcv_wnd == state.rcv_wnd,
        drained_state(state).mtu == state.mtu,
        drained_state(state).max_resend == state.max_resend,
    decreases state.received.len() + state.ready.len(),
{
    if peek(state.received) is Ok {
        lemma_after_recv_shrinks(state);
        lemma_drained_settings(after_recv(state));
    }
}

/// Putting in a session that follows a configuration.
proof fn lemma_put_follows(sessions: Seq<SessionView>, session: SessionView, config: KcpConfig)
    requires
        all_follow(sessions, config),
        engine_follows(session.engine(), config),
    ensures
        all_follow(with_session(sessions, session), config),
{
}

/// Putting in sessions that follow a configuration.
proof fn lemma_put_all_follow(
    sessions: Seq<SessionView>,
    lobby: Seq<SessionView>,
    config: KcpConfig,
)
    requires
        all_follow(sessions, config),
        all_follow(lobby, config),
    ensures
        all_follow(with_all(sessions, lobby), config),
    decreases lobby.len(),
{
    if lobby.len() > 0 {
        lemma_put_follows(sessions, lobby[0], config);
        assert forall|i: int| 0 <= i < lobby.skip(1).len() implies engine_follows(
            (#[trigger] lobby.skip(1)[i]).engine(),
            config,
        ) by {
            assert(lobby.skip(1)[i] == lobby[i + 1]);
        }
        lemma_put_all_follow(with_session(sessions, lobby[0]), lobby.skip(1), config);
    }
}

/// A packet leaves the engines of all sessions as they were configured.
proof fn lemma_incoming_follows(
    before: PeerView,
    data: Seq<u8>,
    from: SocketAddr,
    now: u64,
    now_ms: u32,
    after: PeerView,
    outcome: Result<Seq<ActionView>>,
)
    requires
        before.config.snd_wnd > 0,
        before.config.rcv_wnd > 0,
        all_follow(before.sessions, before.config),
        all_follow(before.lobby, before.config),
        incoming(before, data, from, now, now_ms, after, outcome),
    ensures
        after.config == before.config,
        all_follow(after.sessions, before.config),
        all_follow(after.lobby, before.config),
{
    let can = spec_canonicalize(from);
    let i = session_index(before.sessions, can);
    if let Some((typ, payload)) = parse_packet(data) {
        let conv = conv_of(payload);
        if has_session(before.sessions, can) {
            let session = before.sessions[i];
            assert(keeps(before.sessions, can, i));
            if typ == PacketType::KcpData {
                let (kcp, taken) = kcp_fed(session.kcp, payload);
                lemma_drained_settings(kcp_state(kcp));
                assert(engine_follows(after.sessions[i].engine(), before.config));
            } else if payload.len() >= 4 && typ == PacketType::Syn {
                if session.conv_id != conv {
                    if session.state is SynSent {
                        if addr_after(from, before.local_addr) {
                            let yielded = choose|yielded: SessionView|
                                {
                                    &&& #[trigger] adopted(session, conv, yielded)
                                    &&& completed(yielded, now, now_ms, after.sessions[i])
                                };
                            lemma_completed(yielded, now, now_ms, after.sessions[i]);
                        } else {
                            lemma_completed(session, now, now_ms, after.sessions[i]);
                        }
                        assert(engine_follows(after.sessions[i].engine(), before.config));
                    } else {
                        let old_closed = SessionView { closed: true, ..session };
                        let closed = PeerView {
                            sessions: before.sessions.update(i, old_closed),
                            ..before
                        };
                        let fresh = lemma_accepted(closed, conv, from, now, after);
                        assert(engine_follows(old_closed.engine(), before.config));
                        assert(engine_follows(fresh.engine(), before.config));
                    }
                }
            } else if payload.len() >= 4 && typ == PacketType::SynAck {
                if session.state is SynSent && session.conv_id == conv {
                    lemma_completed(session, now, now_ms, after.sessions[i]);
                    assert(engine_follows(after.sessions[i].engine(), before.config));
                }
            }
        } else if payload.len() >= 4 && typ == PacketType::Syn {
            let fresh = lemma_accepted(before, conv, from, now, after);
            assert(engine_follows(fresh.engine(), before.config));
        }
    }
}

/// Opening a session leaves the engines of all sessions as they were configured.
proof fn lemma_initiate_follows(
    before: PeerView,
    peer: SocketAddr,
    conv: u32,
    now: u64,
    after: PeerView,
    actions: Seq<ActionView>,
)
    requires
        before.wf(),
        before.config.snd_wnd > 0,
        before.config.rcv_wnd > 0,
        all_follow(before.sessions, before.config),
        initiate_step(before, peer, conv, now, after, actions),
    ensures
        after.config == before.config,
        after.lobby == before.lobby,
        all_follow(after.sessions, before.config),
{
    if !has_session(before.sessions, spec_canonicalize(peer)) {
        let session = lemma_initiated(before, peer, conv, now, after, actions);
        assert(engine_follows(session.engine(), before.config));
        lemma_put_follows(before.sessions, session, before.config);
    }
}

/// No operation changes the configuration, nor the engines of sessions from what was configured.
proof fn lemma_operation_follows(before: PeerView, after: PeerView)
    requires
        before.wf(),
        before.config.snd_wnd > 0,
        before.config.rcv_wnd > 0,
        all_follow(before.sessions, before.config),
        all_follow(before.lobby, before.config),
        operates(before, after),
    ensures
        after.config == before.config,
        all_follow(after.sessions, before.config),
        all_follow(after.lobby, before.config),
{
    if exists|
        data: Seq<u8>,
        from: SocketAddr,
        now: u64,
        now_ms: u32,
        outcome: Result<Seq<ActionView>>,
    |
        #[trigger] incoming(before, data, from, now, now_ms, after, outcome) {
        let (data, from, now, now_ms, outcome) = choose|
            data: Seq<u8>,
            from: SocketAddr,
            now: u64,
            now_ms: u32,
            outcome: Result<Seq<ActionView>>,
        |
            #[trigger] incoming(before, data, from, now, now_ms, after, outcome);
        lemma_incoming_follows(before, data, from, now, now_ms, after, outcome);
    } else if insert_step(before, after) {
        lemma_put_all_follow(before.sessions, before.lobby, before.config);
    } else if exists|
        now: u64,
        now_ms: u32,
        answers: Seq<Seq<std::io::Result<usize>>>,
        actions: Seq<ActionView>,
    |
        #[trigger] tick_with(before, now, now_ms, answers, after, actions) {
        let (now, now_ms, answers, actions) = choose|
            now: u64,
            now_ms: u32,
            answers: Seq<Seq<std::io::Result<usize>>>,
            actions: Seq<ActionView>,
        |
            #[trigger] tick_with(before, now, now_ms, answers, after, actions);
        let ticks = all_ticked(before.sessions, before.config, now, now_ms, answers);
        assert forall|k: int| 0 <= k < after.sessions.len() implies engine_follows(
            (#[trigger] after.sessions[k]).engine(),
            before.config,
        ) by {
            let i = lemma_survivor_origin(ticks, k);
            assert(transmitted(before.sessions[i].engine(), ticks[i].session.engine()));
        }
    } else if exists|peer: SocketAddr, conv: u32, now: u64, actions: Seq<ActionView>| #[trigger]
        initiate_step(before, peer, conv, now, after, actions) {
        let (peer, conv, now, actions) = choose|
            peer: SocketAddr,
            conv: u32,
            now: u64,
            actions: Seq<ActionView>,
        |
            #[trigger] initiate_step(before, peer, conv, now, after, actions);
        lemma_initiate_follows(before, peer, conv, now, after, actions);
    } else if exists|
        peer: SocketAddr,
        data: Seq<u8>,
        conv: u32,
        now: u64,
        sent: Result<()>,
        actions: Seq<ActionView>,
    |
        #[trigger] send_step(before, peer, data, conv, now, after, sent, actions) {
        let (peer, data, conv, now, sent, actions) = choose|
            peer: SocketAddr,
            data: Seq<u8>,
            conv: u32,
            now: u64,
            sent: Result<()>,
            actions: Seq<ActionView>,
        |
            #[trigger] send_step(before, peer, data, conv, now, after, sent, actions);
        let opened = choose|opened: PeerView|
            {
                &&& #[trigger] initiate_step(before, peer, conv, now, opened, actions)
                &&& queue_step(opened, peer, data, after, sent)
            };
        lemma_initiate_follows(before, peer, conv, now, opened, actions);
        let can = spec_canonicalize(peer);
        let i = session_index(opened.sessions, can);
        if !has_session(before.sessions, can) {
            let _ = lemma_initiated(before, peer, conv, now, opened, actions);
        }
        assert(keeps(opened.sessions, can, i));
    }
}

/// The statistics of a peer report the configuration: from the binding of a transport on, over
/// any row of operations, whatever opened the session and whatever happened since, the send window
/// of every peer that has statistics is the configured one, and its receive window is the
/// configured one, or 128 where that is smaller.
pub proof fn law_stats_report_the_configuration(
    states: Seq<PeerView>,
    local_addr: SocketAddr,
    config: KcpConfig,
    outlet: Outlet,
    incarnation: u64,
    peer: SocketAddr,
    now: u64,
    stats: Option<PeerStats>,
)
    requires
        config.snd_wnd > 0,
        config.rcv_wnd > 0,
        states.len() > 0,
        fresh_peer(states[0], local_addr, config, outlet, incarnation),
        forall|k: int| 0 <= k < states.len() ==> (#[trigger] states[k]).wf(),
        forall|k: int| #![trigger states[k]]
            0 <= k < states.len() - 1 ==> operates(states[k], states[k + 1]),
        stats_step(states.last(), peer, now, stats),
    ensures
        stats matches Some(found) ==> {
            &&& found.send_wnd == config.snd_wnd
            &&& config.rcv_wnd >= 128 ==> found.recv_wnd == config.rcv_wnd
            &&& config.rcv_wnd < 128 ==> found.recv_wnd == 128
        },
{
    lemma_states_follow(states, config, states.len() - 1);
    let last = states.last();
    let can = spec_canonicalize(peer);
    if has_session(last.sessions, can) {
        let i = session_index(last.sessions, can);
        assert(keeps(last.sessions, can, i));
        assert(engine_follows(last.sessions[i].engine(), config));
    }
}

/// Every state of a row of operations follows the configuration.
proof fn lemma_states_follow(states: Seq<PeerView>, config: KcpConfig, k: int)
    requires
        config.snd_wnd > 0,
        config.rcv_wnd > 0,
        0 <= k < states.len(),
        states[0].config == config,
        states[0].sessions.len() == 0,
        states[0].lobby.len() == 0,
        forall|k: int| 0 <= k < states.len() ==> (#[trigger] states[k]).wf(),
        forall|k: int| #![trigger states[k]]
            0 <= k < states.len() - 1 ==> operates(states[k], states[k + 1]),
    ensures
        states[k].config == config,
        all_follow(states[k].sessions, config),
        all_follow(states[k].lobby, config),
    decreases k,
{
    if k > 0 {
        lemma_states_follow(states, config, k - 1);
        assert(states[k - 1].wf());
        assert(operates(states[k - 1], states[k - 1 + 1]));
        lemma_operation_follows(states[k - 1], states[k]);
    }
}

} // verus!
