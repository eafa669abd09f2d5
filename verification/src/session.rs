//! A session with one peer: the handshake, the KCP engine and the reads and writes on it.

use crate::addr::SocketAddr;
use crate::buffer::{bytes_mut_slice, bytes_mut_slice_mut, bytes_mut_view};
use crate::config::KcpConfig;
use crate::engine::{
    after_recv, describe, fed, first_message, first_packet, fragment_count, frames_handed,
    fragments, handed, kcp_fed, kcp_flush, kcp_flushed, kcp_input, kcp_is_dead_link, kcp_new,
    kcp_peeksize, kcp_recv, kcp_send, kcp_set_conv, kcp_state, kcp_update, kcp_updated,
    kcp_wait_snd, message_span, new_state, peek, plain_result, transmitted, window_share,
    window_used, Datagram, DatagramView, KcpState, Outlet, Segment, KCP_OVERHEAD, KCP_WND_RCV,
};
use crate::error::{Error, KcpError, Result};
use crate::packet::{control_packet, encode_control, PacketType};
use crate::time::{duration_nanos, NANOS_PER_MILLI};
use bytes::BytesMut;
use kcp::Kcp;
use std::time::Duration;
use vstd::arithmetic::power2::pow2;
use vstd::prelude::*;
use vstd::slice::slice_subrange;

pub use crate::engine::DirectOutput;
pub use crate::time::{current_ms, epoch_ms};

verus! {

/// Session state machine.
#[derive(Debug, Clone, Copy, PartialEq, Eq, Structural)]
pub enum SessionState {
    /// A SYN was sent and not answered: how often it was repeated, and when it was last sent.
    SynSent { retries: u32, sent_at: u64 },
    Established,
    Closing,
}

/// The part of a session that reads and writes go through.
pub struct SessionInner {
    pub kcp: Kcp<DirectOutput>,
    pub conv_id: u32,
    pub state: SessionState,
    pub incarnation: u64,
    /// The rest of a message that a read took only in part.
    pub recv_buf: BytesMut,
}

/// A peer session.
pub struct Session {
    pub inner: SessionInner,
    pub closed: bool,
    /// When the last packet came from the peer, in milliseconds since the Unix epoch.
    pub last_rx: u64,
    pub peer_addr: SocketAddr,
}

/// A session, with the rest of a message as the bytes it holds.
pub struct SessionView {
    pub kcp: Kcp<DirectOutput>,
    pub conv_id: u32,
    pub state: SessionState,
    pub incarnation: u64,
    pub recv_buf: Seq<u8>,
    pub closed: bool,
    pub last_rx: u64,
    pub peer_addr: SocketAddr,
}

impl View for Session {
    type V = SessionView;

    open spec fn view(&self) -> SessionView {
        SessionView {
            kcp: self.inner.kcp,
            conv_id: self.inner.conv_id,
            state: self.inner.state,
            incarnation: self.inner.incarnation,
            recv_buf: bytes_mut_view(self.inner.recv_buf),
            closed: self.closed,
            last_rx: self.last_rx,
            peer_addr: self.peer_addr,
        }
    }
}

impl SessionView {
    /// The state of the KCP engine.
    pub open spec fn engine(self) -> KcpState {
        kcp_state(self.kcp)
    }

    /// What holds of every session: KCP speaks the session's conversation, in messages that fit
    /// its packets, to the session's peer, the receive window is used, and nothing is
    /// transmitted before the handshake is done.
    pub open spec fn wf(self) -> bool {
        &&& self.engine().conv == self.conv_id
        &&& !self.engine().waiting_conv
        &&& !self.engine().stream
        &&& self.engine().mss > 0
        &&& self.engine().mss + KCP_OVERHEAD == self.engine().mtu
        &&& self.engine().mtu <= u16::MAX
        &&& self.engine().output.peer == self.peer_addr
        &&& self.engine().rcv_wnd >= KCP_WND_RCV
        &&& window_used(self.engine())
        &&& self.state is SynSent ==> self.engine().in_flight == 0 && !self.engine().updated
    }

    /// The next read takes from these bytes: the rest of a message, or the next message.
    pub open spec fn readable(self) -> std::result::Result<Seq<u8>, KcpError> {
        if self.recv_buf.len() > 0 {
            Ok(self.recv_buf)
        } else {
            match peek(self.engine().received) {
                Ok(_) => Ok(first_message(self.engine().received)),
                Err(err) => Err(err),
            }
        }
    }
}

/// A session as it is created: a configured engine with nothing queued.
pub open spec fn fresh_session(
    session: SessionView,
    conv: u32,
    peer: SocketAddr,
    outlet: Outlet,
    incarnation: u64,
    config: KcpConfig,
    state: SessionState,
    now: u64,
) -> bool {
    &&& session == (SessionView {
        kcp: session.kcp,
        conv_id: conv,
        state,
        incarnation,
        recv_buf: Seq::empty(),
        closed: false,
        last_rx: now,
        peer_addr: peer,
    })
    &&& session.engine() == config.applied(new_state(conv, DirectOutput { outlet, peer }))
}

/// What sending returns: a closed session refuses, and so does KCP on a message of too many
/// fragments.
pub open spec fn send_result(session: SessionView, data: Seq<u8>) -> Result<()> {
    if session.closed {
        Err(Error::SessionClosed)
    } else if fragment_count(data.len(), session.engine().mss as nat) >= KCP_WND_RCV {
        Err(Error::Kcp(KcpError::UserBufTooBig))
    } else {
        Ok(())
    }
}

/// What sending does: the fragments of the data join the unsent segments, unless it is refused.
pub open spec fn data_sent(before: SessionView, data: Seq<u8>, after: SessionView) -> bool {
    if send_result(before, data) is Ok {
        &&& after == (SessionView { kcp: after.kcp, ..before })
        &&& after.engine() == (KcpState {
            unsent: before.engine().unsent + fragments(data, before.engine().mss as nat),
            ..before.engine()
        })
    } else {
        after == before
    }
}

/// A session after its timer was driven: KCP is updated, once the handshake is done. What the
/// output answered to KCP is given.
pub open spec fn driven(
    session: SessionView,
    current_ms: u32,
    answers: Seq<std::io::Result<usize>>,
) -> SessionView {
    if session.state is SynSent {
        session
    } else {
        SessionView { kcp: kcp_updated(session.kcp, current_ms, answers).0, ..session }
    }
}

/// What driving the timer returns: that the link is dead, that the output failed, or the number
/// of segments not acknowledged.
pub open spec fn update_result(
    session: SessionView,
    current_ms: u32,
    answers: Seq<std::io::Result<usize>>,
) -> Result<usize> {
    let engine = driven(session, current_ms, answers).engine();
    if engine.dead {
        Err(Error::DeadLink)
    } else {
        match kcp_updated(session.kcp, current_ms, answers).1 {
            Err(err) if !(session.state is SynSent) => Err(Error::Kcp(err)),
            _ => Ok((engine.in_flight + engine.unsent.len()) as usize),
        }
    }
}

/// What driving the timer did: the session and the result are those of some answers of the
/// output, and nothing queued was lost.
pub open spec fn drives(
    before: SessionView,
    current_ms: u32,
    answers: Seq<std::io::Result<usize>>,
    after: SessionView,
    waiting: Result<usize>,
) -> bool {
    &&& after == driven(before, current_ms, answers)
    &&& waiting == update_result(before, current_ms, answers)
    &&& waiting matches Err(err) ==> err == Error::DeadLink || err == Error::Kcp(KcpError::Output)
    &&& before.state is SynSent ==> waiting != Err::<usize, Error>(Error::Kcp(KcpError::Output))
    &&& transmitted(before.engine(), after.engine())
}

/// A session that entered the established state: the peer was heard, and what was queued during
/// the handshake is flushed. What the output answered to the update and to the flush is given.
pub open spec fn established(
    session: SessionView,
    now: u64,
    current_ms: u32,
    updating: Seq<std::io::Result<usize>>,
    flushing: Seq<std::io::Result<usize>>,
) -> SessionView {
    SessionView {
        kcp: kcp_flushed(kcp_updated(session.kcp, current_ms, updating).0, flushing).0,
        state: SessionState::Established,
        last_rx: now,
        ..session
    }
}

/// What entering the established state did: nothing queued was lost, the first packet carries
/// what was queued first, and where the output did not fail, what the windows allow has left.
pub open spec fn establishes(
    before: SessionView,
    now: u64,
    current_ms: u32,
    updating: Seq<std::io::Result<usize>>,
    flushing: Seq<std::io::Result<usize>>,
    after: SessionView,
) -> bool {
    &&& after == established(before, now, current_ms, updating, flushing)
    &&& transmitted(before.engine(), after.engine())
    &&& kcp_updated(before.kcp, current_ms, updating).1 is Ok && !before.engine().updated
        && before.engine().no_congestion && before.engine().in_flight == 0
        ==> after.engine().in_flight >= window_share(before.engine())
    &&& after.engine().clock == current_ms
    &&& !before.engine().updated ==> first_packet(before.engine(), after.engine())
}

/// The messages that can be read from an engine, in order, up to the first that is not complete.
pub open spec fn drained_messages(state: KcpState) -> Seq<Seq<u8>>
    decreases state.received.len() + state.ready.len(),
{
    if peek(state.received) is Err {
        Seq::empty()
    } else {
        proof {
            lemma_after_recv_shrinks(state);
        }
        seq![first_message(state.received)] + drained_messages(after_recv(state))
    }
}

/// The state of an engine once all complete messages have been read.
pub open spec fn drained_state(state: KcpState) -> KcpState
    decreases state.received.len() + state.ready.len(),
{
    if peek(state.received) is Err {
        state
    } else {
        proof {
            lemma_after_recv_shrinks(state);
        }
        drained_state(after_recv(state))
    }
}

/// The wait before SYN retry `retries` is the base interval doubled that many times; whether it
/// has passed between two instants.
pub open spec fn syn_due(base: Duration, retries: u32, sent_at: u64, now: u64) -> bool {
    let elapsed: int = if now >= sent_at {
        now - sent_at
    } else {
        0
    };
    duration_nanos(base) * pow2(retries as nat) <= elapsed * NANOS_PER_MILLI
}

/// What a look at the handshake timer returns: a SYN once the wait has passed, and that the link
/// is dead once all retries are spent.
pub open spec fn retry_result(session: SessionView, config: KcpConfig, now: u64) -> Result<
    Option<DatagramView>,
> {
    match session.state {
        SessionState::SynSent { retries, sent_at } => {
            if retries >= config.syn_max_retries {
                Err(Error::DeadLink)
            } else if syn_due(config.syn_retry_interval, retries, sent_at, now) {
                Ok(
                    Some(
                        DatagramView {
                            to: session.peer_addr,
                            packet: control_packet(PacketType::Syn, session.conv_id),
                        },
                    ),
                )
            } else {
                Ok(None)
            }
        },
        _ => Ok(None),
    }
}

/// A session after a look at the handshake timer: a SYN that was repeated is counted.
pub open spec fn retried(session: SessionView, config: KcpConfig, now: u64) -> SessionView {
    match (session.state, retry_result(session, config, now)) {
        (SessionState::SynSent { retries, .. }, Ok(Some(_))) => SessionView {
            state: SessionState::SynSent { retries: (retries + 1) as u32, sent_at: now },
            ..session
        },
        _ => session,
    }
}

/// How many bytes a read takes into a buffer of the given room.
pub open spec fn read_size(bytes: Seq<u8>, room: nat) -> nat {
    if room < bytes.len() {
        room
    } else {
        bytes.len()
    }
}

/// A session after a read into a buffer of the given room: what the read did not take is kept
/// for the next, and the message is gone from KCP.
pub open spec fn bytes_read(before: SessionView, room: nat, after: SessionView) -> bool {
    let bytes = before.readable()->Ok_0;
    &&& after == (SessionView {
        kcp: after.kcp,
        recv_buf: bytes.skip(read_size(bytes, room) as int),
        ..before
    })
    &&& if before.recv_buf.len() > 0 {
        after.kcp == before.kcp
    } else {
        after.engine() == after_recv(before.engine())
    }
}

/// The bytes of a sequence of buffers.
pub open spec fn message_views(msgs: Seq<BytesMut>) -> Seq<Seq<u8>> {
    msgs.map_values(|msg: BytesMut| bytes_mut_view(msg))
}

/// The first message of a nonempty queue takes at least one segment and no more than there are.
pub proof fn lemma_message_span(queue: Seq<Segment>)
    requires
        queue.len() > 0,
    ensures
        1 <= message_span(queue) <= queue.len(),
    decreases queue.len(),
{
    reveal_with_fuel(message_span, 2);
    if queue[0].frg != 0 && queue.len() > 1 {
        lemma_message_span(queue.skip(1));
    }
}

/// Reading a message leaves fewer segments to read.
pub proof fn lemma_after_recv_shrinks(state: KcpState)
    requires
        state.received.len() > 0,
    ensures
        after_recv(state).received.len() + after_recv(state).ready.len() < state.received.len()
            + state.ready.len(),
{
    lemma_message_span(state.received);
}

/// Driving an engine may leave it as it is.
pub proof fn lemma_transmitted_reflexive(state: KcpState)
    ensures
        transmitted(state, state),
{
    assert(state.unsent.skip(0) =~= state.unsent);
}

/// Driving an engine twice is driving it.
pub proof fn lemma_transmitted_transitive(a: KcpState, b: KcpState, c: KcpState)
    requires
        transmitted(a, b),
        transmitted(b, c),
    ensures
        transmitted(a, c),
{
    assert(c.unsent =~= a.unsent.skip(a.unsent.len() - c.unsent.len()));
    assert(frames_handed(a.output, c.output)) by {
        let sent = handed(a.output.outlet.queue);
        let more = handed(b.output.outlet.queue);
        let all = handed(c.output.outlet.queue);
        assert forall|i: int| sent.len() <= i < all.len() implies (#[trigger] all[i]).to
            == a.output.peer && all[i].packet.len() > 0 && all[i].packet[0]
            == PacketType::KcpData.byte() by {
            if i < more.len() {
                assert(all[i] == more[i]);
            }
        }
    }
}

/// Copies the first `n` bytes of `src` over those of `dst`.
fn copy_prefix(dst: &mut [u8], src: &[u8], n: usize)
    requires
        n <= old(dst)@.len(),
        n <= src@.len(),
    ensures
        final(dst)@ == src@.take(n as int) + old(dst)@.skip(n as int),
{
    let mut i: usize = 0;
    while i < n
        invariant
            i <= n,
            n <= src@.len(),
            n <= old(dst)@.len(),
            dst@.len() == old(dst)@.len(),
            dst@ =~= src@.take(i as int) + old(dst)@.skip(i as int),
        decreases n - i,
    {
        dst[i] = src[i];
        i += 1;
    }
}

/// Whether the wait before a SYN retry has passed between two instants.
fn is_syn_due(base: Duration, retries: u32, sent_at: u64, now: u64) -> (due: bool)
    ensures
        due == syn_due(base, retries, sent_at, now),
{
    let elapsed: u128 = (now.saturating_sub(sent_at) as u128) * NANOS_PER_MILLI;
    let base_nanos: u128 = base.as_nanos();
    if base_nanos == 0 {
        return true;
    }
    let mut wait: u128 = base_nanos;
    let mut i: u32 = 0;
    proof {
        vstd::arithmetic::power2::lemma2_to64();
    }
    while i < retries && wait <= elapsed
        invariant
            i <= retries,
            elapsed <= 0xffff_ffff_ffff_ffff * 1_000_000,
            wait == base_nanos * pow2(i as nat),
        decreases retries - i,
    {
        proof {
            vstd::arithmetic::power2::lemma_pow2_unfold((i + 1) as nat);
            assert(base_nanos * (2 * pow2(i as nat)) == 2 * (base_nanos * pow2(i as nat)))
                by (nonlinear_arith);
        }
        wait = wait * 2;
        i += 1;
    }
    proof {
        if i < retries {
            vstd::arithmetic::power2::lemma_pow2_strictly_increases(i as nat, retries as nat);
            assert(base_nanos * pow2(i as nat) <= base_nanos * pow2(retries as nat))
                by (nonlinear_arith)
                requires
                    pow2(i as nat) < pow2(retries as nat),
            ;
        }
    }
    wait <= elapsed
}

impl Session {
    /// Create a new outbound (initiator) session. The SYN is sent with
    /// [`send_syn`](Session::send_syn).
    pub fn new_outbound(
        conv_id: u32,
        peer_addr: SocketAddr,
        outlet: Outlet,
        incarnation: u64,
        config: &KcpConfig,
        now: u64,
    ) -> (session: Session)
        ensures
            session@.wf(),
            fresh_session(
                session@,
                conv_id,
                peer_addr,
                outlet,
                incarnation,
                *config,
                SessionState::SynSent { retries: 0, sent_at: now },
                now,
            ),
    {
        let mut kcp = kcp_new(conv_id, DirectOutput { outlet, peer: peer_addr });
        config.apply_to(&mut kcp);
        Session {
            inner: SessionInner {
                kcp,
                conv_id,
                state: SessionState::SynSent { retries: 0, sent_at: now },
                incarnation,
                recv_buf: BytesMut::with_capacity(0),
            },
            closed: false,
            last_rx: now,
            peer_addr,
        }
    }

    /// Create a new inbound (receiver) session after receiving SYN, with the SYN_ACK that
    /// answers it.
    pub fn new_inbound(
        conv_id: u32,
        peer_addr: SocketAddr,
        outlet: Outlet,
        incarnation: u64,
        config: &KcpConfig,
        now: u64,
    ) -> (created: (Session, Datagram))
        ensures
            created.0@.wf(),
            fresh_session(
                created.0@,
                conv_id,
                peer_addr,
                outlet,
                incarnation,
                *config,
                SessionState::Established,
                now,
            ),
            created.1@ == (DatagramView {
                to: peer_addr,
                packet: control_packet(PacketType::SynAck, conv_id),
            }),
    {
        let mut kcp = kcp_new(conv_id, DirectOutput { outlet, peer: peer_addr });
        config.apply_to(&mut kcp);
        let syn_ack = encode_control(PacketType::SynAck, conv_id);
        let session = Session {
            inner: SessionInner {
                kcp,
                conv_id,
                state: SessionState::Established,
                incarnation,
                recv_buf: BytesMut::with_capacity(0),
            },
            closed: false,
            last_rx: now,
            peer_addr,
        };
        (session, Datagram { to: peer_addr, packet: syn_ack })
    }

    /// The SYN that opens the handshake.
    pub fn send_syn(&self) -> (syn: Datagram)
        ensures
            syn@ == (DatagramView {
                to: self@.peer_addr,
                packet: control_packet(PacketType::Syn, self@.conv_id),
            }),
    {
        Datagram {
            to: self.peer_addr,
            packet: encode_control(PacketType::Syn, self.inner.conv_id),
        }
    }

    /// Mark session as closed.
    pub fn mark_closed(&mut self)
        ensures
            final(self)@ == (SessionView { closed: true, ..old(self)@ }),
    {
        self.closed = true;
    }

    /// Send data through this session.
    /// Queues data to KCP's send buffer, to be flushed by the next update.
    pub fn send_data(&mut self, data: &[u8]) -> (sent: Result<()>)
        requires
            old(self)@.wf(),
        ensures
            final(self)@.wf(),
            sent == send_result(old(self)@, data@),
            data_sent(old(self)@, data@, final(self)@),
    {
        if self.closed {
            return Err(Error::SessionClosed);
        }
        match kcp_send(&mut self.inner.kcp, data) {
            Ok(_) => Ok(()),
            Err(err) => Err(Error::Kcp(describe(err))),
        }
    }

    /// Drive KCP update timer. Returns number of segments still in flight, or that the link is
    /// dead, whether the output failed or not.
    ///
    /// What was queued during the handshake stays queued until the handshake is done.
    pub fn update(&mut self, current_ms: u32) -> (waiting: Result<usize>)
        requires
            old(self)@.wf(),
        ensures
            final(self)@.wf(),
            exists|answers: Seq<std::io::Result<usize>>|
                #[trigger] drives(old(self)@, current_ms, answers, final(self)@, waiting),
    {
        proof {
            lemma_transmitted_reflexive(self@.engine());
        }
        let handshake = match self.inner.state {
            SessionState::SynSent { .. } => true,
            _ => false,
        };
        let mut updated = Ok(());
        if !handshake {
            updated = kcp_update(&mut self.inner.kcp, current_ms);
        }
        let ghost answers = choose|answers: Seq<std::io::Result<usize>>|
            #[trigger] kcp_updated(old(self)@.kcp, current_ms, answers) == (
                self@.kcp,
                plain_result(updated),
            );
        let waiting = if kcp_is_dead_link(&self.inner.kcp) {
            Err(Error::DeadLink)
        } else {
            match updated {
                Err(err) => Err(Error::Kcp(describe(err))),
                Ok(()) => Ok(kcp_wait_snd(&self.inner.kcp)),
            }
        };
        assert(drives(old(self)@, current_ms, answers, self@, waiting));
        waiting
    }

    /// Enter the established state and flush what was queued during the handshake.
    pub fn establish(&mut self, now: u64, current_ms: u32)
        requires
            old(self)@.wf(),
        ensures
            final(self)@.wf(),
            exists|
                updating: Seq<std::io::Result<usize>>,
                flushing: Seq<std::io::Result<usize>>,
            | #[trigger]
                establishes(old(self)@, now, current_ms, updating, flushing, final(self)@),
    {
        self.inner.state = SessionState::Established;
        self.last_rx = now;
        let updated = kcp_update(&mut self.inner.kcp, current_ms);
        let ghost between = self@.kcp;
        let flushed = kcp_flush(&mut self.inner.kcp);
        proof {
            lemma_transmitted_transitive(
                old(self)@.engine(),
                kcp_state(between),
                self@.engine(),
            );
            let updating = choose|answers: Seq<std::io::Result<usize>>|
                #[trigger] kcp_updated(old(self)@.kcp, current_ms, answers) == (
                    between,
                    plain_result(updated),
                );
            let flushing = choose|answers: Seq<std::io::Result<usize>>|
                #[trigger] kcp_flushed(between, answers) == (self@.kcp, plain_result(flushed));
            assert(establishes(old(self)@, now, current_ms, updating, flushing, self@));
        }
    }

    /// Take over the conversation id that the peer chose.
    pub fn adopt_conv(&mut self, conv: u32)
        requires
            old(self)@.wf(),
        ensures
            final(self)@.wf(),
            final(self)@ == (SessionView {
                kcp: final(self)@.kcp,
                conv_id: conv,
                ..old(self)@
            }),
            final(self)@.engine() == (KcpState { conv, ..old(self)@.engine() }),
    {
        kcp_set_conv(&mut self.inner.kcp, conv);
        self.inner.conv_id = conv;
    }

    /// Feed incoming KCP data.
    pub fn input(&mut self, data: &[u8]) -> (taken: Result<()>)
        requires
            old(self)@.wf(),
        ensures
            final(self)@.wf(),
            final(self)@ == (SessionView { kcp: kcp_fed(old(self)@.kcp, data@).0, ..old(self)@ }),
            fed(old(self)@.kcp, data@, kcp_fed(old(self)@.kcp, data@).1, final(self)@.kcp),
            taken == match kcp_fed(old(self)@.kcp, data@).1 {
                Ok(_) => Ok::<(), Error>(()),
                Err(err) => Err::<(), Error>(Error::Kcp(err)),
            },
    {
        match kcp_input(&mut self.inner.kcp, data) {
            Ok(_) => Ok(()),
            Err(err) => Err(Error::Kcp(describe(err))),
        }
    }

    /// Try to extract a complete message. Returns `Some(data)` if available.
    /// Call after `input()` to drain newly arrived messages.
    pub fn try_recv(&mut self) -> (message: Result<Option<BytesMut>>)
        requires
            old(self)@.wf(),
        ensures
            final(self)@.wf(),
            match peek(old(self)@.engine().received) {
                Ok(_) => {
                    &&& message matches Ok(Some(buf))
                    &&& bytes_mut_view(buf) == first_message(old(self)@.engine().received)
                    &&& final(self)@ == (SessionView { kcp: final(self)@.kcp, ..old(self)@ })
                    &&& final(self)@.engine() == after_recv(old(self)@.engine())
                },
                Err(err) => {
                    &&& message == if err == KcpError::RecvQueueEmpty {
                        Ok::<Option<BytesMut>, Error>(None)
                    } else {
                        Err(Error::Kcp(err))
                    }
                    &&& final(self)@ == old(self)@
                },
            },
    {
        match kcp_peeksize(&self.inner.kcp) {
            Ok(size) => {
                let mut buf = BytesMut::zeroed(size);
                match kcp_recv(&mut self.inner.kcp, bytes_mut_slice_mut(&mut buf)) {
                    Ok(_) => {
                        assert(bytes_mut_view(buf) =~= first_message(
                            old(self)@.engine().received,
                        ));
                        Ok(Some(buf))
                    },
                    Err(err) => Err(Error::Kcp(describe(err))),
                }
            },
            Err(err) => {
                let cause = describe(err);
                if cause == KcpError::RecvQueueEmpty {
                    Ok(None)
                } else {
                    Err(Error::Kcp(cause))
                }
            },
        }
    }

    /// Extract all complete messages, in order. A message that still misses fragments stays.
    pub fn try_recv_all(&mut self, msgs: &mut Vec<BytesMut>)
        requires
            old(self)@.wf(),
        ensures
            final(self)@.wf(),
            final(self)@ == (SessionView { kcp: final(self)@.kcp, ..old(self)@ }),
            final(self)@.engine() == drained_state(old(self)@.engine()),
            message_views(final(msgs)@) == message_views(old(msgs)@) + drained_messages(
                old(self)@.engine(),
            ),
    {
        loop
            invariant
                self@.wf(),
                self@ == (SessionView { kcp: self@.kcp, ..old(self)@ }),
                drained_state(self@.engine()) == drained_state(old(self)@.engine()),
                message_views(msgs@) + drained_messages(self@.engine()) =~= message_views(
                    old(msgs)@,
                ) + drained_messages(old(self)@.engine()),
            ensures
                peek(self@.engine().received) is Err,
            decreases self@.engine().received.len() + self@.engine().ready.len(),
        {
            let ghost before = self@.engine();
            match self.try_recv() {
                Ok(Some(buf)) => {
                    proof {
                        lemma_after_recv_shrinks(before);
                        assert(drained_messages(before) == seq![first_message(before.received)]
                            + drained_messages(after_recv(before)));
                        assert(message_views(msgs@.push(buf)) =~= message_views(msgs@)
                            + seq![first_message(before.received)]);
                    }
                    msgs.push(buf);
                },
                Ok(None) => {
                    break;
                },
                Err(_) => {
                    break;
                },
            }
        }
        proof {
            assert(drained_messages(self@.engine()) =~= Seq::<Seq<u8>>::empty());
        }
    }

    /// Peek at the next message size.
    pub fn peeksize(&self) -> (size: Result<usize>)
        ensures
            match peek(self@.engine().received) {
                Ok(expected) => size matches Ok(found) && found == expected,
                Err(err) => size == Err::<usize, Error>(Error::Kcp(err)),
            },
    {
        match kcp_peeksize(&self.inner.kcp) {
            Ok(size) => Ok(size),
            Err(err) => Err(Error::Kcp(describe(err))),
        }
    }

    /// Receive into user buffer. Returns bytes written.
    /// If user buffer is too small, spills remainder to `recv_buf`.
    pub fn recv_into(&mut self, buf: &mut [u8]) -> (read: Result<usize>)
        requires
            old(self)@.wf(),
        ensures
            final(self)@.wf(),
            match old(self)@.readable() {
                Ok(bytes) => {
                    let n = read_size(bytes, old(buf)@.len());
                    &&& read matches Ok(count)
                    &&& count == n
                    &&& final(buf)@ == bytes.take(n as int) + old(buf)@.skip(n as int)
                    &&& bytes_read(old(self)@, old(buf)@.len(), final(self)@)
                },
                Err(err) => {
                    &&& read == Err::<usize, Error>(Error::Kcp(err))
                    &&& final(buf)@ == old(buf)@
                    &&& final(self)@ == old(self)@
                },
            },
    {
        if self.inner.recv_buf.len() > 0 {
            let held: usize = self.inner.recv_buf.len();
            let to_copy: usize = if buf.len() < held {
                buf.len()
            } else {
                held
            };
            copy_prefix(buf, bytes_mut_slice(&self.inner.recv_buf), to_copy);
            if to_copy < held {
                let remaining = self.inner.recv_buf.split_off(to_copy);
                self.inner.recv_buf = remaining;
            } else {
                self.inner.recv_buf.clear();
            }
            assert(self@.recv_buf =~= old(self)@.recv_buf.skip(to_copy as int));
            return Ok(to_copy);
        }
        let size: usize = match kcp_peeksize(&self.inner.kcp) {
            Ok(size) => size,
            Err(_) => 0,
        };
        if size > buf.len() {
            let mut tmp: Vec<u8> = vec![0u8; size];
            match kcp_recv(&mut self.inner.kcp, tmp.as_mut_slice()) {
                Ok(n) => {
                    let to_copy: usize = buf.len();
                    copy_prefix(buf, tmp.as_slice(), to_copy);
                    self.inner.recv_buf.extend_from_slice(
                        slice_subrange(tmp.as_slice(), to_copy, n),
                    );
                    proof {
                        let message = first_message(old(self)@.engine().received);
                        assert(tmp@ =~= message);
                        assert(self@.recv_buf =~= message.skip(to_copy as int));
                    }
                    Ok(to_copy)
                },
                Err(err) => Err(Error::Kcp(describe(err))),
            }
        } else {
            match kcp_recv(&mut self.inner.kcp, buf) {
                Ok(n) => {
                    proof {
                        let message = first_message(old(self)@.engine().received);
                        assert(message.take(n as int) =~= message);
                        assert(self@.recv_buf =~= message.skip(n as int));
                    }
                    Ok(n)
                },
                Err(err) => Err(Error::Kcp(describe(err))),
            }
        }
    }

    /// Look at the handshake timer: repeat the SYN once the wait has passed, and report a dead
    /// link once all retries are spent.
    pub fn maybe_retry_syn(&mut self, config: &KcpConfig, now: u64) -> (retry: Result<
        Option<Datagram>,
    >)
        requires
            old(self)@.wf(),
        ensures
            final(self)@.wf(),
            final(self)@ == retried(old(self)@, *config, now),
            match retry {
                Ok(Some(syn)) => retry_result(old(self)@, *config, now) == Ok::<
                    Option<DatagramView>,
                    Error,
                >(Some(syn@)),
                Ok(None) => retry_result(old(self)@, *config, now) == Ok::<
                    Option<DatagramView>,
                    Error,
                >(None),
                Err(err) => retry_result(old(self)@, *config, now) == Err::<
                    Option<DatagramView>,
                    Error,
                >(err),
            },
    {
        match self.inner.state {
            SessionState::SynSent { retries, sent_at } => {
                if retries >= config.syn_max_retries {
                    return Err(Error::DeadLink);
                }
                if !is_syn_due(config.syn_retry_interval, retries, sent_at, now) {
                    return Ok(None);
                }
                self.inner.state = SessionState::SynSent { retries: retries + 1, sent_at: now };
                Ok(Some(self.send_syn()))
            },
            _ => Ok(None),
        }
    }
}

} // verus!
