//! What the transport relies on of the `kcp` crate.
//!
//! The crate keeps its sequence numbers and clocks in 32-bit counters that wrap. It is meant to
//! be built without overflow checks, as release builds are.

use crate::addr::SocketAddr;
use crate::buffer::bytes_mut_view;
use crate::error::KcpError;
use crate::packet::{conv_bytes, conv_of, data_packet, encode_kcp_data, PacketType};
use bytes::BytesMut;
use kcp::Error as KcpFault;
use kcp::Kcp;
use std::io::Error as IoFault;
use std::sync::mpsc::{Receiver, Sender};
use std::task::Waker;
use vstd::prelude::*;

verus! {

/// The size of a KCP segment header.
pub const KCP_OVERHEAD: usize = 24;

/// The smallest MTU that KCP takes.
pub const KCP_MIN_MTU: u16 = 50;

/// A message of this many fragments or more is refused; also the smallest receive window.
pub const KCP_WND_RCV: u16 = 128;

/// The command byte of a KCP segment that carries data.
pub const KCP_CMD_PUSH: u8 = 81;

/// The KCP protocol engine, carried as an opaque value.
#[verifier::external_type_specification]
#[verifier::external_body]
#[verifier::reject_recursive_types(Output)]
pub struct ExKcp<Output>(kcp::Kcp<Output>);

/// The errors of the `kcp` crate, carried as opaque values.
#[verifier::external_type_specification]
#[verifier::external_body]
pub struct ExKcpFault(KcpFault);

/// The I/O errors of the standard library, carried as opaque values.
#[verifier::external_type_specification]
#[verifier::external_body]
pub struct ExIoFault(IoFault);

/// The sending half of a channel. A value stands for the channel it sends to and for what was
/// handed over through it so far.
#[verifier::external_type_specification]
#[verifier::external_body]
#[verifier::reject_recursive_types(T)]
pub struct ExSender<T>(std::sync::mpsc::Sender<T>);

/// The receiving half of a channel, carried as an opaque value.
#[verifier::external_type_specification]
#[verifier::external_body]
#[verifier::reject_recursive_types(T)]
pub struct ExReceiver<T>(std::sync::mpsc::Receiver<T>);

/// A handle that wakes whoever serves the socket. A value stands for what it wakes.
#[verifier::external_type_specification]
#[verifier::external_body]
pub struct ExWaker(std::task::Waker);

/// A datagram on its way to the socket.
#[derive(Debug, PartialEq, Eq)]
pub struct Datagram {
    pub to: SocketAddr,
    pub packet: BytesMut,
}

/// A datagram as plain values.
pub struct DatagramView {
    pub to: SocketAddr,
    pub packet: Seq<u8>,
}

impl View for Datagram {
    type V = DatagramView;

    open spec fn view(&self) -> DatagramView {
        DatagramView { to: self.to, packet: bytes_mut_view(self.packet) }
    }
}

/// A datagram for the socket, with the way back for what the socket answers.
#[derive(Debug)]
pub struct Outgoing {
    pub datagram: Datagram,
    pub answer: Sender<std::io::Result<usize>>,
}

/// The way out to the socket. Datagrams are put into the queue, and whoever serves the socket is
/// woken: it tries to send them before it returns, and puts the socket's answer into the way
/// back.
#[derive(Debug)]
pub struct Outlet {
    pub queue: Sender<Outgoing>,
    pub waker: Waker,
}

/// Output that hands KCP frames on to the socket, each as one data packet to the peer.
/// A frame that finds the socket busy is silently dropped: KCP retransmission handles it. Any
/// other failure of the socket comes back to KCP.
#[derive(Debug)]
pub struct DirectOutput {
    pub outlet: Outlet,
    pub peer: SocketAddr,
}

/// The datagrams that were given to `Sender::send` on a handle of the queue, in order. A handle
/// that was cloned starts from those of the handle it was cloned from.
pub uninterp spec fn handed(queue: Sender<Outgoing>) -> Seq<DatagramView>;

/// Whether an I/O error says that the operation would have had to wait.
pub uninterp spec fn io_would_block(err: IoFault) -> bool;

/// `Sender::send`: hands a datagram over. Whether a receiver is still there is outside the
/// library, so nothing is claimed of the result.
#[verifier::external_body]
fn queue_send(queue: &mut Sender<Outgoing>, outgoing: Outgoing) -> (accepted: bool)
    ensures
        handed(*final(queue)) == handed(*old(queue)).push(outgoing.datagram@),
{
    queue.send(outgoing).is_ok()
}

/// `Sender::clone`: another handle on the same channel.
#[verifier::external_body]
fn queue_handle(queue: &Sender<Outgoing>) -> (handle: Sender<Outgoing>)
    ensures
        handle == *queue,
{
    queue.clone()
}

/// `Waker::clone`: another handle that wakes the same.
#[verifier::external_body]
fn waker_handle(waker: &Waker) -> (handle: Waker)
    ensures
        handle == *waker,
{
    waker.clone()
}

/// `Waker::wake_by_ref`: wakes whoever serves the socket. What is done there is outside the
/// library.
#[verifier::external_body]
fn wake(waker: &Waker) {
    waker.wake_by_ref()
}

/// `mpsc::channel`: a way back for one answer. Nothing is claimed of what will come through.
#[verifier::external_body]
fn answer_channel() -> (halves: (
    Sender<std::io::Result<usize>>,
    Receiver<std::io::Result<usize>>,
)) {
    std::sync::mpsc::channel()
}

/// `Receiver::try_recv`: the answer, if one has come. It is the socket's, so nothing is claimed
/// of it.
#[verifier::external_body]
fn answer_taken(answers: &Receiver<std::io::Result<usize>>) -> (answer: Option<
    std::io::Result<usize>,
>) {
    answers.try_recv().ok()
}

/// `io::Error::kind`: whether the kind is `WouldBlock`.
#[verifier::external_body]
fn would_block(err: &IoFault) -> (blocked: bool)
    ensures
        blocked == io_would_block(*err),
{
    err.kind() == std::io::ErrorKind::WouldBlock
}

impl Outlet {
    /// Another handle on the same way out.
    pub fn handle(&self) -> (handle: Outlet)
        ensures
            handle == *self,
    {
        Outlet { queue: queue_handle(&self.queue), waker: waker_handle(&self.waker) }
    }

    /// Have a datagram sent, and take the socket's answer, if one has come.
    fn submit(&mut self, datagram: Datagram) -> (answer: Option<std::io::Result<usize>>)
        ensures
            handed(final(self).queue) == handed(old(self).queue).push(datagram@),
            final(self).waker == old(self).waker,
    {
        let (back, answers) = answer_channel();
        let _accepted: bool = queue_send(&mut self.queue, Outgoing { datagram, answer: back });
        wake(&self.waker);
        answer_taken(&answers)
    }
}

/// What writing a frame of `len` bytes returns, by the socket's answer to its packet. The type
/// byte is not counted. A socket that would block, or did not answer, has dropped the frame.
pub open spec fn answered(answer: Option<std::io::Result<usize>>, len: nat) -> std::io::Result<
    usize,
> {
    match answer {
        Some(Ok(n)) => Ok(
            if n > 0 {
                (n - 1) as usize
            } else {
                0
            },
        ),
        Some(Err(err)) if !io_would_block(err) => Err(err),
        _ => Ok(len as usize),
    }
}

/// An answer of the socket that counts no more bytes than the packet of a frame has.
pub open spec fn within(answer: Option<std::io::Result<usize>>, len: nat) -> bool {
    answer matches Some(Ok(n)) ==> n <= len + 1
}

/// What writing a frame returns, by the socket's answer to its packet.
pub fn frame_answer(answer: Option<std::io::Result<usize>>, len: usize) -> (written:
    std::io::Result<usize>)
    ensures
        written == answered(answer, len as nat),
{
    match answer {
        Some(Ok(n)) => Ok(n.saturating_sub(1)),
        Some(Err(err)) => {
            if would_block(&err) {
                Ok(len)
            } else {
                Err(err)
            }
        },
        None => Ok(len),
    }
}

impl DirectOutput {
    /// The datagram that carries a frame: the data packet of the frame, to the peer.
    pub fn datagram(&self, frame: &[u8]) -> (datagram: Datagram)
        ensures
            datagram@ == (DatagramView { to: self.peer, packet: data_packet(frame@) }),
    {
        Datagram { to: self.peer, packet: encode_kcp_data(frame) }
    }
}

impl std::io::Write for DirectOutput {
    /// Tries one send: the data packet of the frame, to the peer. An answer that counts more
    /// bytes than the packet has is no answer.
    fn write(&mut self, buf: &[u8]) -> (written: std::io::Result<usize>)
        ensures
            handed(final(self).outlet.queue) == handed(old(self).outlet.queue).push(
                DatagramView { to: old(self).peer, packet: data_packet(buf@) },
            ),
            final(self).outlet.waker == old(self).outlet.waker,
            final(self).peer == old(self).peer,
            exists|answer: Option<std::io::Result<usize>>|
                within(answer, buf@.len()) && written == #[trigger] answered(answer, buf@.len()),
    {
        let datagram = self.datagram(buf);
        let mut answer = self.outlet.submit(datagram);
        if let Some(Ok(n)) = &answer {
            if n.saturating_sub(1) > buf.len() {
                answer = None;
            }
        }
        frame_answer(answer, buf.len())
    }

    fn flush(&mut self) -> (flushed: std::io::Result<()>)
        ensures
            flushed == Ok::<(), IoFault>(()),
            *final(self) == *old(self),
    {
        Ok(())
    }
}

/// One piece of a message: how many fragments of the message follow it, and its bytes.
pub struct Segment {
    pub frg: u8,
    pub data: Seq<u8>,
}

/// The state of a KCP engine, as far as the transport depends on it.
pub struct KcpState {
    /// Conversation id.
    pub conv: u32,
    /// Whether the next input sets the conversation id.
    pub waiting_conv: bool,
    /// Whether messages are merged into a stream.
    pub stream: bool,
    /// Whether the clock was ever set.
    pub updated: bool,
    /// What the clock was set to last.
    pub clock: u32,
    pub mtu: usize,
    /// The most bytes that one segment carries.
    pub mss: usize,
    pub nodelay: bool,
    pub interval: u32,
    pub fast_resend: u32,
    pub no_congestion: bool,
    pub snd_wnd: u16,
    pub rcv_wnd: u16,
    /// The window that the remote side advertised last.
    pub rmt_wnd: u16,
    pub rx_minrto: u32,
    /// Transmissions of one segment after which the link is dead.
    pub max_resend: u32,
    pub dead: bool,
    /// Segments that wait for their first transmission.
    pub unsent: Seq<Segment>,
    /// Segments sent and not acknowledged.
    pub in_flight: nat,
    /// The sequence number that the next segment to leave `unsent` gets.
    pub sn: u32,
    /// Whether nothing but segments waits to be sent: no acknowledgement, no window probe, and
    /// no bytes that a failed output left behind.
    pub quiet: bool,
    /// The sequence number of the segment to be received next.
    pub next: u32,
    /// Segments received in order and not read.
    pub received: Seq<Segment>,
    /// Segments that follow on from `received` and wait for room in the window.
    pub ready: Seq<Segment>,
    /// How many segments were received out of order and wait for others before them.
    pub early: nat,
    /// Where frames go.
    pub output: DirectOutput,
}

/// The state of a KCP engine.
pub uninterp spec fn kcp_state(kcp: Kcp<DirectOutput>) -> KcpState;

/// The engine that `Kcp::update` leaves behind at a given clock, and what it returns, where the
/// output answers its writes in turn as given.
pub uninterp spec fn kcp_updated(
    kcp: Kcp<DirectOutput>,
    now: u32,
    answers: Seq<std::io::Result<usize>>,
) -> (Kcp<DirectOutput>, Result<(), KcpError>);

/// The engine that `Kcp::flush` leaves behind, and what it returns, where the output answers its
/// writes in turn as given.
pub uninterp spec fn kcp_flushed(
    kcp: Kcp<DirectOutput>,
    answers: Seq<std::io::Result<usize>>,
) -> (Kcp<DirectOutput>, Result<(), KcpError>);

/// The engine that `Kcp::input` leaves behind on given bytes, and what it returns.
pub uninterp spec fn kcp_fed(kcp: Kcp<DirectOutput>, buf: Seq<u8>) -> (
    Kcp<DirectOutput>,
    Result<usize, KcpError>,
);

/// Which error a `kcp::Error` is.
pub uninterp spec fn kcp_error(err: KcpFault) -> KcpError;

/// The state of an engine that was just created.
pub open spec fn new_state(conv: u32, output: DirectOutput) -> KcpState {
    KcpState {
        conv,
        waiting_conv: false,
        stream: false,
        updated: false,
        clock: 0,
        mtu: 1400,
        mss: 1376,
        nodelay: false,
        interval: 100,
        fast_resend: 0,
        no_congestion: false,
        snd_wnd: 32,
        rcv_wnd: 128,
        rmt_wnd: 128,
        rx_minrto: 100,
        max_resend: 20,
        dead: false,
        unsent: Seq::empty(),
        in_flight: 0,
        sn: 0,
        quiet: true,
        next: 0,
        received: Seq::empty(),
        ready: Seq::empty(),
        early: 0,
        output,
    }
}

/// A KCP interval, held between 10 and 5000 milliseconds.
pub open spec fn clamp_interval(interval: int) -> u32 {
    if interval < 10 {
        10
    } else if interval > 5000 {
        5000
    } else {
        interval as u32
    }
}

/// The number of fragments that a message of `len` bytes is cut into.
pub open spec fn fragment_count(len: nat, mss: nat) -> nat
    recommends
        mss > 0,
{
    if len <= mss {
        1
    } else {
        ((len + mss - 1) / mss as int) as nat
    }
}

/// The fragment of a message at index `i`.
pub open spec fn fragment(data: Seq<u8>, mss: nat, i: int) -> Segment {
    let count = fragment_count(data.len(), mss);
    let start = i * mss;
    let end = if start + mss < data.len() {
        start + mss
    } else {
        data.len() as int
    };
    Segment { frg: (count - i - 1) as u8, data: data.subrange(start, end) }
}

/// A message cut into fragments of at most `mss` bytes, numbered down to zero.
pub open spec fn fragments(data: Seq<u8>, mss: nat) -> Seq<Segment> {
    Seq::new(fragment_count(data.len(), mss), |i: int| fragment(data, mss, i))
}

/// The number of segments that make up the first message of a receive queue: up to and
/// including the first with nothing to follow, or all.
pub open spec fn message_span(queue: Seq<Segment>) -> nat
    decreases queue.len(),
{
    if queue.len() == 0 {
        0
    } else if queue[0].frg == 0 {
        1
    } else {
        1 + message_span(queue.skip(1))
    }
}

/// The bytes of a sequence of segments, one after the other.
pub open spec fn joined(segments: Seq<Segment>) -> Seq<u8>
    decreases segments.len(),
{
    if segments.len() == 0 {
        Seq::empty()
    } else {
        segments[0].data + joined(segments.skip(1))
    }
}

/// The first message of a receive queue.
pub open spec fn first_message(queue: Seq<Segment>) -> Seq<u8> {
    joined(queue.take(message_span(queue) as int))
}

/// What `Kcp::peeksize` says of a receive queue: the size of its first message, if all its
/// fragments are there.
pub open spec fn peek(queue: Seq<Segment>) -> Result<nat, KcpError> {
    if queue.len() == 0 {
        Err(KcpError::RecvQueueEmpty)
    } else if queue[0].frg != 0 && queue.len() < (queue[0].frg + 1) % 256 {
        Err(KcpError::ExpectingFragment)
    } else {
        Ok(first_message(queue).len())
    }
}

/// The number of waiting segments that move into the receive queue once it is down to `len`.
pub open spec fn refill(len: nat, wnd: nat, ready: nat) -> nat {
    if wnd <= len {
        0
    } else if ready <= wnd - len {
        ready
    } else {
        (wnd - len) as nat
    }
}

/// A sequence number, so many further on. Sequence numbers wrap.
pub open spec fn advanced(sn: u32, by: int) -> u32 {
    ((sn + by) % 0x1_0000_0000) as u32
}

/// The state after the first message was read: its segments are gone, and waiting segments take
/// their room. A window that was full and is not any more is to be told to the remote side.
pub open spec fn after_recv(state: KcpState) -> KcpState {
    let rest = state.received.skip(message_span(state.received) as int);
    let moved = refill(rest.len(), state.rcv_wnd as nat, state.ready.len()) as int;
    let told = state.received.len() >= state.rcv_wnd && rest.len() + moved < state.rcv_wnd;
    KcpState {
        quiet: state.quiet && !told,
        next: advanced(state.next, moved),
        received: rest + state.ready.take(moved),
        ready: state.ready.skip(moved),
        ..state
    }
}

/// A result of the `kcp` crate, with its error as a plain value.
pub open spec fn plain_result(result: Result<(), KcpFault>) -> Result<(), KcpError> {
    match result {
        Ok(()) => Ok(()),
        Err(err) => Err(kcp_error(err)),
    }
}

/// How many packets an engine has handed over.
pub open spec fn handed_count(kcp: Kcp<DirectOutput>) -> nat {
    handed(kcp_state(kcp).output.outlet.queue).len()
}

/// Segments wait for room only where the receive window is full.
pub open spec fn window_used(state: KcpState) -> bool {
    state.ready.len() > 0 ==> state.received.len() >= state.rcv_wnd
}

/// What updating and flushing may change: segments pass from unsent to in flight, in order and
/// numbered in turn, the link may be found dead over a segment in flight, and data packets are
/// handed over for the peer.
pub open spec fn transmitted(before: KcpState, after: KcpState) -> bool {
    &&& after == (KcpState {
        unsent: after.unsent,
        in_flight: after.in_flight,
        sn: after.sn,
        quiet: after.quiet,
        dead: after.dead,
        updated: after.updated,
        clock: after.clock,
        output: after.output,
        ..before
    })
    &&& after.unsent.len() <= before.unsent.len()
    &&& after.unsent == before.unsent.skip(before.unsent.len() - after.unsent.len())
    &&& after.in_flight + after.unsent.len() == before.in_flight + before.unsent.len()
    &&& after.sn == advanced(before.sn, before.unsent.len() - after.unsent.len())
    &&& before.dead ==> after.dead
    &&& after.dead && !before.dead ==> after.in_flight > 0
    &&& before.updated ==> after.updated
    &&& frames_handed(before.output, after.output)
}

/// What writing frames to an output may change: data packets for the peer were handed over, after
/// those there were.
pub open spec fn frames_handed(before: DirectOutput, after: DirectOutput) -> bool {
    let sent = handed(before.outlet.queue);
    let all = handed(after.outlet.queue);
    &&& after.peer == before.peer
    &&& after.outlet.waker == before.outlet.waker
    &&& sent.is_prefix_of(all)
    &&& forall|i: int|
        sent.len() <= i < all.len() ==> (#[trigger] all[i]).to == before.peer
            && all[i].packet.len() > 0 && all[i].packet[0] == PacketType::KcpData.byte()
}

/// How many unsent segments fit the windows of an engine with nothing in flight.
pub open spec fn window_share(state: KcpState) -> nat {
    let wnd = if state.snd_wnd < state.rmt_wnd {
        state.snd_wnd as nat
    } else {
        state.rmt_wnd as nat
    };
    if wnd < state.unsent.len() {
        wnd
    } else {
        state.unsent.len()
    }
}

/// What a flush sends that does not fail. Without congestion control and with nothing in flight,
/// as many segments go in flight as the smaller of the two windows allows. Where segments went in
/// flight, packets were handed over. Nothing but segments waits afterwards.
pub open spec fn flushed_out(before: KcpState, after: KcpState) -> bool {
    &&& after.quiet
    &&& before.no_congestion && before.in_flight == 0 ==> after.in_flight == window_share(before)
    &&& after.in_flight > before.in_flight ==> handed(after.output.outlet.queue).len() > handed(
        before.output.outlet.queue,
    ).len()
}

/// A data segment as KCP puts it on the wire: a header of little-endian numbers, then the data.
pub open spec fn push_frame(
    conv: u32,
    frg: u8,
    wnd: u16,
    ts: u32,
    sn: u32,
    una: u32,
    data: Seq<u8>,
) -> Seq<u8> {
    conv_bytes(conv) + seq![KCP_CMD_PUSH, frg, (wnd % 256) as u8, (wnd / 256) as u8] + conv_bytes(
        ts,
    ) + conv_bytes(sn) + conv_bytes(una) + conv_bytes(data.len() as u32) + data
}

/// Data segments on the wire, one after the other, numbered in turn.
pub open spec fn push_frames(
    conv: u32,
    wnd: u16,
    ts: u32,
    sn: u32,
    una: u32,
    segments: Seq<Segment>,
) -> Seq<u8>
    decreases segments.len(),
{
    if segments.len() == 0 {
        Seq::empty()
    } else {
        push_frame(conv, segments[0].frg, wnd, ts, sn, una, segments[0].data) + push_frames(
            conv,
            wnd,
            ts,
            advanced(sn, 1),
            una,
            segments.skip(1),
        )
    }
}

/// How many of the first segments fit into so many bytes, each with its header.
pub open spec fn batch(segments: Seq<Segment>, room: int) -> nat
    decreases segments.len(),
{
    if segments.len() == 0 || KCP_OVERHEAD + segments[0].data.len() > room {
        0
    } else {
        1 + batch(segments.skip(1), room - KCP_OVERHEAD - segments[0].data.len())
    }
}

/// The room in the receive window that an engine advertises.
pub open spec fn window_free(state: KcpState) -> u16 {
    if state.received.len() < state.rcv_wnd {
        (state.rcv_wnd - state.received.len()) as u16
    } else {
        0
    }
}

/// The first packet that a flush hands over, on an engine without congestion control where
/// nothing is in flight and nothing but segments waits: the first of the segments that the
/// windows allow, as many as the MTU holds.
pub open spec fn first_packet(before: KcpState, after: KcpState) -> bool {
    let count = batch(before.unsent.take(window_share(before) as int), before.mtu as int);
    let sent = handed(before.output.outlet.queue);
    let all = handed(after.output.outlet.queue);
    before.no_congestion && before.in_flight == 0 && before.quiet && before.rmt_wnd > 0 && count
        > 0 ==> {
        &&& all.len() > sent.len()
        &&& all[sent.len() as int] == (DatagramView {
            to: before.output.peer,
            packet: data_packet(
                push_frames(
                    before.conv,
                    window_free(before),
                    after.clock,
                    before.sn,
                    before.next,
                    before.unsent.take(count as int),
                ),
            ),
        })
    }
}

/// What input does. Segments in flight may be acknowledged, segments received as far as the
/// window has room, and the remote window learned; nothing else changes. Bytes too short for a
/// segment and bytes of another conversation are refused and change nothing. The one segment
/// that comes next is taken and received, where the window has room for it. Where none came
/// early, the segments that come next, one after the other, are taken and received, and nothing
/// else is.
pub open spec fn fed(
    before: Kcp<DirectOutput>,
    buf: Seq<u8>,
    taken: Result<usize, KcpError>,
    after: Kcp<DirectOutput>,
) -> bool {
    let start = kcp_state(before);
    let end = kcp_state(after);
    &&& end == (KcpState {
        rmt_wnd: end.rmt_wnd,
        in_flight: end.in_flight,
        quiet: end.quiet,
        next: end.next,
        received: end.received,
        ready: end.ready,
        early: end.early,
        ..start
    })
    &&& end.in_flight <= start.in_flight
    &&& start.received.is_prefix_of(end.received)
    &&& window_used(start) ==> window_used(end)
    &&& buf.len() < KCP_OVERHEAD ==> {
        &&& taken == Err::<usize, KcpError>(KcpError::InvalidSegmentSize(buf.len() as usize))
        &&& after == before
    }
    &&& buf.len() >= KCP_OVERHEAD && conv_of(buf) != start.conv ==> {
        &&& taken == Err::<usize, KcpError>(
            KcpError::ConvInconsistent(start.conv, conv_of(buf)),
        )
        &&& after == before
    }
    &&& forall|frg: u8, wnd: u16, ts: u32, una: u32, data: Seq<u8>|
        buf == #[trigger] push_frame(start.conv, frg, wnd, ts, start.next, una, data)
            && data.len() <= u32::MAX && start.ready.len() == 0 && start.received.len()
            < start.rcv_wnd ==> {
            &&& taken == Ok::<usize, KcpError>(buf.len() as usize)
            &&& start.received.push(Segment { frg, data }).is_prefix_of(end.received)
        }
    &&& forall|wnd: u16, ts: u32, una: u32, segments: Seq<Segment>|
        buf == #[trigger] push_frames(start.conv, wnd, ts, start.next, una, segments)
            && segments.len() > 0 && (forall|i: int|
            0 <= i < segments.len() ==> (#[trigger] segments[i]).data.len() <= u32::MAX)
            && start.early == 0 && start.ready.len() == 0 && start.received.len() + segments.len()
            <= start.rcv_wnd ==> {
            &&& taken == Ok::<usize, KcpError>(buf.len() as usize)
            &&& end.received == start.received + segments
            &&& end.ready.len() == 0
            &&& end.early == 0
            &&& end.next == advanced(start.next, segments.len() as int)
        }
}

/// Which error a `kcp::Error` is, told variant by variant.
#[verifier::external_body]
pub(crate) fn describe(err: KcpFault) -> (described: KcpError)
    ensures
        described == kcp_error(err),
{
    match err {
        KcpFault::ConvInconsistent(expected, found) => KcpError::ConvInconsistent(expected, found),
        KcpFault::InvalidMtu(mtu) => KcpError::InvalidMtu(mtu),
        KcpFault::InvalidSegmentSize(size) => KcpError::InvalidSegmentSize(size),
        KcpFault::InvalidSegmentDataSize(a, b) => KcpError::InvalidSegmentDataSize(a, b),
        KcpFault::IoError(_) => KcpError::Output,
        KcpFault::NeedUpdate => KcpError::NeedUpdate,
        KcpFault::RecvQueueEmpty => KcpError::RecvQueueEmpty,
        KcpFault::ExpectingFragment => KcpError::ExpectingFragment,
        KcpFault::UnsupportedCmd(cmd) => KcpError::UnsupportedCmd(cmd),
        KcpFault::UserBufTooBig => KcpError::UserBufTooBig,
        KcpFault::UserBufTooSmall => KcpError::UserBufTooSmall,
    }
}

/// `Kcp::new`: an engine for a conversation, with the crate's default settings and nothing
/// queued, whose frames go to `output`.
#[verifier::external_body]
pub(crate) fn kcp_new(conv: u32, output: DirectOutput) -> (kcp: Kcp<DirectOutput>)
    ensures
        kcp_state(kcp) == new_state(conv, output),
{
    Kcp::new(conv, output)
}

/// `Kcp::set_conv`: sets the conversation id and nothing else.
#[verifier::external_body]
pub(crate) fn kcp_set_conv(kcp: &mut Kcp<DirectOutput>, conv: u32)
    ensures
        kcp_state(*final(kcp)) == (KcpState { conv, ..kcp_state(*old(kcp)) }),
{
    kcp.set_conv(conv)
}

/// `Kcp::set_nodelay`: sets the four parameters. The minimal retransmission timeout becomes 30
/// or 100 milliseconds, the interval is clamped, and a negative `resend` leaves the threshold.
#[verifier::external_body]
pub(crate) fn kcp_set_nodelay(
    kcp: &mut Kcp<DirectOutput>,
    nodelay: bool,
    interval: i32,
    resend: i32,
    nc: bool,
)
    ensures
        kcp_state(*final(kcp)) == (KcpState {
            nodelay,
            rx_minrto: if nodelay {
                30
            } else {
                100
            },
            interval: clamp_interval(interval as int),
            fast_resend: if resend >= 0 {
                resend as u32
            } else {
                kcp_state(*old(kcp)).fast_resend
            },
            no_congestion: nc,
            ..kcp_state(*old(kcp))
        }),
{
    kcp.set_nodelay(nodelay, interval, resend, nc)
}

/// `Kcp::set_wndsize`: sets both windows. A zero leaves the window as it is, and the receive
/// window never falls below 128.
#[verifier::external_body]
pub(crate) fn kcp_set_wndsize(kcp: &mut Kcp<DirectOutput>, snd: u16, rcv: u16)
    ensures
        kcp_state(*final(kcp)) == (KcpState {
            snd_wnd: if snd > 0 {
                snd
            } else {
                kcp_state(*old(kcp)).snd_wnd
            },
            rcv_wnd: if rcv > KCP_WND_RCV {
                rcv
            } else if rcv > 0 {
                KCP_WND_RCV
            } else {
                kcp_state(*old(kcp)).rcv_wnd
            },
            ..kcp_state(*old(kcp))
        }),
{
    kcp.set_wndsize(snd, rcv)
}

/// `Kcp::set_rx_minrto`: sets the minimal retransmission timeout.
#[verifier::external_body]
pub(crate) fn kcp_set_rx_minrto(kcp: &mut Kcp<DirectOutput>, rto: u32)
    ensures
        kcp_state(*final(kcp)) == (KcpState { rx_minrto: rto, ..kcp_state(*old(kcp)) }),
{
    kcp.set_rx_minrto(rto)
}

/// `Kcp::set_fast_resend`: sets the fast retransmission threshold.
#[verifier::external_body]
pub(crate) fn kcp_set_fast_resend(kcp: &mut Kcp<DirectOutput>, threshold: u32)
    ensures
        kcp_state(*final(kcp)) == (KcpState { fast_resend: threshold, ..kcp_state(*old(kcp)) }),
{
    kcp.set_fast_resend(threshold)
}

/// `Kcp::set_maximum_resend_times`: sets the transmissions after which the link is dead.
#[verifier::external_body]
pub(crate) fn kcp_set_maximum_resend_times(kcp: &mut Kcp<DirectOutput>, times: u32)
    ensures
        kcp_state(*final(kcp)) == (KcpState { max_resend: times, ..kcp_state(*old(kcp)) }),
{
    kcp.set_maximum_resend_times(times)
}

/// `Kcp::set_interval`: sets the clamped interval.
#[verifier::external_body]
pub(crate) fn kcp_set_interval(kcp: &mut Kcp<DirectOutput>, interval: u32)
    ensures
        kcp_state(*final(kcp)) == (KcpState {
            interval: clamp_interval(interval as int),
            ..kcp_state(*old(kcp))
        }),
{
    kcp.set_interval(interval)
}

/// `Kcp::set_mtu`: sets the MTU, and with it the segment size, unless the MTU is below 50.
#[verifier::external_body]
pub(crate) fn kcp_set_mtu(kcp: &mut Kcp<DirectOutput>, mtu: usize) -> (set: Result<(), KcpFault>)
    requires
        mtu <= u16::MAX,
    ensures
        match set {
            Ok(()) => mtu >= KCP_MIN_MTU && kcp_state(*final(kcp)) == (KcpState {
                mtu,
                mss: (mtu - KCP_OVERHEAD) as usize,
                ..kcp_state(*old(kcp))
            }),
            Err(err) => mtu < KCP_MIN_MTU && kcp_error(err) == KcpError::InvalidMtu(mtu)
                && *final(kcp) == *old(kcp),
        },
{
    kcp.set_mtu(mtu)
}

/// `Kcp::send`: queues a message, cut into fragments, and returns its size. A message of too
/// many fragments is refused and leaves the engine as it was. Speaks of message mode only, and
/// of engines whose segments carry something: the crate panics on others.
#[verifier::external_body]
pub(crate) fn kcp_send(kcp: &mut Kcp<DirectOutput>, data: &[u8]) -> (sent: Result<
    usize,
    KcpFault,
>)
    requires
        kcp_state(*old(kcp)).mss > 0,
        !kcp_state(*old(kcp)).stream,
    ensures
        match sent {
            Ok(size) => {
                &&& fragment_count(data@.len(), kcp_state(*old(kcp)).mss as nat) < KCP_WND_RCV
                &&& size == data@.len()
                &&& kcp_state(*final(kcp)) == (KcpState {
                    unsent: kcp_state(*old(kcp)).unsent + fragments(
                        data@,
                        kcp_state(*old(kcp)).mss as nat,
                    ),
                    ..kcp_state(*old(kcp))
                })
            },
            Err(err) => {
                &&& fragment_count(data@.len(), kcp_state(*old(kcp)).mss as nat) >= KCP_WND_RCV
                &&& kcp_error(err) == KcpError::UserBufTooBig
                &&& *final(kcp) == *old(kcp)
            },
        },
{
    kcp.send(data)
}

/// `Kcp::peeksize`: the size of the next message. Fails where the receive queue is empty and
/// where fragments of the message are missing.
#[verifier::external_body]
pub(crate) fn kcp_peeksize(kcp: &Kcp<DirectOutput>) -> (size: Result<usize, KcpFault>)
    ensures
        match size {
            Ok(size) => peek(kcp_state(*kcp).received) == Ok::<nat, KcpError>(size as nat),
            Err(err) => peek(kcp_state(*kcp).received) == Err::<nat, KcpError>(kcp_error(err)),
        },
{
    kcp.peeksize()
}

/// `Kcp::recv`: moves the next message to the front of the buffer and returns its size. Fails
/// as `Kcp::peeksize` does, and where the buffer is too small, leaving all as it was.
#[verifier::external_body]
pub(crate) fn kcp_recv(kcp: &mut Kcp<DirectOutput>, buf: &mut [u8]) -> (read: Result<
    usize,
    KcpFault,
>)
    ensures
        final(buf)@.len() == old(buf)@.len(),
        match read {
            Ok(size) => {
                let message = first_message(kcp_state(*old(kcp)).received);
                &&& peek(kcp_state(*old(kcp)).received) == Ok::<nat, KcpError>(size as nat)
                &&& size <= old(buf)@.len()
                &&& final(buf)@ == message + old(buf)@.skip(size as int)
                &&& kcp_state(*final(kcp)) == after_recv(kcp_state(*old(kcp)))
            },
            Err(err) => {
                &&& match peek(kcp_state(*old(kcp)).received) {
                    Ok(size) => size > old(buf)@.len() && kcp_error(err)
                        == KcpError::UserBufTooSmall,
                    Err(cause) => kcp_error(err) == cause,
                }
                &&& *final(kcp) == *old(kcp)
                &&& final(buf)@ == old(buf)@
            },
        },
{
    kcp.recv(buf)
}

/// `Kcp::input`: takes in what the peer sent. The engine it leaves behind and its result are
/// named; beyond that, the contract says what [`fed`] says.
#[verifier::external_body]
pub(crate) fn kcp_input(kcp: &mut Kcp<DirectOutput>, buf: &[u8]) -> (taken: Result<
    usize,
    KcpFault,
>)
    requires
        kcp_state(*old(kcp)).mss > 0,
        !kcp_state(*old(kcp)).waiting_conv,
    ensures
        match taken {
            Ok(size) => kcp_fed(*old(kcp), buf@) == (*final(kcp), Ok::<usize, KcpError>(size)),
            Err(err) => kcp_fed(*old(kcp), buf@) == (
                *final(kcp),
                Err::<usize, KcpError>(kcp_error(err)),
            ),
        },
        fed(*old(kcp), buf@, kcp_fed(*old(kcp), buf@).1, *final(kcp)),
{
    kcp.input(buf)
}

/// `Kcp::update`: sets the clock and, where the interval has passed or the clock was never set,
/// flushes. Fails only where the output does. The engine it leaves behind and its result are
/// named, by what the output answered; beyond that, the contract says what an update never
/// changes, that each answer is to one packet handed over, and what the first update sends, its
/// first packet to the byte.
#[verifier::external_body]
pub(crate) fn kcp_update(kcp: &mut Kcp<DirectOutput>, now: u32) -> (updated: Result<
    (),
    KcpFault,
>)
    ensures
        exists|answers: Seq<std::io::Result<usize>>|
            {
                &&& #[trigger] kcp_updated(*old(kcp), now, answers) == (
                    *final(kcp),
                    plain_result(updated),
                )
                &&& handed_count(*final(kcp)) == handed_count(*old(kcp)) + answers.len()
            },
        updated matches Err(err) ==> kcp_error(err) == KcpError::Output,
        transmitted(kcp_state(*old(kcp)), kcp_state(*final(kcp))),
        kcp_state(*final(kcp)).updated,
        kcp_state(*final(kcp)).clock == now,
        !kcp_state(*old(kcp)).updated ==> first_packet(
            kcp_state(*old(kcp)),
            kcp_state(*final(kcp)),
        ),
        updated is Ok && !kcp_state(*old(kcp)).updated ==> flushed_out(
            kcp_state(*old(kcp)),
            kcp_state(*final(kcp)),
        ),
{
    kcp.update(now)
}

/// `Kcp::flush`: transmits what is due. Fails, changing nothing, on an engine that was never
/// updated, and where the output fails. The engine it leaves behind and its result are named, by
/// what the output answered; beyond that, the contract says what a flush never changes, that
/// each answer is to one packet handed over, and what a flush sends, its first packet to the byte.
#[verifier::external_body]
pub(crate) fn kcp_flush(kcp: &mut Kcp<DirectOutput>) -> (flushed: Result<(), KcpFault>)
    ensures
        exists|answers: Seq<std::io::Result<usize>>|
            {
                &&& #[trigger] kcp_flushed(*old(kcp), answers) == (
                    *final(kcp),
                    plain_result(flushed),
                )
                &&& handed_count(*final(kcp)) == handed_count(*old(kcp)) + answers.len()
            },
        flushed matches Err(err) ==> kcp_error(err) == if kcp_state(*old(kcp)).updated {
            KcpError::Output
        } else {
            KcpError::NeedUpdate
        },
        !kcp_state(*old(kcp)).updated ==> flushed is Err && *final(kcp) == *old(kcp),
        transmitted(kcp_state(*old(kcp)), kcp_state(*final(kcp))),
        kcp_state(*final(kcp)).clock == kcp_state(*old(kcp)).clock,
        kcp_state(*old(kcp)).updated ==> first_packet(
            kcp_state(*old(kcp)),
            kcp_state(*final(kcp)),
        ),
        flushed is Ok ==> flushed_out(kcp_state(*old(kcp)), kcp_state(*final(kcp))),
{
    kcp.flush()
}

/// `Kcp::wait_snd`: the number of segments not yet acknowledged.
#[verifier::external_body]
pub(crate) fn kcp_wait_snd(kcp: &Kcp<DirectOutput>) -> (waiting: usize)
    ensures
        waiting == kcp_state(*kcp).in_flight + kcp_state(*kcp).unsent.len(),
{
    kcp.wait_snd()
}

/// `Kcp::is_dead_link`: whether some segment was transmitted too often.
#[verifier::external_body]
pub(crate) fn kcp_is_dead_link(kcp: &Kcp<DirectOutput>) -> (dead: bool)
    ensures
        dead == kcp_state(*kcp).dead,
{
    kcp.is_dead_link()
}

/// `Kcp::snd_wnd`: the send window.
#[verifier::external_body]
pub(crate) fn kcp_snd_wnd(kcp: &Kcp<DirectOutput>) -> (wnd: u16)
    ensures
        wnd == kcp_state(*kcp).snd_wnd,
{
    kcp.snd_wnd()
}

/// `Kcp::rcv_wnd`: the receive window.
#[verifier::external_body]
pub(crate) fn kcp_rcv_wnd(kcp: &Kcp<DirectOutput>) -> (wnd: u16)
    ensures
        wnd == kcp_state(*kcp).rcv_wnd,
{
    kcp.rcv_wnd()
}

/// `Kcp::rmt_wnd`: the window that the remote side advertised last.
#[verifier::external_body]
pub(crate) fn kcp_rmt_wnd(kcp: &Kcp<DirectOutput>) -> (wnd: u16)
    ensures
        wnd == kcp_state(*kcp).rmt_wnd,
{
    kcp.rmt_wnd()
}

/// What a frame's write returns: a packet that the socket took counts without its type byte, a
/// frame that a blocked or silent socket dropped counts as written whole, and any other failure
/// of the socket is handed on.
pub proof fn law_frame_answers(n: usize, err: IoFault, len: nat)
    requires
        len < usize::MAX,
    ensures
        answered(Some(Ok((len + 1) as usize)), len) == Ok::<usize, IoFault>(len as usize),
        n > 0 ==> answered(Some(Ok(n)), len) == Ok::<usize, IoFault>((n - 1) as usize),
        answered(None, len) == Ok::<usize, IoFault>(len as usize),
        io_would_block(err) ==> answered(Some(Err(err)), len) == Ok::<usize, IoFault>(len as usize),
        !io_would_block(err) ==> answered(Some(Err(err)), len) == Err::<usize, IoFault>(err),
{
}

} // verus!
