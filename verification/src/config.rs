//! Configuration of the transport.

use crate::engine::{
    clamp_interval, kcp_set_fast_resend, kcp_set_interval, kcp_set_maximum_resend_times,
    kcp_set_mtu, kcp_set_nodelay, kcp_set_rx_minrto, kcp_set_wndsize, kcp_state, DirectOutput,
    KcpState, KCP_MIN_MTU, KCP_OVERHEAD, KCP_WND_RCV,
};
use crate::time::duration_nanos;
use kcp::Kcp;
use std::time::Duration;
use vstd::prelude::*;

verus! {

/// P2P-oriented KCP configuration.
///
/// Create via [`KcpConfigBuilder`] (obtained from [`KcpConfig::builder`]).
#[derive(Debug, Clone, Copy)]
pub struct KcpConfig {
    /// KCP internal update interval in milliseconds.
    ///
    /// Controls how frequently KCP checks for retransmission and window updates.
    pub kcp_interval_ms: u32,
    /// `(nodelay, interval, resend, nc)` for `Kcp::set_nodelay`; a positive `nodelay` enables it.
    pub kcp_nodelay: (i32, i32, i32, bool),
    /// KCP send window size (segments).
    pub snd_wnd: u16,
    /// KCP receive window size (segments).
    pub rcv_wnd: u16,
    /// Minimum RTO in milliseconds.
    pub rx_minrto: u32,
    /// Fast retransmission threshold (number of duplicate ACKs).
    pub fast_resend: u32,
    /// Maximum retransmissions before [`DeadLink`](crate::Error::DeadLink) is reported.
    pub maximum_resend_times: u32,
    /// How often the background update task drives KCP updates.
    pub tick_interval: Duration,
    /// Close sessions that have been idle (no incoming packets) for this duration.
    pub session_timeout: Duration,
    /// Capacity of the event channel.
    pub event_channel_capacity: usize,
    /// Base interval for SYN retransmission with exponential backoff.
    ///
    /// The wait before retry `i` (0-indexed) is `base * 2^i`. The default of 150ms with
    /// [`syn_max_retries`](KcpConfig::syn_max_retries) = 5 gives the timeline:
    /// - T+0.15s: retry 1
    /// - T+0.45s: retry 2
    /// - T+1.05s: retry 3
    /// - T+2.25s: retry 4
    /// - T+4.65s: retry 5, then [`DeadLink`](crate::Error::DeadLink)
    pub syn_retry_interval: Duration,
    /// Maximum number of SYN retransmissions before the handshake is abandoned
    /// and [`DeadLink`](crate::Error::DeadLink) is reported.
    pub syn_max_retries: u32,
    /// Maximum Transmission Unit for KCP segments, at least 50 (KCP minimum).
    pub mtu: u16,
}

/// The default configuration.
pub open spec fn is_default(config: KcpConfig) -> bool {
    &&& config.kcp_interval_ms == 20
    &&& config.kcp_nodelay == (1i32, 20i32, 2i32, true)
    &&& config.snd_wnd == 128
    &&& config.rcv_wnd == 128
    &&& config.rx_minrto == 10
    &&& config.fast_resend == 1
    &&& config.maximum_resend_times == 20
    &&& duration_nanos(config.tick_interval) == 10_000_000
    &&& duration_nanos(config.session_timeout) == 60_000_000_000
    &&& config.event_channel_capacity == 1024
    &&& duration_nanos(config.syn_retry_interval) == 150_000_000
    &&& config.syn_max_retries == 5
    &&& config.mtu == 1400
}

impl Default for KcpConfig {
    fn default() -> (config: Self)
        ensures
            is_default(config),
    {
        KcpConfig {
            kcp_interval_ms: 20,
            kcp_nodelay: (1, 20, 2, true),
            snd_wnd: 128,
            rcv_wnd: 128,
            rx_minrto: 10,
            fast_resend: 1,
            maximum_resend_times: 20,
            tick_interval: Duration::from_millis(10),
            session_timeout: Duration::from_secs(60),
            event_channel_capacity: 1024,
            syn_retry_interval: Duration::from_millis(150),
            syn_max_retries: 5,
            mtu: 1400,
        }
    }
}

/// An MTU raised to the smallest that KCP takes.
pub open spec fn clamp_mtu(mtu: u16) -> u16 {
    if mtu < KCP_MIN_MTU {
        KCP_MIN_MTU
    } else {
        mtu
    }
}

impl KcpConfig {
    /// The state of a KCP engine once every field has been applied to it.
    pub open spec fn applied(self, state: KcpState) -> KcpState {
        KcpState {
            nodelay: self.kcp_nodelay.0 > 0,
            no_congestion: self.kcp_nodelay.3,
            snd_wnd: if self.snd_wnd > 0 {
                self.snd_wnd
            } else {
                state.snd_wnd
            },
            rcv_wnd: if self.rcv_wnd > KCP_WND_RCV {
                self.rcv_wnd
            } else if self.rcv_wnd > 0 {
                KCP_WND_RCV
            } else {
                state.rcv_wnd
            },
            rx_minrto: self.rx_minrto,
            fast_resend: self.fast_resend,
            max_resend: self.maximum_resend_times,
            interval: clamp_interval(self.kcp_interval_ms as int),
            mtu: clamp_mtu(self.mtu) as usize,
            mss: (clamp_mtu(self.mtu) - KCP_OVERHEAD) as usize,
            ..state
        }
    }

    /// Apply every field to a freshly-created Kcp instance.
    pub fn apply_to(&self, kcp: &mut Kcp<DirectOutput>)
        ensures
            kcp_state(*final(kcp)) == self.applied(kcp_state(*old(kcp))),
    {
        let (nodelay, interval, resend, nc) = self.kcp_nodelay;
        kcp_set_nodelay(kcp, nodelay > 0, interval, resend, nc);
        kcp_set_wndsize(kcp, self.snd_wnd, self.rcv_wnd);
        kcp_set_rx_minrto(kcp, self.rx_minrto);
        kcp_set_fast_resend(kcp, self.fast_resend);
        kcp_set_maximum_resend_times(kcp, self.maximum_resend_times);
        kcp_set_interval(kcp, self.kcp_interval_ms);
        let mtu: u16 = if self.mtu < KCP_MIN_MTU {
            KCP_MIN_MTU
        } else {
            self.mtu
        };
        let _ = kcp_set_mtu(kcp, mtu as usize);
    }

    /// Create a builder that starts from the default configuration.
    pub fn builder() -> (builder: KcpConfigBuilder)
        ensures
            is_default(builder.0),
    {
        KcpConfigBuilder(KcpConfig::default())
    }
}

/// Builder for KcpConfig; setters chain.
#[derive(Debug)]
pub struct KcpConfigBuilder(pub KcpConfig);

impl KcpConfigBuilder {
    /// Set the KCP internal update interval in milliseconds.
    pub fn kcp_interval_ms(self, v: u32) -> (builder: Self)
        ensures
            builder.0 == (KcpConfig { kcp_interval_ms: v, ..self.0 }),
    {
        KcpConfigBuilder(KcpConfig { kcp_interval_ms: v, ..self.0 })
    }

    /// Set the four parameters of `kcp_set_nodelay`.
    pub fn kcp_nodelay(self, nodelay: i32, interval: i32, resend: i32, nc: bool) -> (builder:
        Self)
        ensures
            builder.0 == (KcpConfig { kcp_nodelay: (nodelay, interval, resend, nc), ..self.0 }),
    {
        KcpConfigBuilder(KcpConfig { kcp_nodelay: (nodelay, interval, resend, nc), ..self.0 })
    }

    /// Set the send window (segments).
    pub fn snd_wnd(self, v: u16) -> (builder: Self)
        ensures
            builder.0 == (KcpConfig { snd_wnd: v, ..self.0 }),
    {
        KcpConfigBuilder(KcpConfig { snd_wnd: v, ..self.0 })
    }

    /// Set the receive window (segments).
    pub fn rcv_wnd(self, v: u16) -> (builder: Self)
        ensures
            builder.0 == (KcpConfig { rcv_wnd: v, ..self.0 }),
    {
        KcpConfigBuilder(KcpConfig { rcv_wnd: v, ..self.0 })
    }

    /// Set the minimum RTO in milliseconds.
    pub fn rx_minrto(self, v: u32) -> (builder: Self)
        ensures
            builder.0 == (KcpConfig { rx_minrto: v, ..self.0 }),
    {
        KcpConfigBuilder(KcpConfig { rx_minrto: v, ..self.0 })
    }

    /// Set the fast retransmission threshold.
    pub fn fast_resend(self, v: u32) -> (builder: Self)
        ensures
            builder.0 == (KcpConfig { fast_resend: v, ..self.0 }),
    {
        KcpConfigBuilder(KcpConfig { fast_resend: v, ..self.0 })
    }

    /// Set the retransmissions after which a link is dead.
    pub fn maximum_resend_times(self, v: u32) -> (builder: Self)
        ensures
            builder.0 == (KcpConfig { maximum_resend_times: v, ..self.0 }),
    {
        KcpConfigBuilder(KcpConfig { maximum_resend_times: v, ..self.0 })
    }

    /// Set how often sessions are updated.
    pub fn tick_interval(self, v: Duration) -> (builder: Self)
        ensures
            builder.0 == (KcpConfig { tick_interval: v, ..self.0 }),
    {
        KcpConfigBuilder(KcpConfig { tick_interval: v, ..self.0 })
    }

    /// Set how long a session may stay idle.
    pub fn session_timeout(self, v: Duration) -> (builder: Self)
        ensures
            builder.0 == (KcpConfig { session_timeout: v, ..self.0 }),
    {
        KcpConfigBuilder(KcpConfig { session_timeout: v, ..self.0 })
    }

    /// Set the capacity of the event channel.
    pub fn event_channel_capacity(self, v: usize) -> (builder: Self)
        ensures
            builder.0 == (KcpConfig { event_channel_capacity: v, ..self.0 }),
    {
        KcpConfigBuilder(KcpConfig { event_channel_capacity: v, ..self.0 })
    }

    /// Set the base interval of SYN retransmission.
    pub fn syn_retry_interval(self, v: Duration) -> (builder: Self)
        ensures
            builder.0 == (KcpConfig { syn_retry_interval: v, ..self.0 }),
    {
        KcpConfigBuilder(KcpConfig { syn_retry_interval: v, ..self.0 })
    }

    /// Set the number of SYN retransmissions before giving up.
    pub fn syn_max_retries(self, v: u32) -> (builder: Self)
        ensures
            builder.0 == (KcpConfig { syn_max_retries: v, ..self.0 }),
    {
        KcpConfigBuilder(KcpConfig { syn_max_retries: v, ..self.0 })
    }

    /// Set the MTU. [`build`](KcpConfigBuilder::build) raises it to the KCP minimum.
    pub fn mtu(self, v: u16) -> (builder: Self)
        ensures
            builder.0 == (KcpConfig { mtu: v, ..self.0 }),
    {
        KcpConfigBuilder(KcpConfig { mtu: v, ..self.0 })
    }

    /// The configuration, with the MTU raised to the KCP minimum.
    pub fn build(self) -> (config: KcpConfig)
        ensures
            config == (KcpConfig { mtu: clamp_mtu(self.0.mtu), ..self.0 }),
    {
        let mtu: u16 = if self.0.mtu < KCP_MIN_MTU {
            KCP_MIN_MTU
        } else {
            self.0.mtu
        };
        KcpConfig { mtu, ..self.0 }
    }
}

/// The default configuration: windows of 128 segments, packets of 1400 bytes, updates every 20
/// milliseconds without delay or congestion control, ticks every 10 milliseconds, five SYN
/// retries from 150 milliseconds on, and an idle timeout of a minute.
pub proof fn law_default_config(config: KcpConfig)
    requires
        is_default(config),
    ensures
        config.snd_wnd == 128 && config.rcv_wnd == 128 && config.mtu == 1400,
        config.kcp_interval_ms == 20 && config.kcp_nodelay == (1i32, 20i32, 2i32, true),
        config.rx_minrto == 10 && config.fast_resend == 1 && config.maximum_resend_times == 20,
        duration_nanos(config.tick_interval) == 10 * 1_000_000,
        duration_nanos(config.syn_retry_interval) == 150 * 1_000_000,
        config.syn_max_retries == 5,
        duration_nanos(config.session_timeout) == 60 * 1_000_000_000,
        config.event_channel_capacity == 1024,
{
}

/// Every field of a configuration reaches the engine that it is applied to: the windows, of which
/// the receive window is at least 128, the packet size, which is at least 50 and leaves 24 bytes
/// to the header of a segment, the interval, which is held between 10 and 5000, and the settings
/// of retransmission. Nothing else of the engine changes.
pub proof fn law_config_reaches_engine(config: KcpConfig, state: KcpState)
    ensures
        config.snd_wnd > 0 ==> config.applied(state).snd_wnd == config.snd_wnd,
        config.snd_wnd == 0 ==> config.applied(state).snd_wnd == state.snd_wnd,
        config.rcv_wnd >= 128 ==> config.applied(state).rcv_wnd == config.rcv_wnd,
        0 < config.rcv_wnd < 128 ==> config.applied(state).rcv_wnd == 128,
        config.rcv_wnd == 0 ==> config.applied(state).rcv_wnd == state.rcv_wnd,
        config.mtu >= 50 ==> config.applied(state).mtu == config.mtu,
        config.mtu < 50 ==> config.applied(state).mtu == 50,
        config.applied(state).mss + 24 == config.applied(state).mtu,
        10 <= config.kcp_interval_ms <= 5000 ==> config.applied(state).interval
            == config.kcp_interval_ms,
        config.kcp_interval_ms < 10 ==> config.applied(state).interval == 10,
        config.kcp_interval_ms > 5000 ==> config.applied(state).interval == 5000,
        config.applied(state).nodelay <==> config.kcp_nodelay.0 > 0,
        config.applied(state).no_congestion == config.kcp_nodelay.3,
        config.applied(state).fast_resend == config.fast_resend,
        config.applied(state).rx_minrto == config.rx_minrto,
        config.applied(state).max_resend == config.maximum_resend_times,
        ({
            let set = config.applied(state);
            state == (KcpState {
                snd_wnd: state.snd_wnd,
                rcv_wnd: state.rcv_wnd,
                mtu: state.mtu,
                mss: state.mss,
                interval: state.interval,
                nodelay: state.nodelay,
                no_congestion: state.no_congestion,
                fast_resend: state.fast_resend,
                rx_minrto: state.rx_minrto,
                max_resend: state.max_resend,
                ..set
            })
        }),
{
}

/// A packet size that KCP takes is kept, and a smaller one is raised to 50.
pub proof fn law_mtu_raised(mtu: u16)
    ensures
        mtu >= 50 ==> clamp_mtu(mtu) == mtu,
        mtu < 50 ==> clamp_mtu(mtu) == 50,
{
}

} // verus!
