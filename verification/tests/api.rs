//! Configuration.

use kcp_peer::KcpConfig;
use std::time::Duration;

#[test]
fn config_mtu_clamp() {
    let config = KcpConfig::builder().mtu(30).build();
    assert_eq!(config.mtu, 50, "mtu=30 clamped to 50");

    let config = KcpConfig::builder().mtu(0).build();
    assert_eq!(config.mtu, 50, "mtu=0 clamped to 50");

    let config = KcpConfig::builder().mtu(1400).build();
    assert_eq!(config.mtu, 1400, "mtu=1400 unchanged");

    let config = KcpConfig::builder().mtu(50).build();
    assert_eq!(config.mtu, 50, "mtu=50 unchanged (boundary)");
}

#[test]
fn config_defaults() {
    let config = KcpConfig::default();
    assert_eq!(config.kcp_interval_ms, 20);
    assert_eq!(config.kcp_nodelay, (1, 20, 2, true));
    assert_eq!(config.snd_wnd, 128);
    assert_eq!(config.rcv_wnd, 128);
    assert_eq!(config.rx_minrto, 10);
    assert_eq!(config.fast_resend, 1);
    assert_eq!(config.maximum_resend_times, 20);
    assert_eq!(config.tick_interval, Duration::from_millis(10));
    assert_eq!(config.session_timeout, Duration::from_secs(60));
    assert_eq!(config.event_channel_capacity, 1024);
    assert_eq!(config.syn_retry_interval, Duration::from_millis(150));
    assert_eq!(config.syn_max_retries, 5);
    assert_eq!(config.mtu, 1400);
}

#[test]
fn config_builder_sets_each_field() {
    let config = KcpConfig::builder()
        .kcp_interval_ms(11)
        .kcp_nodelay(2, 12, 3, false)
        .snd_wnd(13)
        .rcv_wnd(14)
        .rx_minrto(15)
        .fast_resend(16)
        .maximum_resend_times(17)
        .tick_interval(Duration::from_millis(18))
        .session_timeout(Duration::from_millis(19))
        .event_channel_capacity(20)
        .syn_retry_interval(Duration::from_millis(21))
        .syn_max_retries(22)
        .mtu(999)
        .build();
    assert_eq!(config.kcp_interval_ms, 11);
    assert_eq!(config.kcp_nodelay, (2, 12, 3, false));
    assert_eq!(config.snd_wnd, 13);
    assert_eq!(config.rcv_wnd, 14);
    assert_eq!(config.rx_minrto, 15);
    assert_eq!(config.fast_resend, 16);
    assert_eq!(config.maximum_resend_times, 17);
    assert_eq!(config.tick_interval, Duration::from_millis(18));
    assert_eq!(config.session_timeout, Duration::from_millis(19));
    assert_eq!(config.event_channel_capacity, 20);
    assert_eq!(config.syn_retry_interval, Duration::from_millis(21));
    assert_eq!(config.syn_max_retries, 22);
    assert_eq!(config.mtu, 999);
}
