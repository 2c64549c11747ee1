use nexterm::error::AppError;
use nexterm::state::{SessionState, TunnelConfig, TunnelState, TunnelType};
use nexterm::tunnel::{
    assign_tunnel_id, atomic_saturating_sub, check_create_tunnel, check_remote_forward, check_start_tunnel,
    check_stop_tunnel, effective_remote_config, effective_remote_port, local_bind_address, local_bind_error,
    proxy_step, remote_forward_error, remote_forward_key, saturating_decrement, tunnel_info, ProxyAction, ProxyEvent,
    ProxyState, RemoteForwardKey, SessionTunnels,
};
use std::sync::atomic::{AtomicU32, Ordering};

#[test]
fn remote_forward_key_equality() {
    let k1 = RemoteForwardKey { address: "0.0.0.0".to_string(), port: 8080 };
    let k2 = RemoteForwardKey { address: "0.0.0.0".to_string(), port: 8080 };
    assert_eq!(k1, k2);
}

#[test]
fn remote_forward_key_inequality() {
    let k1 = RemoteForwardKey { address: "0.0.0.0".to_string(), port: 8080 };
    let k2 = RemoteForwardKey { address: "0.0.0.0".to_string(), port: 9090 };
    assert_ne!(k1, k2);
}

#[test]
fn atomic_saturating_sub_normal_decrement() {
    let counter = AtomicU32::new(5);
    assert_eq!(atomic_saturating_sub(&counter, 1), 4);
    assert_eq!(counter.load(Ordering::Relaxed), 4);
    assert_eq!(atomic_saturating_sub(&counter, 1), 3);
    assert_eq!(counter.load(Ordering::Relaxed), 3);
}

#[test]
fn atomic_saturating_sub_at_zero_does_not_underflow() {
    let counter = AtomicU32::new(0);
    assert_eq!(atomic_saturating_sub(&counter, 1), 0);
    assert_eq!(counter.load(Ordering::Relaxed), 0);
    assert_eq!(atomic_saturating_sub(&counter, 1), 0);
    assert_eq!(counter.load(Ordering::Relaxed), 0);
}

#[test]
fn atomic_saturating_sub_decrement_to_zero() {
    let counter = AtomicU32::new(1);
    assert_eq!(atomic_saturating_sub(&counter, 1), 0);
    assert_eq!(counter.load(Ordering::Relaxed), 0);
    assert_eq!(atomic_saturating_sub(&counter, 1), 0);
    assert_eq!(counter.load(Ordering::Relaxed), 0);
}

#[test]
fn atomic_saturating_sub_large_value() {
    let counter = AtomicU32::new(2);
    assert_eq!(atomic_saturating_sub(&counter, 100), 0);
    assert_eq!(counter.load(Ordering::Relaxed), 0);
}

#[test]
fn saturating_decrement_values() {
    assert_eq!(saturating_decrement(5, 2), 3);
    assert_eq!(saturating_decrement(1, 5), 0);
}

fn config(tunnel_type: TunnelType) -> TunnelConfig {
    TunnelConfig {
        id: 7,
        tunnel_type,
        bind_host: "127.0.0.1".to_string(),
        bind_port: 8080,
        target_host: "remote.host".to_string(),
        target_port: 80,
        label: Some("test".to_string()),
    }
}

#[test]
fn local_forward_address_and_errors() {
    let c = config(TunnelType::Local);
    assert_eq!(local_bind_address(&c), "127.0.0.1:8080");
    assert_eq!(
        local_bind_error(&c, true, "ignored"),
        AppError::TunnelError("Port 8080 already in use".to_string())
    );
    assert_eq!(
        local_bind_error(&c, false, "denied"),
        AppError::TunnelError("Failed to bind 127.0.0.1:8080: denied".to_string())
    );
}

#[test]
fn remote_forward_port_key_and_errors() {
    let c = config(TunnelType::Remote);
    assert_eq!(effective_remote_port(0, 8080), 8080);
    assert_eq!(effective_remote_port(9000, 8080), 9000);
    assert_eq!(effective_remote_config(&c, 9000).bind_port, 9000);
    assert_eq!(effective_remote_config(&c, 0).bind_port, 8080);
    assert_eq!(remote_forward_key(&c, 0), RemoteForwardKey { address: "127.0.0.1".to_string(), port: 8080 });
    assert_eq!(
        remote_forward_error("0.0.0.0", 2222, true, ""),
        AppError::TunnelError(
            "Server denied remote port forward on 0.0.0.0:2222. Check server GatewayPorts setting.".to_string()
        )
    );
    assert_eq!(
        remote_forward_error("0.0.0.0", 2222, false, "boom"),
        AppError::TunnelError("Failed to request remote forward on 0.0.0.0:2222: boom".to_string())
    );
}

fn sess(state: SessionState, tunnels: Vec<(u128, TunnelType, TunnelState)>) -> Option<SessionTunnels> {
    Some(SessionTunnels { state, has_ssh: true, has_registry: true, tunnels })
}

#[test]
fn tunnel_commands_check_session_and_tunnel() {
    let none: Option<SessionTunnels> = None;
    assert_eq!(check_create_tunnel(1, &none, 7), Err(AppError::SessionNotFound(1)));
    let connecting = sess(SessionState::Connecting, vec![]);
    assert_eq!(check_create_tunnel(1, &connecting, 7), Err(AppError::NotConnected));
    let empty = sess(SessionState::Connected, vec![]);
    assert_eq!(check_create_tunnel(1, &empty, 7), Ok(()));
    assert!(check_start_tunnel(1, &empty, 7).is_err());
    assert!(check_stop_tunnel(1, &empty, 7).is_err());
    assert_eq!(check_remote_forward(1, &empty), Ok(()));
    let with = sess(SessionState::Connected, vec![(7, TunnelType::Remote, TunnelState::Stopped)]);
    assert!(check_create_tunnel(1, &with, 7).is_err());
    assert_eq!(check_start_tunnel(1, &with, 7), Ok(()));
    assert_eq!(check_stop_tunnel(1, &with, 7), Ok(true));
    let active = sess(SessionState::Connected, vec![(7, TunnelType::Local, TunnelState::Active { connections: 2 })]);
    assert!(check_start_tunnel(1, &active, 7).is_err(), "an active tunnel cannot be started again");
    assert_eq!(check_stop_tunnel(1, &active, 7), Ok(false));
    let no_registry = Some(SessionTunnels { state: SessionState::Connected, has_ssh: true, has_registry: false, tunnels: vec![] });
    assert_eq!(
        check_remote_forward(1, &no_registry),
        Err(AppError::TunnelError("Remote forward registry not available".to_string()))
    );
}

#[test]
fn nil_tunnel_id_gets_a_fresh_one() {
    let mut c = config(TunnelType::Local);
    c.id = 0;
    assert_ne!(assign_tunnel_id(c).id, 0);
    assert_eq!(assign_tunnel_id(config(TunnelType::Local)).id, 7);
}

#[test]
fn fresh_tunnel_id_is_a_version_4_uuid() {
    let mut c = config(TunnelType::Local);
    c.id = 0;
    let id = assign_tunnel_id(c.clone()).id;
    assert_eq!(id & 0xF000C000000000000000u128, 0x40008000000000000000u128);
    assert_eq!(uuid::Uuid::from_u128(id).get_version_num(), 4);
    let other = assign_tunnel_id(c).id;
    assert_ne!(id, other, "two fresh ids differ");
}

#[test]
fn atomic_saturating_sub_result_never_exceeds_max_minus_val() {
    let counter = AtomicU32::new(u32::MAX);
    assert_eq!(atomic_saturating_sub(&counter, 10), u32::MAX - 10);
    assert_eq!(counter.load(Ordering::Relaxed), u32::MAX - 10);
}

#[test]
fn tunnel_info_counts_missing_counter_as_zero() {
    let info = tunnel_info(config(TunnelType::Local), TunnelState::Active { connections: 3 }, 1024, 2048, None);
    assert_eq!(info.active_connections, 0);
    assert_eq!(info.bytes_in, 1024);
    assert_eq!(info.bytes_out, 2048);
    let info = tunnel_info(config(TunnelType::Local), TunnelState::Stopped, 0, 0, Some(3));
    assert_eq!(info.active_connections, 3);
}

#[test]
fn proxy_stops_once_both_sides_end() {
    let open = ProxyState { stream_closed: false, channel_closed: false };
    let s = proxy_step(open, ProxyEvent::TcpRead(0));
    assert_eq!(s.action, ProxyAction::EofToChannel);
    assert!(!s.stop);
    assert!(s.state.stream_closed);
    let t = proxy_step(s.state, ProxyEvent::ChannelEof);
    assert_eq!(t.action, ProxyAction::ShutdownTcp);
    assert!(t.stop);
    let data = proxy_step(open, ProxyEvent::TcpRead(10));
    assert_eq!(data.action, ProxyAction::ForwardToChannel);
    assert!(!data.stop);
    assert!(proxy_step(open, ProxyEvent::Cancelled).stop);
    assert!(proxy_step(open, ProxyEvent::WriteFailed).stop);
    assert!(proxy_step(open, ProxyEvent::ChannelEnded).stop);
    assert!(!proxy_step(open, ProxyEvent::ChannelOther).stop);
}
