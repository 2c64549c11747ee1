use crate::error::{AppError, AppErrorView};
use crate::state::{SessionState, TunnelConfig, TunnelState, TunnelType};
use crate::text::{decimal, decimal_string, is_v4_uuid, uuid_string, uuid_text};
use std::sync::atomic::AtomicU32;
use vstd::prelude::*;

verus! {

// ─── Connection counting ────────────────────────────────

/// `current - val`, or 0 when `val` is larger.
pub open spec fn saturated_sub(current: u32, val: u32) -> u32 {
    if current >= val { (current - val) as u32 } else { 0u32 }
}

/// `current - val`, or 0 when `val` is larger.
pub fn saturating_decrement(current: u32, val: u32) -> (r: u32)
    ensures
        r == saturated_sub(current, val),
{
    if current >= val {
        current - val
    } else {
        0
    }
}

/// Calls `AtomicU32::fetch_update` (relaxed orderings) with a closure that
/// always gives `Some(saturating_decrement(current, val))`, so the update
/// always succeeds; returns the value before the update. The counter is
/// shared with other tasks: nothing is stated of the value.
#[verifier::external_body]
fn fetch_saturating_decrement(counter: &AtomicU32, val: u32) -> u32 {
    match counter.fetch_update(
        std::sync::atomic::Ordering::Relaxed,
        std::sync::atomic::Ordering::Relaxed,
        |current| Some(saturating_decrement(current, val)),
    ) {
        Ok(prev) => prev,
        Err(prev) => prev,
    }
}

/// Decrement a shared counter by `val` without going below 0; gives the new
/// value: the saturated difference of the value the update found and `val`.
/// The value found is whatever other tasks left in the counter.
pub fn atomic_saturating_sub(counter: &AtomicU32, val: u32) -> (r: u32)
    ensures
        exists|found: u32| r == #[trigger] saturated_sub(found, val),
{
    let prev = fetch_saturating_decrement(counter, val);
    let r = saturating_decrement(prev, val);
    assert(r == saturated_sub(prev, val));
    r
}

// ─── Remote forward registry key ────────────────────────

/// Key of the remote forward registry: the address and port the server
/// listens on.
#[derive(Debug, Clone, Hash, PartialEq, Eq)]
pub struct RemoteForwardKey {
    pub address: String,
    pub port: u32,
}

/// Serializable summary of a tunnel for the front end.
#[derive(Debug, Clone)]
pub struct TunnelInfo {
    pub config: TunnelConfig,
    pub state: TunnelState,
    pub bytes_in: u64,
    pub bytes_out: u64,
    pub active_connections: u32,
}

/// The summary of a tunnel: its counters as read, and 0 connections when
/// the tunnel keeps no connection count.
pub fn tunnel_info(config: TunnelConfig, state: TunnelState, bytes_in: u64, bytes_out: u64, connections: Option<u32>) -> (r:
    TunnelInfo)
    ensures
        r.config == config,
        r.state == state,
        r.bytes_in == bytes_in,
        r.bytes_out == bytes_out,
        r.active_connections == match connections {
            Some(c) => c,
            None => 0,
        },
{
    let active_connections = match connections {
        Some(c) => c,
        None => 0,
    };
    TunnelInfo { config, state, bytes_in, bytes_out, active_connections }
}

// ─── Local forward ──────────────────────────────────────

/// `host:port` text.
pub open spec fn host_port(host: Seq<char>, port: u16) -> Seq<char> {
    host + ":"@ + decimal(port as nat)
}

/// Address the local listener binds: `bind_host:bind_port`.
pub fn local_bind_address(config: &TunnelConfig) -> (r: String)
    ensures
        r@ == host_port(config.bind_host@, config.bind_port),
{
    config.bind_host.clone().concat(":").concat(decimal_string(config.bind_port as u64).as_str())
}

/// Error when the local listener cannot bind: the port is in use, or
/// another failure with its message.
pub fn local_bind_error(config: &TunnelConfig, addr_in_use: bool, detail: &str) -> (r: AppError)
    ensures
        addr_in_use ==> r@ == AppErrorView::TunnelError("Port "@ + decimal(config.bind_port as nat) + " already in use"@),
        !addr_in_use ==> r@ == AppErrorView::TunnelError(
            "Failed to bind "@ + host_port(config.bind_host@, config.bind_port) + ": "@ + detail@,
        ),
{
    if addr_in_use {
        AppError::TunnelError("Port ".to_owned().concat(decimal_string(config.bind_port as u64).as_str()).concat(" already in use"))
    } else {
        let addr = local_bind_address(config);
        AppError::TunnelError("Failed to bind ".to_owned().concat(addr.as_str()).concat(": ").concat(detail))
    }
}

// ─── Remote forward ─────────────────────────────────────

/// Port the server listens on: the one it reports when it reports one (its
/// low 16 bits), else the requested one.
pub open spec fn effective_port_spec(actual: u32, bind_port: u16) -> u16 {
    if actual > 0 {
        (actual % 0x10000) as u16
    } else {
        bind_port
    }
}

/// Port the server listens on for a remote forward.
pub fn effective_remote_port(actual: u32, bind_port: u16) -> (r: u16)
    ensures
        r == effective_port_spec(actual, bind_port),
{
    if actual > 0 {
        (actual % 0x10000) as u16
    } else {
        bind_port
    }
}

/// The configuration recorded for a started remote forward: the port the
/// server chose replaces the requested one when it differs.
pub fn effective_remote_config(config: &TunnelConfig, actual: u32) -> (r: TunnelConfig)
    ensures
        r.bind_port == effective_port_spec(actual, config.bind_port),
        r == (TunnelConfig { bind_port: effective_port_spec(actual, config.bind_port), ..*config }),
{
    let mut c = config.clone();
    let eff = effective_remote_port(actual, config.bind_port);
    if actual > 0 && eff != config.bind_port {
        c.bind_port = eff;
    }
    c
}

/// Registry key of a started remote forward.
pub fn remote_forward_key(config: &TunnelConfig, actual: u32) -> (r: RemoteForwardKey)
    ensures
        r.address@ == config.bind_host@,
        r.port == effective_port_spec(actual, config.bind_port) as u32,
{
    RemoteForwardKey { address: config.bind_host.clone(), port: effective_remote_port(actual, config.bind_port) as u32 }
}

/// Error when the server refuses or fails a remote forward request.
pub fn remote_forward_error(bind_host: &str, bind_port: u16, denied: bool, detail: &str) -> (r: AppError)
    ensures
        denied ==> r@ == AppErrorView::TunnelError(
            "Server denied remote port forward on "@ + host_port(bind_host@, bind_port)
                + ". Check server GatewayPorts setting."@,
        ),
        !denied ==> r@ == AppErrorView::TunnelError(
            "Failed to request remote forward on "@ + host_port(bind_host@, bind_port) + ": "@ + detail@,
        ),
{
    let hp = bind_host.to_owned().concat(":").concat(decimal_string(bind_port as u64).as_str());
    if denied {
        AppError::TunnelError(
            "Server denied remote port forward on ".to_owned().concat(hp.as_str()).concat(". Check server GatewayPorts setting."),
        )
    } else {
        AppError::TunnelError("Failed to request remote forward on ".to_owned().concat(hp.as_str()).concat(": ").concat(detail))
    }
}

// ─── Tunnel commands ────────────────────────────────────

/// What the tunnel commands read of a session: its state, whether it has an
/// SSH handle and a remote forward registry, and its tunnels (id, kind,
/// state).
pub struct SessionTunnels {
    pub state: SessionState,
    pub has_ssh: bool,
    pub has_registry: bool,
    pub tunnels: Vec<(u128, TunnelType, TunnelState)>,
}

/// Position of the first tunnel with this id.
pub open spec fn tunnel_pos(ts: Seq<(u128, TunnelType, TunnelState)>, id: u128) -> int
    decreases ts.len(),
{
    if ts.len() == 0 {
        -1
    } else if ts[0].0 == id {
        0
    } else {
        let r = tunnel_pos(ts.drop_first(), id);
        if r < 0 {
            -1
        } else {
            r + 1
        }
    }
}

pub proof fn lemma_tunnel_pos_at(ts: Seq<(u128, TunnelType, TunnelState)>, id: u128, i: int)
    requires
        0 <= i <= ts.len(),
        forall|j: int| 0 <= j < i ==> (#[trigger] ts[j]).0 != id,
        i == ts.len() || ts[i].0 == id,
    ensures
        tunnel_pos(ts, id) == if i == ts.len() { -1 } else { i },
    decreases i,
{
    if i > 0 {
        assert forall|j: int| 0 <= j < i - 1 implies (#[trigger] ts.drop_first()[j]).0 != id by {
            assert(ts.drop_first()[j] == ts[j + 1]);
        }
        lemma_tunnel_pos_at(ts.drop_first(), id, i - 1);
    }
}

fn find_tunnel(ts: &Vec<(u128, TunnelType, TunnelState)>, id: u128) -> (r: Option<usize>)
    ensures
        match r {
            Some(i) => i < ts@.len() && tunnel_pos(ts@, id) == i as int,
            None => tunnel_pos(ts@, id) == -1,
        },
{
    let mut i: usize = 0;
    while i < ts.len()
        invariant
            0 <= i <= ts@.len(),
            forall|j: int| 0 <= j < i ==> (#[trigger] ts@[j]).0 != id,
        decreases ts@.len() - i,
    {
        if ts[i].0 == id {
            proof {
                lemma_tunnel_pos_at(ts@, id, i as int);
            }
            return Some(i);
        }
        i += 1;
    }
    proof {
        lemma_tunnel_pos_at(ts@, id, i as int);
    }
    None
}

/// "Tunnel {id} {rest}".
pub open spec fn tunnel_message(id: u128, rest: Seq<char>) -> Seq<char> {
    "Tunnel "@ + uuid_text(id) + rest
}

fn tunnel_error(id: u128, rest: &str) -> (r: AppError)
    ensures
        r@ == AppErrorView::TunnelError(tunnel_message(id, rest@)),
{
    AppError::TunnelError("Tunnel ".to_owned().concat(uuid_string(id).as_str()).concat(rest))
}

/// The session must exist and be connected.
pub open spec fn connected_check(session_id: u128, session: Option<SessionTunnels>) -> Result<(), AppErrorView> {
    match session {
        None => Err(AppErrorView::SessionNotFound(session_id)),
        Some(s) => if s.state is Connected {
            Ok(())
        } else {
            Err(AppErrorView::NotConnected)
        },
    }
}

fn check_connected(session_id: u128, session: &Option<SessionTunnels>) -> (r: Result<(), AppError>)
    ensures
        match r {
            Ok(_) => connected_check(session_id, *session) is Ok,
            Err(e) => connected_check(session_id, *session) == Err::<(), AppErrorView>(e@),
        },
{
    match session {
        None => Err(AppError::SessionNotFound(session_id)),
        Some(s) => match s.state {
            SessionState::Connected => Ok(()),
            _ => Err(AppError::NotConnected),
        },
    }
}

/// Creating a tunnel: the session must exist and be connected, and hold no
/// tunnel with this id.
pub open spec fn create_check(session_id: u128, session: Option<SessionTunnels>, tunnel_id: u128) -> Result<(), AppErrorView> {
    match connected_check(session_id, session) {
        Err(e) => Err(e),
        Ok(_) => if tunnel_pos(session->Some_0.tunnels@, tunnel_id) >= 0 {
            Err(AppErrorView::TunnelError(tunnel_message(tunnel_id, " already exists in session"@)))
        } else {
            Ok(())
        },
    }
}

/// Check that a tunnel can be created in a session.
pub fn check_create_tunnel(session_id: u128, session: &Option<SessionTunnels>, tunnel_id: u128) -> (r: Result<(), AppError>)
    ensures
        match r {
            Ok(_) => create_check(session_id, *session, tunnel_id) is Ok,
            Err(e) => create_check(session_id, *session, tunnel_id) == Err::<(), AppErrorView>(e@),
        },
{
    match check_connected(session_id, session) {
        Err(e) => {
            return Err(e);
        },
        Ok(_) => {},
    }
    match session {
        Some(s) => match find_tunnel(&s.tunnels, tunnel_id) {
            Some(_) => Err(tunnel_error(tunnel_id, " already exists in session")),
            None => Ok(()),
        },
        None => Ok(()),
    }
}

/// The id a created tunnel gets: its own, or a fresh random (version 4)
/// UUID, never nil, when it has the nil id.
pub fn assign_tunnel_id(config: TunnelConfig) -> (r: TunnelConfig)
    ensures
        config.id != 0 ==> r == config,
        config.id == 0 ==> r == (TunnelConfig { id: r.id, ..config }),
        config.id == 0 ==> is_v4_uuid(r.id) && r.id != 0,
{
    let mut c = config;
    if c.id == 0 {
        let id = crate::text::new_uuid();
        assert(id & 0xF000C000000000000000u128 == 0x40008000000000000000u128 ==> id != 0) by (bit_vector);
        c.id = id;
    }
    c
}

/// Starting a stopped tunnel: the session must exist and be connected, the
/// tunnel must exist, and it must be stopped or failed.
pub open spec fn start_check(session_id: u128, session: Option<SessionTunnels>, tunnel_id: u128) -> Result<(), AppErrorView> {
    match connected_check(session_id, session) {
        Err(e) => Err(e),
        Ok(_) => {
            let ts = session->Some_0.tunnels@;
            let p = tunnel_pos(ts, tunnel_id);
            if p < 0 {
                Err(AppErrorView::TunnelError(tunnel_message(tunnel_id, " not found"@)))
            } else if ts[p].2 is Active || ts[p].2 is Starting {
                Err(AppErrorView::TunnelError(tunnel_message(tunnel_id, " is already running"@)))
            } else {
                Ok(())
            }
        },
    }
}

/// Check that a tunnel can be started again.
pub fn check_start_tunnel(session_id: u128, session: &Option<SessionTunnels>, tunnel_id: u128) -> (r: Result<(), AppError>)
    ensures
        match r {
            Ok(_) => start_check(session_id, *session, tunnel_id) is Ok,
            Err(e) => start_check(session_id, *session, tunnel_id) == Err::<(), AppErrorView>(e@),
        },
{
    match check_connected(session_id, session) {
        Err(e) => {
            return Err(e);
        },
        Ok(_) => {},
    }
    match session {
        Some(s) => match find_tunnel(&s.tunnels, tunnel_id) {
            None => Err(tunnel_error(tunnel_id, " not found")),
            Some(i) => match s.tunnels[i].2 {
                TunnelState::Active { .. } => Err(tunnel_error(tunnel_id, " is already running")),
                TunnelState::Starting => Err(tunnel_error(tunnel_id, " is already running")),
                _ => Ok(()),
            },
        },
        None => Ok(()),
    }
}

/// What starting a remote forward needs of the session: it must exist, have
/// an SSH handle, and have a remote forward registry.
pub open spec fn remote_check(session_id: u128, session: Option<SessionTunnels>) -> Result<(), AppErrorView> {
    match session {
        None => Err(AppErrorView::SessionNotFound(session_id)),
        Some(s) => if !s.has_ssh {
            Err(AppErrorView::NotConnected)
        } else if !s.has_registry {
            Err(AppErrorView::TunnelError("Remote forward registry not available"@))
        } else {
            Ok(())
        },
    }
}

/// Check what a remote forward needs of the session.
pub fn check_remote_forward(session_id: u128, session: &Option<SessionTunnels>) -> (r: Result<(), AppError>)
    ensures
        match r {
            Ok(_) => remote_check(session_id, *session) is Ok,
            Err(e) => remote_check(session_id, *session) == Err::<(), AppErrorView>(e@),
        },
{
    match session {
        None => Err(AppError::SessionNotFound(session_id)),
        Some(s) => if !s.has_ssh {
            Err(AppError::NotConnected)
        } else if !s.has_registry {
            Err(AppError::TunnelError("Remote forward registry not available".to_owned()))
        } else {
            Ok(())
        },
    }
}

/// Stopping or removing a tunnel: the session and the tunnel must exist;
/// gives whether the server must be told to stop listening (a remote forward
/// while the session has an SSH handle).
pub open spec fn stop_check(session_id: u128, session: Option<SessionTunnels>, tunnel_id: u128) -> Result<bool, AppErrorView> {
    match session {
        None => Err(AppErrorView::SessionNotFound(session_id)),
        Some(s) => {
            let p = tunnel_pos(s.tunnels@, tunnel_id);
            if p < 0 {
                Err(AppErrorView::TunnelError(tunnel_message(tunnel_id, " not found"@)))
            } else {
                Ok(s.tunnels@[p].1 == TunnelType::Remote && s.has_ssh)
            }
        },
    }
}

/// Check that a tunnel can be stopped or removed; gives whether the server
/// must be told to stop listening.
pub fn check_stop_tunnel(session_id: u128, session: &Option<SessionTunnels>, tunnel_id: u128) -> (r: Result<bool, AppError>)
    ensures
        match r {
            Ok(b) => stop_check(session_id, *session, tunnel_id) == Ok::<bool, AppErrorView>(b),
            Err(e) => stop_check(session_id, *session, tunnel_id) == Err::<bool, AppErrorView>(e@),
        },
{
    match session {
        None => Err(AppError::SessionNotFound(session_id)),
        Some(s) => match find_tunnel(&s.tunnels, tunnel_id) {
            None => Err(tunnel_error(tunnel_id, " not found")),
            Some(i) => {
                let remote = match s.tunnels[i].1 {
                    TunnelType::Remote => true,
                    TunnelType::Local => false,
                };
                Ok(remote && s.has_ssh)
            },
        },
    }
}


// ─── Bidirectional proxy ────────────────────────────────

/// Which directions of a proxied connection have ended: the TCP side sent
/// its end of stream, the SSH channel sent its EOF.
#[derive(Debug, Clone, Copy, PartialEq, Eq)]
pub struct ProxyState {
    pub stream_closed: bool,
    pub channel_closed: bool,
}

/// What woke the proxy up.
#[derive(Debug, Clone, Copy, PartialEq, Eq)]
pub enum ProxyEvent {
    /// The tunnel was cancelled.
    Cancelled,
    /// A read from the TCP socket gave this many bytes (0: end of stream).
    TcpRead(usize),
    /// A read from the TCP socket failed.
    TcpReadFailed,
    /// The SSH channel delivered data.
    ChannelData,
    /// The SSH channel sent EOF.
    ChannelEof,
    /// The SSH channel sent another message (window adjustments and the like).
    ChannelOther,
    /// The SSH channel's message stream ended.
    ChannelEnded,
    /// Forwarding the last data to the other side failed.
    WriteFailed,
}

/// What the proxy does in response.
#[derive(Debug, Clone, Copy, PartialEq, Eq)]
pub enum ProxyAction {
    Nothing,
    /// Send EOF on the SSH channel.
    EofToChannel,
    /// Count the bytes read as sent and write them to the SSH channel.
    ForwardToChannel,
    /// Count the channel's bytes as received and write them to the socket.
    ForwardToTcp,
    /// Shut the TCP socket down.
    ShutdownTcp,
}

/// One step of the proxy: the next state, the action, whether to stop
/// after it.
#[derive(Debug, Clone, Copy, PartialEq, Eq)]
pub struct ProxyStep {
    pub state: ProxyState,
    pub action: ProxyAction,
    pub stop: bool,
}

/// The proxy's reaction to an event: cancellation, a read error, a failed
/// write or the end of the channel stop it; an end of stream on one side
/// is passed on to the other and stops the proxy once both sides ended.
pub open spec fn proxy_step_spec(s: ProxyState, e: ProxyEvent) -> ProxyStep {
    match e {
        ProxyEvent::Cancelled => ProxyStep { state: s, action: ProxyAction::EofToChannel, stop: true },
        ProxyEvent::TcpRead(n) => if n == 0 {
            ProxyStep {
                state: ProxyState { stream_closed: true, channel_closed: s.channel_closed },
                action: ProxyAction::EofToChannel,
                stop: s.channel_closed,
            }
        } else {
            ProxyStep { state: s, action: ProxyAction::ForwardToChannel, stop: false }
        },
        ProxyEvent::TcpReadFailed => ProxyStep { state: s, action: ProxyAction::EofToChannel, stop: true },
        ProxyEvent::ChannelData => ProxyStep { state: s, action: ProxyAction::ForwardToTcp, stop: false },
        ProxyEvent::ChannelEof => ProxyStep {
            state: ProxyState { stream_closed: s.stream_closed, channel_closed: true },
            action: ProxyAction::ShutdownTcp,
            stop: s.stream_closed,
        },
        ProxyEvent::ChannelOther => ProxyStep { state: s, action: ProxyAction::Nothing, stop: false },
        ProxyEvent::ChannelEnded => ProxyStep { state: s, action: ProxyAction::ShutdownTcp, stop: true },
        ProxyEvent::WriteFailed => ProxyStep { state: s, action: ProxyAction::Nothing, stop: true },
    }
}

/// Decide the proxy's reaction to an event. Once both sides have ended the
/// proxy stops, and a side that ended stays ended.
pub fn proxy_step(s: ProxyState, e: ProxyEvent) -> (r: ProxyStep)
    ensures
        r == proxy_step_spec(s, e),
        r.state.stream_closed && r.state.channel_closed && !(s.stream_closed && s.channel_closed) ==> r.stop,
        s.stream_closed ==> r.state.stream_closed,
        s.channel_closed ==> r.state.channel_closed,
        e == ProxyEvent::ChannelData ==> r == (ProxyStep { state: s, action: ProxyAction::ForwardToTcp, stop: false }),
        (e matches ProxyEvent::TcpRead(n) && n > 0) ==> r == (ProxyStep {
            state: s,
            action: ProxyAction::ForwardToChannel,
            stop: false,
        }),
{
    match e {
        ProxyEvent::Cancelled => ProxyStep { state: s, action: ProxyAction::EofToChannel, stop: true },
        ProxyEvent::TcpRead(n) => if n == 0 {
            ProxyStep {
                state: ProxyState { stream_closed: true, channel_closed: s.channel_closed },
                action: ProxyAction::EofToChannel,
                stop: s.channel_closed,
            }
        } else {
            ProxyStep { state: s, action: ProxyAction::ForwardToChannel, stop: false }
        },
        ProxyEvent::TcpReadFailed => ProxyStep { state: s, action: ProxyAction::EofToChannel, stop: true },
        ProxyEvent::ChannelData => ProxyStep { state: s, action: ProxyAction::ForwardToTcp, stop: false },
        ProxyEvent::ChannelEof => ProxyStep {
            state: ProxyState { stream_closed: s.stream_closed, channel_closed: true },
            action: ProxyAction::ShutdownTcp,
            stop: s.stream_closed,
        },
        ProxyEvent::ChannelOther => ProxyStep { state: s, action: ProxyAction::Nothing, stop: false },
        ProxyEvent::ChannelEnded => ProxyStep { state: s, action: ProxyAction::ShutdownTcp, stop: true },
        ProxyEvent::WriteFailed => ProxyStep { state: s, action: ProxyAction::Nothing, stop: true },
    }
}

/// Data is relayed in the direction it came from, whatever the state: what
/// the SSH channel delivers is written to the TCP socket, what the socket
/// gives (a read of at least one byte) is written to the channel; neither
/// stops the proxy nor changes which sides have ended.
pub proof fn law_proxy_relays_data(s: ProxyState, n: usize)
    ensures
        proxy_step_spec(s, ProxyEvent::ChannelData).action == ProxyAction::ForwardToTcp,
        !proxy_step_spec(s, ProxyEvent::ChannelData).stop,
        proxy_step_spec(s, ProxyEvent::ChannelData).state == s,
        n > 0 ==> proxy_step_spec(s, ProxyEvent::TcpRead(n)).action == ProxyAction::ForwardToChannel,
        n > 0 ==> !proxy_step_spec(s, ProxyEvent::TcpRead(n)).stop,
        n > 0 ==> proxy_step_spec(s, ProxyEvent::TcpRead(n)).state == s,
{
}

} // verus!
