//! Decision logic of the cooperative event loop: which unit of work a
//! `step` call attempts, how connection establishment advances, and how
//! the CONNECT packet is built from the options.
//!
//! The embedder owns the transport, the timer and the request queue; it
//! feeds their observations in as plain values and performs the returned
//! actions.

use vstd::prelude::*;

use crate::options::MqttOptions;
use crate::packet::{Connect, Protocol};
use crate::requests::{Request, RequestView};
use crate::state::{MqttConnectionStatus, MqttState};
use crate::types::QoS;

verus! {

/// How long the handshake may take before the connection attempt times
/// out, in milliseconds.
pub const HANDSHAKE_TIMEOUT_MS: u32 = 50_000;

/// Size of the stack-allocated receive buffer a `step` call decodes from;
/// a packet larger than this aborts with `BufferSize`.
pub const RX_BUFFER_LEN: usize = 1024;

/// The unit of work one `step` call attempts.
#[derive(Debug, Clone, Copy, PartialEq, Eq, Structural)]
pub enum StepAction {
    /// Dequeue the next request and send the packet it maps to.
    SendRequest,
    /// Decode and handle one inbound packet.
    ProcessIncoming,
    /// The keep-alive timer expired: ping or time out.
    Ping,
    /// Nothing to do; the caller would block.
    Idle,
}

/// Is this request a publish at most once, which is never flow-controlled?
pub open spec fn is_qos0_publish(r: RequestView) -> bool {
    r matches RequestView::Publish(p) && p.qos == QoS::AtMostOnce
}

/// Should the loop take the next queued request now? Only a connected
/// session serializes requests at all; a QoS 0 publish then always may,
/// and anything else needs room in the in-flight table.
pub fn should_handle_request(state: &MqttState, next: Option<&Request>) -> (r: bool)
    ensures
        r == (state@.status == MqttConnectionStatus::Connected && match next {
            Some(req) => is_qos0_publish(req@) || state.spec_inflight_len() < state@.cap,
            None => false,
        }),
{
    if !matches!(state.status(), MqttConnectionStatus::Connected) {
        return false;
    }
    match next {
        None => false,
        Some(req) => match req {
            Request::Publish(p) => matches!(p.qos, QoS::AtMostOnce) || state.has_inflight_room(),
            _ => state.has_inflight_room(),
        },
    }
}

/// Picks the one unit of work a `step` call attempts, in priority order:
/// an eligible outbound request, then an inbound packet, then keep-alive
/// expiry, otherwise nothing.
pub fn step_select(handle_request: bool, packet_ready: bool, timer_expired: bool) -> (r:
    StepAction)
    ensures
        handle_request ==> r == StepAction::SendRequest,
        !handle_request && packet_ready ==> r == StepAction::ProcessIncoming,
        !handle_request && !packet_ready && timer_expired ==> r == StepAction::Ping,
        !handle_request && !packet_ready && !timer_expired ==> r == StepAction::Idle,
{
    if handle_request {
        StepAction::SendRequest
    } else if packet_ready {
        StepAction::ProcessIncoming
    } else if timer_expired {
        StepAction::Ping
    } else {
        StepAction::Idle
    }
}

/// How a `connect` call advances the handshake.
#[derive(Debug, Clone, Copy, PartialEq, Eq, Structural)]
pub enum ConnectAction {
    /// Send CONNECT, arm the handshake timer, and wait.
    SendConnect,
    /// The handshake timer expired: abort with a timeout.
    Timeout,
    /// Wait for the CONNACK to arrive.
    Receive,
    /// The session is already connected; nothing to do.
    Done,
}

/// Picks how connection establishment proceeds from the current
/// connection state: disconnected sessions send CONNECT, a handshake
/// waits for CONNACK until its timer runs out, and a connected session is
/// left alone.
pub fn connect_action(status: MqttConnectionStatus, handshake_timer_expired: bool) -> (r:
    ConnectAction)
    ensures
        status == MqttConnectionStatus::Disconnected ==> r == ConnectAction::SendConnect,
        status == MqttConnectionStatus::Handshake && handshake_timer_expired ==> r
            == ConnectAction::Timeout,
        status == MqttConnectionStatus::Handshake && !handshake_timer_expired ==> r
            == ConnectAction::Receive,
        status == MqttConnectionStatus::Connected ==> r == ConnectAction::Done,
{
    match status {
        MqttConnectionStatus::Disconnected => ConnectAction::SendConnect,
        MqttConnectionStatus::Handshake => if handshake_timer_expired {
            ConnectAction::Timeout
        } else {
            ConnectAction::Receive
        },
        MqttConnectionStatus::Connected => ConnectAction::Done,
    }
}

/// Builds the CONNECT packet the options describe: protocol 3.1.1, the
/// keep-alive in whole seconds, and the configured identity, session
/// flag, will and credentials.
pub fn connect_packet(opts: &MqttOptions) -> (r: Connect)
    requires
        opts@.keep_alive_ms as int / 1000 <= 0xFFFF,
    ensures
        r@.protocol == Protocol::MQTT311,
        r@.keep_alive as int == opts@.keep_alive_ms as int / 1000,
        r@.client_id == opts@.client_id,
        r@.clean_session == opts@.clean_session,
        r@.last_will == opts@.last_will,
        r@.username == match opts@.credentials {
            Some((u, _)) => Some(u),
            None => None::<Seq<char>>,
        },
        r@.password == match opts@.credentials {
            Some((_, p)) => Some(p),
            None => None::<Seq<u8>>,
        },
{
    let (username, password): (Option<String>, Option<Vec<u8>>) = match opts.credentials() {
        (Some(u), Some(p)) => (Some(u.to_owned()), Some(vstd::slice::slice_to_vec(p))),
        _ => (None, None),
    };
    Connect {
        protocol: Protocol::MQTT311,
        keep_alive: (opts.keep_alive_ms() / 1000) as u16,
        client_id: opts.client_id().to_owned(),
        clean_session: opts.clean_session(),
        last_will: opts.last_will(),
        username,
        password,
    }
}

} // verus!
