use mqttrust::decode::decode;
use mqttrust::encode::encode;
use mqttrust::eventloop::{
    connect_action, connect_packet, should_handle_request, step_select, ConnectAction, StepAction,
};
use mqttrust::options::{Broker, MqttOptions};
use mqttrust::notify::{Notification, PacketKind, StateError};
use mqttrust::packet::{Connack, ConnectReturnCode, Packet, Publish};
use mqttrust::requests::{PublishRequest, Request, SubscribeRequest};
use mqttrust::state::{MqttConnectionStatus, MqttState};
use mqttrust::types::{Pid, QoS, QosPid};

fn publish_request(qos: QoS, topic: &str) -> Request {
    Request::Publish(PublishRequest {
        dup: false,
        qos,
        retain: false,
        topic_name: topic.to_string(),
        payload: vec![1, 2, 3],
    })
}

fn connected_state(cap: usize) -> MqttState {
    let mut state = MqttState::new(cap);
    state.handle_outgoing_connect(true);
    let (n, reply) = state
        .handle_incoming(Packet::Connack(Connack {
            session_present: false,
            code: ConnectReturnCode::Accepted,
        }))
        .unwrap();
    assert_eq!(n, Some(Notification::ConnAck));
    assert_eq!(reply, None);
    state
}

#[test]
fn handshake_accepted() {
    let state = connected_state(3);
    assert_eq!(state.status(), MqttConnectionStatus::Connected);
}

#[test]
fn handshake_refused() {
    let mut state = MqttState::new(3);
    state.handle_outgoing_connect(true);
    let r = state.handle_incoming(Packet::Connack(Connack {
        session_present: false,
        code: ConnectReturnCode::BadUsernamePassword,
    }));
    assert_eq!(r, Err(StateError::Connect(4)));
    assert_eq!(state.status(), MqttConnectionStatus::Disconnected);
}

#[test]
fn qos0_publish_no_state() {
    let mut state = connected_state(3);
    let pkt = state
        .handle_outgoing_request(publish_request(QoS::AtMostOnce, "a/b"))
        .unwrap();
    match pkt {
        Packet::Publish(p) => assert_eq!(p.qospid, QosPid::AtMostOnce),
        _ => panic!("expected a publish"),
    }
    assert_eq!(state.inflight_len(), 0);
}

#[test]
fn qos1_publish_with_ack() {
    let mut state = connected_state(3);
    let pkt = state
        .handle_outgoing_request(publish_request(QoS::AtLeastOnce, "t"))
        .unwrap();
    let pid = match pkt {
        Packet::Publish(p) => match p.qospid {
            QosPid::AtLeastOnce(pid) => pid,
            _ => panic!("expected at-least-once"),
        },
        _ => panic!("expected a publish"),
    };
    // The generator was seeded with 1, so the first assigned identifier is 2.
    assert_eq!(pid.get(), 2);
    assert_eq!(state.inflight_len(), 1);
    let (n, reply) = state.handle_incoming(Packet::Puback(pid)).unwrap();
    assert_eq!(n, Some(Notification::Puback(pid)));
    assert_eq!(reply, None);
    assert_eq!(state.inflight_len(), 0);
}

#[test]
fn qos2_publish_full_handshake() {
    let mut state = connected_state(3);
    let pkt = state
        .handle_outgoing_request(publish_request(QoS::ExactlyOnce, "t"))
        .unwrap();
    let pid = match pkt {
        Packet::Publish(p) => p.qospid.pid().unwrap(),
        _ => panic!("expected a publish"),
    };
    let (n, reply) = state.handle_incoming(Packet::Pubrec(pid)).unwrap();
    assert_eq!(n, Some(Notification::Pubrec(pid)));
    assert_eq!(reply, Some(Packet::Pubrel(pid)));
    assert_eq!(state.inflight_len(), 0);
    let (n, reply) = state.handle_incoming(Packet::Pubcomp(pid)).unwrap();
    assert_eq!(n, Some(Notification::Pubcomp(pid)));
    assert_eq!(reply, None);
    // The identifier is tracked nowhere: completing it again is unsolicited.
    assert_eq!(
        state.handle_incoming(Packet::Pubcomp(pid)),
        Err(StateError::Unsolicited(PacketKind::Pubcomp, pid.get()))
    );
}

#[test]
fn max_inflight() {
    let mut state = connected_state(1);
    state
        .handle_outgoing_request(publish_request(QoS::AtLeastOnce, "a"))
        .unwrap();
    assert_eq!(
        state.handle_outgoing_request(publish_request(QoS::AtLeastOnce, "b")),
        Err(StateError::MaxInflight)
    );
    // A QoS 0 publish is never flow-controlled.
    assert!(state
        .handle_outgoing_request(publish_request(QoS::AtMostOnce, "c"))
        .is_ok());
}

#[test]
fn inbound_qos2_publish_notified_once() {
    let mut state = connected_state(3);
    let pid = Pid::try_from(9).unwrap();
    let inbound = Publish {
        dup: false,
        qospid: QosPid::ExactlyOnce(pid),
        retain: false,
        topic_name: "t".to_string(),
        payload: vec![5],
    };
    let (n, reply) = state
        .handle_incoming(Packet::Publish(inbound.clone()))
        .unwrap();
    assert!(matches!(n, Some(Notification::Publish(_))));
    assert_eq!(reply, Some(Packet::Pubrec(pid)));
    // A broker retransmission before PUBREL is answered but not surfaced.
    let (n, reply) = state.handle_incoming(Packet::Publish(inbound)).unwrap();
    assert_eq!(n, None);
    assert_eq!(reply, Some(Packet::Pubrec(pid)));
    // PUBREL releases it and is answered with PUBCOMP.
    let (n, reply) = state.handle_incoming(Packet::Pubrel(pid)).unwrap();
    assert_eq!(n, None);
    assert_eq!(reply, Some(Packet::Pubcomp(pid)));
}

#[test]
fn inbound_qos1_publish_acked() {
    let mut state = connected_state(3);
    let pid = Pid::try_from(4).unwrap();
    let (n, reply) = state
        .handle_incoming(Packet::Publish(Publish {
            dup: false,
            qospid: QosPid::AtLeastOnce(pid),
            retain: false,
            topic_name: "t".to_string(),
            payload: vec![],
        }))
        .unwrap();
    assert!(matches!(n, Some(Notification::Publish(_))));
    assert_eq!(reply, Some(Packet::Puback(pid)));
}

#[test]
fn oversized_inbound_publish_rejected() {
    let mut state = connected_state(3);
    let r = state.handle_incoming(Packet::Publish(Publish {
        dup: false,
        qospid: QosPid::AtMostOnce,
        retain: false,
        topic_name: "t".to_string(),
        payload: vec![0; 2049],
    }));
    assert_eq!(r, Err(StateError::PayloadEncoding));
}

#[test]
fn unsolicited_ack() {
    let mut state = connected_state(3);
    assert_eq!(
        state.handle_incoming(Packet::Puback(Pid::try_from(42).unwrap())),
        Err(StateError::Unsolicited(PacketKind::Puback, 42))
    );
}

#[test]
fn keep_alive_ping_discipline() {
    let mut state = connected_state(3);
    assert_eq!(state.handle_keepalive_expiry(), Ok(Packet::Pingreq));
    assert!(state.await_pingresp());
    // A second expiry without a PINGRESP times out.
    assert_eq!(state.handle_keepalive_expiry(), Err(StateError::PingTimeout));
    // A PINGRESP clears the outstanding ping.
    assert_eq!(state.handle_incoming(Packet::Pingresp), Ok((None, None)));
    assert!(!state.await_pingresp());
    assert_eq!(state.handle_keepalive_expiry(), Ok(Packet::Pingreq));
}

#[test]
fn step_priority_order() {
    assert_eq!(step_select(true, true, true), StepAction::SendRequest);
    assert_eq!(step_select(false, true, true), StepAction::ProcessIncoming);
    assert_eq!(step_select(false, false, true), StepAction::Ping);
    assert_eq!(step_select(false, false, false), StepAction::Idle);
}

#[test]
fn request_flow_control() {
    let disconnected = MqttState::new(1);
    let mut state = connected_state(1);
    let qos0 = publish_request(QoS::AtMostOnce, "a");
    // Nothing but CONNECT goes out before the handshake finished.
    assert!(!should_handle_request(&disconnected, Some(&qos0)));
    let qos1 = publish_request(QoS::AtLeastOnce, "a");
    let sub = Request::Subscribe(SubscribeRequest { topics: vec![] });
    assert!(should_handle_request(&state, Some(&qos0)));
    assert!(should_handle_request(&state, Some(&qos1)));
    assert!(!should_handle_request(&state, None));
    state.handle_outgoing_request(qos1.clone()).unwrap();
    // The table is full: only QoS 0 may still pass.
    assert!(should_handle_request(&state, Some(&qos0)));
    assert!(!should_handle_request(&state, Some(&qos1)));
    assert!(!should_handle_request(&state, Some(&sub)));
}

#[test]
fn connection_establishment_actions() {
    assert_eq!(
        connect_action(MqttConnectionStatus::Disconnected, false),
        ConnectAction::SendConnect
    );
    assert_eq!(
        connect_action(MqttConnectionStatus::Handshake, false),
        ConnectAction::Receive
    );
    assert_eq!(
        connect_action(MqttConnectionStatus::Handshake, true),
        ConnectAction::Timeout
    );
    assert_eq!(
        connect_action(MqttConnectionStatus::Connected, false),
        ConnectAction::Done
    );
}

#[test]
fn connect_packet_from_options() {
    let opts = MqttOptions::new("client_a", Broker::Hostname("localhost".to_string()), 1883)
        .set_keep_alive(120)
        .set_clean_session(false)
        .set_credentials("some_user", b"secret");
    let connect = connect_packet(&opts);
    assert_eq!(connect.keep_alive, 120);
    assert_eq!(connect.client_id, "client_a");
    assert!(!connect.clean_session);
    assert_eq!(connect.username.as_deref(), Some("some_user"));
    assert_eq!(connect.password.as_deref(), Some(&b"secret"[..]));
    assert_eq!(connect.last_will, None);
    // The built packet survives the wire.
    let bytes = encode(&Packet::Connect(connect.clone())).unwrap();
    let (decoded, n) = decode(&bytes).unwrap().unwrap();
    assert_eq!(n, bytes.len());
    assert_eq!(decoded, Packet::Connect(connect));
}

#[test]
fn clean_session_drops_pending_qos2() {
    let mut state = connected_state(3);
    let pid = Pid::try_from(5).unwrap();
    state
        .handle_incoming(Packet::Publish(Publish {
            dup: false,
            qospid: QosPid::ExactlyOnce(pid),
            retain: false,
            topic_name: "t".to_string(),
            payload: vec![],
        }))
        .unwrap();
    // Reconnecting with a clean session forgets the pending identifier.
    state.on_disconnect();
    state.handle_outgoing_connect(true);
    state
        .handle_incoming(Packet::Connack(Connack {
            session_present: false,
            code: ConnectReturnCode::Accepted,
        }))
        .unwrap();
    assert_eq!(
        state.handle_incoming(Packet::Pubrel(pid)),
        Err(StateError::Unsolicited(PacketKind::Pubrel, 5))
    );
}
