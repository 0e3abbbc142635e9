use mqttrust::decode::{decode, decode_remaining_length};
use mqttrust::encode::{encode, encode_remaining_length};
use mqttrust::packet::{
    Connack, Connect, ConnectReturnCode, LastWill, Packet, Protocol, Publish, Suback, Subscribe,
    SubscribeReturnCodes, SubscribeTopic, Unsubscribe,
};
use mqttrust::types::{Error, Pid, QoS, QosPid};

fn roundtrip(p: Packet) {
    let bytes = encode(&p).unwrap();
    let (q, n) = decode(&bytes).unwrap().unwrap();
    assert_eq!(n, bytes.len());
    assert_eq!(q, p);
}

#[test]
fn roundtrip_connect() {
    roundtrip(Packet::Connect(Connect {
        protocol: Protocol::MQTT311,
        keep_alive: 60,
        client_id: "client_a".to_string(),
        clean_session: true,
        last_will: Some(LastWill {
            topic: "will/topic".to_string(),
            message: b"gone".to_vec(),
            qos: QoS::ExactlyOnce,
            retain: true,
        }),
        username: Some("user".to_string()),
        password: Some(b"pass".to_vec()),
    }));
    roundtrip(Packet::Connect(Connect {
        protocol: Protocol::MQIsdp,
        keep_alive: 0,
        client_id: "c".to_string(),
        clean_session: false,
        last_will: None,
        username: None,
        password: None,
    }));
}

#[test]
fn roundtrip_connack() {
    roundtrip(Packet::Connack(Connack {
        session_present: true,
        code: ConnectReturnCode::Accepted,
    }));
    roundtrip(Packet::Connack(Connack {
        session_present: false,
        code: ConnectReturnCode::NotAuthorized,
    }));
}

#[test]
fn roundtrip_publish() {
    for qospid in [
        QosPid::AtMostOnce,
        QosPid::AtLeastOnce(Pid::try_from(17).unwrap()),
        QosPid::ExactlyOnce(Pid::try_from(65535).unwrap()),
    ] {
        for dup in [false, true] {
            for retain in [false, true] {
                roundtrip(Packet::Publish(Publish {
                    dup,
                    qospid,
                    retain,
                    topic_name: "a/b/ünïcødé".to_string(),
                    payload: vec![0, 1, 2, 250],
                }));
            }
        }
    }
}

#[test]
fn roundtrip_acks() {
    let pid = Pid::try_from(42).unwrap();
    roundtrip(Packet::Puback(pid));
    roundtrip(Packet::Pubrec(pid));
    roundtrip(Packet::Pubrel(pid));
    roundtrip(Packet::Pubcomp(pid));
    roundtrip(Packet::Unsuback(pid));
}

#[test]
fn roundtrip_subscribe_suback_unsubscribe() {
    roundtrip(Packet::Subscribe(Subscribe {
        pid: Pid::try_from(3).unwrap(),
        topics: vec![
            SubscribeTopic {
                topic_path: "a/+".to_string(),
                qos: QoS::AtLeastOnce,
            },
            SubscribeTopic {
                topic_path: "b/#".to_string(),
                qos: QoS::ExactlyOnce,
            },
        ],
    }));
    roundtrip(Packet::Suback(Suback {
        pid: Pid::try_from(3).unwrap(),
        return_codes: vec![
            SubscribeReturnCodes::Success(QoS::AtLeastOnce),
            SubscribeReturnCodes::Failure,
            SubscribeReturnCodes::Success(QoS::AtMostOnce),
        ],
    }));
    roundtrip(Packet::Unsubscribe(Unsubscribe {
        pid: Pid::try_from(9000).unwrap(),
        topics: vec!["a/+".to_string(), "b/#".to_string()],
    }));
}

#[test]
fn roundtrip_empty_body_packets() {
    roundtrip(Packet::Pingreq);
    roundtrip(Packet::Pingresp);
    roundtrip(Packet::Disconnect);
}

#[test]
fn qos0_publish_wire_bytes() {
    let p = Packet::Publish(Publish {
        dup: false,
        qospid: QosPid::AtMostOnce,
        retain: false,
        topic_name: "a/b".to_string(),
        payload: vec![0xDE, 0xAD],
    });
    assert_eq!(
        encode(&p).unwrap(),
        vec![0x30, 0x07, 0x00, 0x03, 0x61, 0x2F, 0x62, 0xDE, 0xAD]
    );
}

#[test]
fn remaining_length_boundaries() {
    for n in [0u32, 127, 128, 16383, 16384, 2097151, 2097152, 268435455] {
        let enc = encode_remaining_length(n).unwrap();
        let expected_len = match n {
            0..=127 => 1,
            128..=16383 => 2,
            16384..=2097151 => 3,
            _ => 4,
        };
        assert_eq!(enc.len(), expected_len, "width of {}", n);
        // The parser reads the length field after the fixed-header byte.
        let mut buf = vec![0x30u8];
        buf.extend_from_slice(&enc);
        let (value, hlen) = decode_remaining_length(&buf).unwrap().unwrap();
        assert_eq!(value, n);
        assert_eq!(hlen, 1 + expected_len);
    }
    assert_eq!(encode_remaining_length(268435456), Err(Error::InvalidLength));
}

#[test]
fn truncated_buffers_are_incomplete_not_errors() {
    let p = Packet::Publish(Publish {
        dup: true,
        qospid: QosPid::AtLeastOnce(Pid::try_from(7).unwrap()),
        retain: true,
        topic_name: "t/x".to_string(),
        payload: (0..200).map(|i| i as u8).collect(),
    });
    let bytes = encode(&p).unwrap();
    for n in 0..bytes.len() {
        assert_eq!(decode(&bytes[..n]), Ok(None), "prefix of {} bytes", n);
    }
    assert!(decode(&bytes).unwrap().is_some());
}

#[test]
fn decode_trailing_bytes_not_consumed() {
    let mut bytes = encode(&Packet::Pingreq).unwrap();
    let full = bytes.len();
    bytes.extend_from_slice(&[0x30, 0x07]);
    let (p, n) = decode(&bytes).unwrap().unwrap();
    assert_eq!(p, Packet::Pingreq);
    assert_eq!(n, full);
}

#[test]
fn decode_error_invalid_qos() {
    // PUBLISH flags with level bits 3.
    assert_eq!(decode(&[0x36, 0x00]), Err(Error::InvalidQos(3)));
}

#[test]
fn decode_error_invalid_pid() {
    // PUBACK carrying identifier zero.
    assert_eq!(decode(&[0x40, 0x02, 0x00, 0x00]), Err(Error::InvalidPid(0)));
}

#[test]
fn decode_error_invalid_return_code() {
    assert_eq!(
        decode(&[0x20, 0x02, 0x00, 0x06]),
        Err(Error::InvalidConnectReturnCode(6))
    );
}

#[test]
fn decode_error_invalid_header() {
    // PUBACK with nonzero flags.
    assert_eq!(decode(&[0x41, 0x02, 0x00, 0x01]), Err(Error::InvalidHeader));
    // Packet type zero.
    assert_eq!(decode(&[0x00, 0x00]), Err(Error::InvalidHeader));
    // A fifth remaining-length byte with the continuation bit set.
    assert_eq!(
        decode(&[0x30, 0x80, 0x80, 0x80, 0x80]),
        Err(Error::InvalidHeader)
    );
}

#[test]
fn decode_error_invalid_length() {
    // PUBACK with a three-byte body.
    assert_eq!(
        decode(&[0x40, 0x03, 0x00, 0x01, 0x00]),
        Err(Error::InvalidLength)
    );
    // PUBLISH whose topic length runs past the body.
    assert_eq!(decode(&[0x30, 0x02, 0x00, 0x09]), Err(Error::InvalidLength));
}

#[test]
fn decode_error_invalid_string() {
    // PUBLISH whose one-byte topic is not valid UTF-8.
    assert_eq!(
        decode(&[0x30, 0x03, 0x00, 0x01, 0xFF]),
        Err(Error::InvalidString)
    );
}

#[test]
fn decode_error_invalid_protocol() {
    // CONNECT naming protocol "MQXX".
    assert_eq!(
        decode(&[
            0x10, 0x0C, 0x00, 0x04, b'M', b'Q', b'X', b'X', 0x04, 0x00, 0x00, 0x3C, 0x00, 0x00
        ]),
        Err(Error::InvalidProtocol)
    );
}

#[test]
fn encode_rejects_empty_subscribe() {
    let p = Packet::Subscribe(Subscribe {
        pid: Pid::try_from(1).unwrap(),
        topics: vec![],
    });
    assert_eq!(encode(&p), Err(Error::InvalidLength));
}

#[test]
fn encode_rejects_oversized_topic() {
    let p = Packet::Publish(Publish {
        dup: false,
        qospid: QosPid::AtMostOnce,
        retain: false,
        topic_name: "x".repeat(65536),
        payload: vec![],
    });
    assert_eq!(encode(&p), Err(Error::InvalidLength));
}
