use mqttrust::options::{Broker, IpAddr, Ipv4Addr, Ipv6Addr, MqttOptions};
use mqttrust::packet::LastWill;
use mqttrust::types::QoS;

#[test]
fn broker() {
    let opts = MqttOptions::new("client_a", Broker::IpAddr(IpAddr::V4(Ipv4Addr::localhost())), 1883);
    assert_eq!(
        opts.broker(),
        (Broker::IpAddr(IpAddr::V4(Ipv4Addr::localhost())), 1883)
    );
    assert_eq!(
        MqttOptions::new("client_a", Broker::Hostname("localhost".to_string()), 1883).broker(),
        (Broker::Hostname("localhost".to_string()), 1883)
    );
    assert_eq!(
        MqttOptions::new("client_a", Broker::IpAddr(IpAddr::V6(Ipv6Addr::localhost())), 1883)
            .broker(),
        (Broker::IpAddr(IpAddr::V6(Ipv6Addr::localhost())), 1883)
    );
    assert_eq!(
        MqttOptions::new("client_a", Broker::IpAddr(IpAddr::V4(Ipv4Addr::new(127, 0, 0, 1))), 1883)
            .set_port(8883)
            .broker(),
        (Broker::IpAddr(IpAddr::V4(Ipv4Addr::localhost())), 8883)
    );
}

#[test]
fn client_id() {
    let opts = MqttOptions::new("client_a", Broker::IpAddr(IpAddr::V4(Ipv4Addr::localhost())), 1883);
    assert_eq!(opts.client_id(), "client_a");
}

#[test]
fn keep_alive_ms() {
    let opts = MqttOptions::new("client_a", Broker::IpAddr(IpAddr::V4(Ipv4Addr::localhost())), 1883);
    assert_eq!(opts.keep_alive_ms(), 60_000);
    assert_eq!(opts.set_keep_alive(120).keep_alive_ms(), 120_000);
}

#[test]
fn last_will() {
    let opts = MqttOptions::new("client_a", Broker::IpAddr(IpAddr::V4(Ipv4Addr::localhost())), 1883);
    assert_eq!(opts.last_will(), None);
    let will = LastWill {
        topic: "topic".to_string(),
        message: b"Will message".to_vec(),
        qos: QoS::AtLeastOnce,
        retain: false,
    };
    assert_eq!(opts.set_last_will(will.clone()).last_will(), Some(will));
}

#[test]
fn clean_session() {
    let opts = MqttOptions::new("client_a", Broker::IpAddr(IpAddr::V4(Ipv4Addr::localhost())), 1883);
    assert_eq!(opts.clean_session(), true);
    assert_eq!(opts.set_clean_session(false).clean_session(), false);
}

#[test]
fn credentials() {
    let opts = MqttOptions::new("client_a", Broker::IpAddr(IpAddr::V4(Ipv4Addr::localhost())), 1883);
    assert_eq!(opts.credentials(), (None, None));
    assert_eq!(
        opts.set_credentials("some_user", &[]).credentials(),
        (Some("some_user"), Some(&b""[..]))
    );
}
