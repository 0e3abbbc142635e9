//! Immutable connection configuration: broker address, client identity,
//! keep-alive, session and credential settings.

use vstd::prelude::*;

use crate::packet::{LastWill, LastWillView};

verus! {

/// An IPv4 address.
#[derive(Debug, Clone, Copy, PartialEq, Eq)]
pub struct Ipv4Addr {
    pub octets: [u8; 4],
}

impl Ipv4Addr {
    /// An address from its four octets.
    pub fn new(a: u8, b: u8, c: u8, d: u8) -> (r: Ipv4Addr)
        ensures
            r.octets@ == seq![a, b, c, d],
    {
        let r = Ipv4Addr { octets: [a, b, c, d] };
        proof {
            assert(r.octets@ =~= seq![a, b, c, d]);
        }
        r
    }

    /// The loopback address `127.0.0.1`.
    pub fn localhost() -> (r: Ipv4Addr)
        ensures
            r.octets@ == seq![127u8, 0u8, 0u8, 1u8],
    {
        Ipv4Addr::new(127, 0, 0, 1)
    }
}

/// An IPv6 address.
#[derive(Debug, Clone, Copy, PartialEq, Eq)]
pub struct Ipv6Addr {
    pub segments: [u16; 8],
}

impl Ipv6Addr {
    /// An address from its eight segments.
    pub fn new(a: u16, b: u16, c: u16, d: u16, e: u16, f: u16, g: u16, h: u16) -> (r: Ipv6Addr)
        ensures
            r.segments@ == seq![a, b, c, d, e, f, g, h],
    {
        let r = Ipv6Addr { segments: [a, b, c, d, e, f, g, h] };
        proof {
            assert(r.segments@ =~= seq![a, b, c, d, e, f, g, h]);
        }
        r
    }

    /// The loopback address `::1`.
    pub fn localhost() -> (r: Ipv6Addr)
        ensures
            r.segments@ == seq![0u16, 0u16, 0u16, 0u16, 0u16, 0u16, 0u16, 1u16],
    {
        Ipv6Addr::new(0, 0, 0, 0, 0, 0, 0, 1)
    }
}

/// An IP address of either family.
#[derive(Debug, Clone, Copy, PartialEq, Eq)]
pub enum IpAddr {
    V4(Ipv4Addr),
    V6(Ipv6Addr),
}

/// Where the broker lives: a hostname still to resolve, or an address.
#[derive(Debug, Clone, PartialEq)]
pub enum Broker {
    Hostname(String),
    IpAddr(IpAddr),
}

/// Specification view of [`Broker`].
pub enum BrokerView {
    Hostname(Seq<char>),
    IpAddr(IpAddr),
}

impl View for Broker {
    type V = BrokerView;

    open spec fn view(&self) -> BrokerView {
        match self {
            Broker::Hostname(h) => BrokerView::Hostname(h@),
            Broker::IpAddr(a) => BrokerView::IpAddr(*a),
        }
    }
}

/// Options that configure the behaviour of an MQTT connection.
#[derive(Debug, Clone, PartialEq)]
pub struct MqttOptions {
    broker_addr: Broker,
    port: u16,
    keep_alive_ms: u32,
    clean_session: bool,
    client_id: String,
    credentials: Option<(String, Vec<u8>)>,
    last_will: Option<LastWill>,
}

/// Specification view of [`MqttOptions`].
pub struct MqttOptionsView {
    pub broker: BrokerView,
    pub port: u16,
    pub keep_alive_ms: u32,
    pub clean_session: bool,
    pub client_id: Seq<char>,
    pub credentials: Option<(Seq<char>, Seq<u8>)>,
    pub last_will: Option<LastWillView>,
}

impl View for MqttOptions {
    type V = MqttOptionsView;

    closed spec fn view(&self) -> MqttOptionsView {
        MqttOptionsView {
            broker: self.broker_addr@,
            port: self.port,
            keep_alive_ms: self.keep_alive_ms,
            clean_session: self.clean_session,
            client_id: self.client_id@,
            credentials: match &self.credentials {
                Some((u, p)) => Some((u@, p@)),
                None => None,
            },
            last_will: match &self.last_will {
                Some(w) => Some(w@),
                None => None,
            },
        }
    }
}

impl MqttOptions {
    /// New options. The client identifier must be nonempty and must not
    /// start with a space. Keep-alive defaults to one minute and the
    /// session to clean.
    pub fn new(id: &str, broker: Broker, port: u16) -> (r: MqttOptions)
        requires
            id@.len() > 0,
            id@[0] != ' ',
        ensures
            r@ == (MqttOptionsView {
                broker: broker@,
                port,
                keep_alive_ms: 60_000,
                clean_session: true,
                client_id: id@,
                credentials: None::<(Seq<char>, Seq<u8>)>,
                last_will: None::<LastWillView>,
            }),
    {
        MqttOptions {
            broker_addr: broker,
            port,
            keep_alive_ms: 60_000,
            clean_session: true,
            client_id: id.to_owned(),
            credentials: None,
            last_will: None,
        }
    }

    /// Broker address and port.
    pub fn broker(&self) -> (r: (Broker, u16))
        ensures
            r.0@ == self@.broker,
            r.1 == self@.port,
    {
        let b = match &self.broker_addr {
            Broker::Hostname(h) => Broker::Hostname(h.clone()),
            Broker::IpAddr(a) => Broker::IpAddr(*a),
        };
        (b, self.port)
    }

    /// Replaces the broker address.
    pub fn set_broker(self, broker: Broker) -> (r: MqttOptions)
        ensures
            r@ == (MqttOptionsView { broker: broker@, ..self@ }),
    {
        MqttOptions { broker_addr: broker, ..self }
    }

    /// Replaces the port.
    pub fn set_port(self, port: u16) -> (r: MqttOptions)
        ensures
            r@ == (MqttOptionsView { port, ..self@ }),
    {
        MqttOptions { port, ..self }
    }

    /// Sets the will the broker publishes on an unexpected disconnect.
    pub fn set_last_will(self, will: LastWill) -> (r: MqttOptions)
        ensures
            r@ == (MqttOptionsView { last_will: Some(will@), ..self@ }),
    {
        MqttOptions { last_will: Some(will), ..self }
    }

    /// The configured will, if any.
    pub fn last_will(&self) -> (r: Option<LastWill>)
        ensures
            match (r, self@.last_will) {
                (Some(w), Some(v)) => w@ == v,
                (None, None) => true,
                _ => false,
            },
    {
        match &self.last_will {
            Some(w) => Some(
                LastWill {
                    topic: w.topic.clone(),
                    message: w.message.clone(),
                    qos: w.qos,
                    retain: w.retain,
                },
            ),
            None => None,
        }
    }

    /// Sets the keep-alive interval, in whole seconds of at least 5.
    pub fn set_keep_alive(self, secs: u16) -> (r: MqttOptions)
        requires
            secs >= 5,
        ensures
            r@ == (MqttOptionsView { keep_alive_ms: (secs * 1000) as u32, ..self@ }),
    {
        MqttOptions { keep_alive_ms: secs as u32 * 1000, ..self }
    }

    /// Keep-alive interval in milliseconds.
    pub fn keep_alive_ms(&self) -> (r: u32)
        ensures
            r == self@.keep_alive_ms,
    {
        self.keep_alive_ms
    }

    /// Client identifier.
    pub fn client_id(&self) -> (r: &str)
        ensures
            r@ == self@.client_id,
    {
        self.client_id.as_str()
    }

    /// Chooses between a clean and a persistent session.
    pub fn set_clean_session(self, clean_session: bool) -> (r: MqttOptions)
        ensures
            r@ == (MqttOptionsView { clean_session, ..self@ }),
    {
        MqttOptions { clean_session, ..self }
    }

    /// Clean session flag.
    pub fn clean_session(&self) -> (r: bool)
        ensures
            r == self@.clean_session,
    {
        self.clean_session
    }

    /// Sets the username and password.
    pub fn set_credentials(self, username: &str, password: &[u8]) -> (r: MqttOptions)
        ensures
            r@ == (MqttOptionsView {
                credentials: Some((username@, password@)),
                ..self@
            }),
    {
        MqttOptions {
            credentials: Some((username.to_owned(), vstd::slice::slice_to_vec(password))),
            ..self
        }
    }

    /// The username and password, if set.
    pub fn credentials(&self) -> (r: (Option<&str>, Option<&[u8]>))
        ensures
            match (self@.credentials, r.0, r.1) {
                (Some((u, p)), Some(ru), Some(rp)) => ru@ == u && rp@ == p,
                (None, None, None) => true,
                _ => false,
            },
    {
        match &self.credentials {
            Some((u, p)) => (Some(u.as_str()), Some(p.as_slice())),
            None => (None, None),
        }
    }
}

} // verus!
