//! The closed sum of MQTT 3.1.1 control packets, together with the
//! specification-level views that the codec contracts are stated over.
//!
//! Each executable type holding a `String` or a `Vec` has a mirror view
//! holding `Seq`s, so that byte-exact encoding can be written as a
//! specification function.

use vstd::prelude::*;

use crate::types::{Pid, QoS, QosPid};

verus! {

/// Protocol name and level carried by CONNECT: `"MQTT"` level 4 (3.1.1) or
/// `"MQIsdp"` level 3 (3.1).
#[derive(Debug, Clone, Copy, PartialEq, Eq, Structural)]
pub enum Protocol {
    MQTT311,
    MQIsdp,
}

/// CONNACK return code; values `0..=5` on the wire.
#[derive(Debug, Clone, Copy, PartialEq, Eq, Structural)]
pub enum ConnectReturnCode {
    Accepted,
    RefusedProtocolVersion,
    RefusedIdentifierRejected,
    ServerUnavailable,
    BadUsernamePassword,
    NotAuthorized,
}

/// The wire value of a CONNACK return code.
pub open spec fn return_code_value(c: ConnectReturnCode) -> int {
    match c {
        ConnectReturnCode::Accepted => 0,
        ConnectReturnCode::RefusedProtocolVersion => 1,
        ConnectReturnCode::RefusedIdentifierRejected => 2,
        ConnectReturnCode::ServerUnavailable => 3,
        ConnectReturnCode::BadUsernamePassword => 4,
        ConnectReturnCode::NotAuthorized => 5,
    }
}

impl ConnectReturnCode {
    /// The wire value of the code.
    pub fn as_u8(self) -> (r: u8)
        ensures
            r == return_code_value(self),
    {
        match self {
            ConnectReturnCode::Accepted => 0,
            ConnectReturnCode::RefusedProtocolVersion => 1,
            ConnectReturnCode::RefusedIdentifierRejected => 2,
            ConnectReturnCode::ServerUnavailable => 3,
            ConnectReturnCode::BadUsernamePassword => 4,
            ConnectReturnCode::NotAuthorized => 5,
        }
    }

    /// Reads a code from its wire value; values above 5 are rejected by the
    /// decoder with `InvalidConnectReturnCode`.
    pub fn from_u8(byte: u8) -> (r: Option<ConnectReturnCode>)
        ensures
            byte <= 5 ==> (r matches Some(c) && return_code_value(c) == byte),
            byte > 5 ==> r is None,
    {
        match byte {
            0 => Some(ConnectReturnCode::Accepted),
            1 => Some(ConnectReturnCode::RefusedProtocolVersion),
            2 => Some(ConnectReturnCode::RefusedIdentifierRejected),
            3 => Some(ConnectReturnCode::ServerUnavailable),
            4 => Some(ConnectReturnCode::BadUsernamePassword),
            5 => Some(ConnectReturnCode::NotAuthorized),
            _ => None,
        }
    }
}

/// A will message the broker publishes if the client disconnects unexpectedly.
#[derive(Debug, Clone, PartialEq)]
pub struct LastWill {
    pub topic: String,
    pub message: Vec<u8>,
    pub qos: QoS,
    pub retain: bool,
}

/// Specification view of [`LastWill`].
pub struct LastWillView {
    pub topic: Seq<char>,
    pub message: Seq<u8>,
    pub qos: QoS,
    pub retain: bool,
}

impl View for LastWill {
    type V = LastWillView;

    open spec fn view(&self) -> LastWillView {
        LastWillView {
            topic: self.topic@,
            message: self.message@,
            qos: self.qos,
            retain: self.retain,
        }
    }
}

/// CONNECT: opens the session.
#[derive(Debug, Clone, PartialEq)]
pub struct Connect {
    pub protocol: Protocol,
    pub keep_alive: u16,
    pub client_id: String,
    pub clean_session: bool,
    pub last_will: Option<LastWill>,
    pub username: Option<String>,
    pub password: Option<Vec<u8>>,
}

/// Specification view of [`Connect`].
pub struct ConnectView {
    pub protocol: Protocol,
    pub keep_alive: u16,
    pub client_id: Seq<char>,
    pub clean_session: bool,
    pub last_will: Option<LastWillView>,
    pub username: Option<Seq<char>>,
    pub password: Option<Seq<u8>>,
}

impl View for Connect {
    type V = ConnectView;

    open spec fn view(&self) -> ConnectView {
        ConnectView {
            protocol: self.protocol,
            keep_alive: self.keep_alive,
            client_id: self.client_id@,
            clean_session: self.clean_session,
            last_will: match self.last_will {
                Some(w) => Some(w@),
                None => None,
            },
            username: match self.username {
                Some(u) => Some(u@),
                None => None,
            },
            password: match self.password {
                Some(p) => Some(p@),
                None => None,
            },
        }
    }
}

/// CONNACK: the broker's answer to CONNECT.
#[derive(Debug, Clone, Copy, PartialEq, Eq, Structural)]
pub struct Connack {
    pub session_present: bool,
    pub code: ConnectReturnCode,
}

/// PUBLISH: an application message in either direction.
#[derive(Debug, Clone, PartialEq)]
pub struct Publish {
    pub dup: bool,
    pub qospid: QosPid,
    pub retain: bool,
    pub topic_name: String,
    pub payload: Vec<u8>,
}

/// Specification view of [`Publish`].
pub struct PublishView {
    pub dup: bool,
    pub qospid: QosPid,
    pub retain: bool,
    pub topic_name: Seq<char>,
    pub payload: Seq<u8>,
}

impl View for Publish {
    type V = PublishView;

    open spec fn view(&self) -> PublishView {
        PublishView {
            dup: self.dup,
            qospid: self.qospid,
            retain: self.retain,
            topic_name: self.topic_name@,
            payload: self.payload@,
        }
    }
}

/// One topic filter with its requested level, as carried by SUBSCRIBE.
#[derive(Debug, Clone, PartialEq)]
pub struct SubscribeTopic {
    pub topic_path: String,
    pub qos: QoS,
}

/// Specification view of [`SubscribeTopic`].
pub struct SubscribeTopicView {
    pub topic_path: Seq<char>,
    pub qos: QoS,
}

impl View for SubscribeTopic {
    type V = SubscribeTopicView;

    open spec fn view(&self) -> SubscribeTopicView {
        SubscribeTopicView { topic_path: self.topic_path@, qos: self.qos }
    }
}

/// One SUBACK return code: a granted level, or failure (`0x80`).
#[derive(Debug, Clone, Copy, PartialEq, Eq, Structural)]
pub enum SubscribeReturnCodes {
    Success(QoS),
    Failure,
}

/// The wire value of a SUBACK return code.
pub open spec fn suback_code_value(c: SubscribeReturnCodes) -> int {
    match c {
        SubscribeReturnCodes::Success(q) => crate::types::qos_value(q),
        SubscribeReturnCodes::Failure => 0x80,
    }
}

/// SUBSCRIBE: asks for one or more topic filters.
#[derive(Debug, Clone, PartialEq)]
pub struct Subscribe {
    pub pid: Pid,
    pub topics: Vec<SubscribeTopic>,
}

/// Specification view of [`Subscribe`].
pub struct SubscribeView {
    pub pid: Pid,
    pub topics: Seq<SubscribeTopicView>,
}

impl View for Subscribe {
    type V = SubscribeView;

    open spec fn view(&self) -> SubscribeView {
        SubscribeView {
            pid: self.pid,
            topics: self.topics@.map_values(|t: SubscribeTopic| t@),
        }
    }
}

/// SUBACK: answers SUBSCRIBE with one code per filter.
#[derive(Debug, Clone, PartialEq)]
pub struct Suback {
    pub pid: Pid,
    pub return_codes: Vec<SubscribeReturnCodes>,
}

/// Specification view of [`Suback`].
pub struct SubackView {
    pub pid: Pid,
    pub return_codes: Seq<SubscribeReturnCodes>,
}

impl View for Suback {
    type V = SubackView;

    open spec fn view(&self) -> SubackView {
        SubackView { pid: self.pid, return_codes: self.return_codes@ }
    }
}

/// UNSUBSCRIBE: drops one or more topic filters.
#[derive(Debug, Clone, PartialEq)]
pub struct Unsubscribe {
    pub pid: Pid,
    pub topics: Vec<String>,
}

/// Specification view of [`Unsubscribe`].
pub struct UnsubscribeView {
    pub pid: Pid,
    pub topics: Seq<Seq<char>>,
}

impl View for Unsubscribe {
    type V = UnsubscribeView;

    open spec fn view(&self) -> UnsubscribeView {
        UnsubscribeView {
            pid: self.pid,
            topics: self.topics@.map_values(|t: String| t@),
        }
    }
}

/// An MQTT 3.1.1 control packet.
#[derive(Debug, Clone, PartialEq)]
pub enum Packet {
    Connect(Connect),
    Connack(Connack),
    Publish(Publish),
    Puback(Pid),
    Pubrec(Pid),
    Pubrel(Pid),
    Pubcomp(Pid),
    Subscribe(Subscribe),
    Suback(Suback),
    Unsubscribe(Unsubscribe),
    Unsuback(Pid),
    Pingreq,
    Pingresp,
    Disconnect,
}

/// Specification view of [`Packet`].
pub enum PacketView {
    Connect(ConnectView),
    Connack(Connack),
    Publish(PublishView),
    Puback(Pid),
    Pubrec(Pid),
    Pubrel(Pid),
    Pubcomp(Pid),
    Subscribe(SubscribeView),
    Suback(SubackView),
    Unsubscribe(UnsubscribeView),
    Unsuback(Pid),
    Pingreq,
    Pingresp,
    Disconnect,
}

impl View for Packet {
    type V = PacketView;

    open spec fn view(&self) -> PacketView {
        match self {
            Packet::Connect(c) => PacketView::Connect(c@),
            Packet::Connack(c) => PacketView::Connack(*c),
            Packet::Publish(p) => PacketView::Publish(p@),
            Packet::Puback(p) => PacketView::Puback(*p),
            Packet::Pubrec(p) => PacketView::Pubrec(*p),
            Packet::Pubrel(p) => PacketView::Pubrel(*p),
            Packet::Pubcomp(p) => PacketView::Pubcomp(*p),
            Packet::Subscribe(s) => PacketView::Subscribe(s@),
            Packet::Suback(s) => PacketView::Suback(s@),
            Packet::Unsubscribe(u) => PacketView::Unsubscribe(u@),
            Packet::Unsuback(p) => PacketView::Unsuback(*p),
            Packet::Pingreq => PacketView::Pingreq,
            Packet::Pingresp => PacketView::Pingresp,
            Packet::Disconnect => PacketView::Disconnect,
        }
    }
}

} // verus!
