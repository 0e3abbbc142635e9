//! Events the event loop surfaces to the application, and the errors it
//! can abort with.

use vstd::prelude::*;

use crate::packet::{Publish, Suback};
use crate::types::{Error, Pid, QosPid};

verus! {

/// Largest topic a surfaced publish may carry, in UTF-8 bytes.
pub const MAX_TOPIC_LEN: usize = 256;

/// Largest payload a surfaced publish may carry, in bytes.
pub const MAX_PAYLOAD_LEN: usize = 2048;

/// Session-rule violations.
#[derive(Debug, Clone, PartialEq, Eq, Structural)]
pub enum StateError {
    /// An acknowledgement arrived that no tracked packet asked for, or a
    /// packet arrived in a connection state that does not accept it.
    Unsolicited(PacketKind, u16),
    /// The in-flight table is full.
    MaxInflight,
    /// An inbound publish exceeded the topic or payload bound.
    PayloadEncoding,
    /// The broker refused the connection with this CONNACK return code.
    Connect(u8),
    /// The keep-alive timer expired while a ping was already outstanding.
    PingTimeout,
}

/// The kind of a control packet, as named by [`StateError::Unsolicited`].
#[derive(Debug, Clone, Copy, PartialEq, Eq, Structural)]
pub enum PacketKind {
    Connect,
    Connack,
    Publish,
    Puback,
    Pubrec,
    Pubrel,
    Pubcomp,
    Subscribe,
    Suback,
    Unsubscribe,
    Unsuback,
    Pingreq,
    Pingresp,
    Disconnect,
}

/// Transport failures.
#[derive(Debug, Clone, Copy, PartialEq, Eq, Structural)]
pub enum NetworkError {
    Read,
    Write,
    NoSocket,
    SocketOpen,
    SocketConnect,
    SocketClosed,
    DnsLookupFailed,
}

/// Critical errors surfaced while driving the event loop.
#[derive(Debug, Clone, PartialEq, Eq, Structural)]
pub enum EventError {
    MqttState(StateError),
    Timeout,
    Encoding(Error),
    Network(NetworkError),
    BufferSize,
}

impl From<Error> for EventError {
    /// A codec error surfaces as an encoding error.
    fn from(e: Error) -> (r: EventError) {
        EventError::Encoding(e)
    }
}

impl vstd::std_specs::convert::FromSpecImpl<Error> for EventError {
    open spec fn obeys_from_spec() -> bool {
        true
    }

    open spec fn from_spec(e: Error) -> EventError {
        EventError::Encoding(e)
    }
}

impl From<StateError> for EventError {
    /// A session-rule violation surfaces as a state error.
    fn from(e: StateError) -> (r: EventError) {
        EventError::MqttState(e)
    }
}

impl vstd::std_specs::convert::FromSpecImpl<StateError> for EventError {
    open spec fn obeys_from_spec() -> bool {
        true
    }

    open spec fn from_spec(e: StateError) -> EventError {
        EventError::MqttState(e)
    }
}

/// An inbound publish surfaced to the application, with its topic and
/// payload copied into bounded buffers.
#[derive(Debug, Clone, PartialEq)]
pub struct PublishNotification {
    pub dup: bool,
    pub qospid: QosPid,
    pub retain: bool,
    pub topic_name: String,
    pub payload: Vec<u8>,
}

/// Specification view of [`PublishNotification`].
pub struct PublishNotificationView {
    pub dup: bool,
    pub qospid: QosPid,
    pub retain: bool,
    pub topic_name: Seq<char>,
    pub payload: Seq<u8>,
}

impl View for PublishNotification {
    type V = PublishNotificationView;

    open spec fn view(&self) -> PublishNotificationView {
        PublishNotificationView {
            dup: self.dup,
            qospid: self.qospid,
            retain: self.retain,
            topic_name: self.topic_name@,
            payload: self.payload@,
        }
    }
}

/// Does an inbound publish fit the notification bounds?
pub open spec fn publish_fits(p: crate::packet::PublishView) -> bool {
    vstd::utf8::encode_utf8(p.topic_name).len() <= MAX_TOPIC_LEN && p.payload.len()
        <= MAX_PAYLOAD_LEN
}

impl PublishNotification {
    /// Copies an inbound publish into a notification; fails with
    /// `PayloadEncoding` exactly when the topic or the payload exceeds its
    /// bound.
    pub fn try_from(p: Publish) -> (r: Result<PublishNotification, StateError>)
        ensures
            publish_fits(p@) ==> (r matches Ok(n) && n@.dup == p@.dup && n@.qospid == p@.qospid
                && n@.retain == p@.retain && n@.topic_name == p@.topic_name && n@.payload
                == p@.payload),
            !publish_fits(p@) ==> r == Err::<PublishNotification, StateError>(
                StateError::PayloadEncoding,
            ),
    {
        if p.topic_name.as_str().as_bytes().len() > MAX_TOPIC_LEN || p.payload.len()
            > MAX_PAYLOAD_LEN {
            return Err(StateError::PayloadEncoding);
        }
        Ok(
            PublishNotification {
                dup: p.dup,
                qospid: p.qospid,
                retain: p.retain,
                topic_name: p.topic_name,
                payload: p.payload,
            },
        )
    }
}

/// An event surfaced from the event loop to the application.
#[derive(Debug, Clone, PartialEq)]
pub enum Notification {
    /// The broker accepted the connection.
    ConnAck,
    /// An inbound publish.
    Publish(PublishNotification),
    /// The broker acknowledged a QoS 1 publish.
    Puback(Pid),
    /// The broker received a QoS 2 publish.
    Pubrec(Pid),
    /// The broker completed a QoS 2 publish.
    Pubcomp(Pid),
    /// The broker answered a subscribe.
    Suback(Suback),
    /// The broker answered an unsubscribe.
    Unsuback(Pid),
    /// The loop aborted.
    Abort(EventError),
}

} // verus!
