//! Application-level outbound intents: what the embedder asks the session
//! to publish, subscribe to, or unsubscribe from.

use vstd::prelude::*;

use crate::packet::{SubscribeTopic, SubscribeTopicView};
use crate::types::QoS;

verus! {

/// A request to publish an application message.
#[derive(Debug, Clone, PartialEq)]
pub struct PublishRequest {
    pub dup: bool,
    pub qos: QoS,
    pub retain: bool,
    pub topic_name: String,
    pub payload: Vec<u8>,
}

/// Specification view of [`PublishRequest`].
pub struct PublishRequestView {
    pub dup: bool,
    pub qos: QoS,
    pub retain: bool,
    pub topic_name: Seq<char>,
    pub payload: Seq<u8>,
}

impl View for PublishRequest {
    type V = PublishRequestView;

    open spec fn view(&self) -> PublishRequestView {
        PublishRequestView {
            dup: self.dup,
            qos: self.qos,
            retain: self.retain,
            topic_name: self.topic_name@,
            payload: self.payload@,
        }
    }
}

/// A request to subscribe to one or more topic filters.
#[derive(Debug, Clone, PartialEq)]
pub struct SubscribeRequest {
    pub topics: Vec<SubscribeTopic>,
}

impl View for SubscribeRequest {
    type V = Seq<SubscribeTopicView>;

    open spec fn view(&self) -> Seq<SubscribeTopicView> {
        self.topics@.map_values(|t: SubscribeTopic| t@)
    }
}

/// A request to drop one or more topic filters.
#[derive(Debug, Clone, PartialEq)]
pub struct UnsubscribeRequest {
    pub topics: Vec<String>,
}

impl View for UnsubscribeRequest {
    type V = Seq<Seq<char>>;

    open spec fn view(&self) -> Seq<Seq<char>> {
        self.topics@.map_values(|t: String| t@)
    }
}

/// An outbound intent from the application.
#[derive(Debug, Clone, PartialEq)]
pub enum Request {
    Publish(PublishRequest),
    Subscribe(SubscribeRequest),
    Unsubscribe(UnsubscribeRequest),
}

/// Specification view of [`Request`].
pub enum RequestView {
    Publish(PublishRequestView),
    Subscribe(Seq<SubscribeTopicView>),
    Unsubscribe(Seq<Seq<char>>),
}

impl View for Request {
    type V = RequestView;

    open spec fn view(&self) -> RequestView {
        match self {
            Request::Publish(p) => RequestView::Publish(p@),
            Request::Subscribe(s) => RequestView::Subscribe(s@),
            Request::Unsubscribe(u) => RequestView::Unsubscribe(u@),
        }
    }
}

} // verus!
