//! An embedded-friendly MQTT 3.1.1 client core: a bit-exact wire codec, a
//! session state machine with QoS 1/2 delivery tracking, and the decision
//! logic of a cooperative event loop, all with machine-checked contracts.
//!
//! Transport, DNS and timers are capabilities the embedder injects; the
//! modules here only compute packets, state transitions and actions from
//! plain values.

pub mod codec_laws;
pub mod decode;
pub mod encode;
pub mod eventloop;
pub mod notify;
pub mod options;
pub mod packet;
pub mod requests;
pub mod state;
pub mod types;
pub mod wire;
