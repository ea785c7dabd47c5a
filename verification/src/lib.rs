//! Core of a username-addressed relay: HTTP producers post JSON events, each
//! tagged with a target username, and the event is delivered to the WebSocket
//! session currently registered under that username.
//!
//! This crate holds the verified substrate: the message type and its wire
//! codec, the registry that maps usernames to bounded delivery queues, the
//! per-connection session lifecycle, the ingress decision logic, and the
//! supervisor's exit policy. The surrounding process (sockets, the async
//! runtime, logging) lives outside and drives these functions.

pub mod codec;
pub mod error;
pub mod ingress;
pub mod msg;
pub mod registry;
pub mod session;
pub mod supervisor;
