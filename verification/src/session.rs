//! The lifecycle of one accepted WebSocket connection.
//!
//! A session is born handshaking: its connection's very first text frame is
//! its username. Registering installs the session's queue in the registry
//! (replacing any older session under the same username) and moves the
//! session to relaying. While relaying, two concurrent activities race:
//! delivery encodes queued messages into frames, and liveness watches the
//! socket. The first failure on either side closes the session, and closing
//! always removes the session's own registry entry — never a replacement's —
//! before the session ends. `Closed` is terminal.

use vstd::prelude::*;

use crate::codec;
use crate::error::ServerError;
use crate::msg::MsgModel;
use crate::registry::{Registry, RegistryModel};

verus! {

/// Delivery is faithful: the frame a session writes for a dequeued message
/// decodes, on the consumer side, to exactly that message's payload — its
/// type and optional fields, with the routing key stripped. Together with
/// the queue's append-at-tail sends and front-first dequeues, an accepted
/// message reaches the registered consumer intact and in order.
pub proof fn lemma_delivery_faithful(m: MsgModel)
    ensures
        codec::decode_payload_model(codec::encode_payload_model(m.payload())) == Some(m.payload()),
{
    codec::lemma_round_trip(m.payload());
}

/// Where a session stands in its life.
#[derive(Debug, Clone, Copy, PartialEq, Eq, Structural)]
pub enum SessionPhase {
    /// Accepted, waiting for the first text frame naming the consumer.
    Handshaking,
    /// Registered; delivering queued messages and watching the peer.
    Relaying,
    /// Terminated; the registry holds nothing of this session.
    Closed,
}

/// What the liveness and delivery activities can observe while relaying.
#[derive(Debug, Clone, Copy, PartialEq, Eq, Structural)]
pub enum RelayEvent {
    /// The peer sent a further frame; it carries nothing of interest.
    PeerFrame,
    /// The peer closed the connection cleanly.
    PeerClosed,
    /// Reading the socket failed.
    ReadFailed,
    /// Writing a delivery frame failed.
    WriteFailed,
}

/// The state of one accepted connection: its declared username and the
/// generation its registry entry carries.
pub struct Session {
    phase: SessionPhase,
    username: String,
    generation: u64,
}

impl Session {
    pub closed spec fn phase(self) -> SessionPhase {
        self.phase
    }

    pub closed spec fn username_view(self) -> Seq<char> {
        self.username@
    }

    pub closed spec fn generation(self) -> u64 {
        self.generation
    }

    /// Whether the registry still holds this very session's entry: its
    /// username mapped to a queue of its own generation.
    pub open spec fn owns_entry(self, m: RegistryModel) -> bool {
        m.channels.contains_key(self.username_view()) && m.channels[self.username_view()].generation
            == self.generation()
    }

    /// A fresh session, still waiting for its username.
    pub fn new() -> (s: Session)
        ensures
            s.phase() == SessionPhase::Handshaking,
    {
        Session { phase: SessionPhase::Handshaking, username: String::new(), generation: 0 }
    }

    /// The declared username; meaningful once the session is relaying.
    pub fn username(&self) -> (u: &String)
        ensures
            u@ == self.username_view(),
    {
        &self.username
    }

    /// Feed the handshake's outcome: the first text frame, or nothing if
    /// the peer closed or failed before declaring a username. With a frame
    /// the session registers under it — replacing any older entry — and
    /// relays; without one it closes, never having touched the registry.
    pub fn on_first_frame(&mut self, reg: &mut Registry, frame: Option<String>) -> (r: Result<
        (),
        ServerError,
    >)
        requires
            old(self).phase() == SessionPhase::Handshaking,
            old(reg).wf(),
            old(reg)@.next_generation < u64::MAX,
        ensures
            final(reg).wf(),
            match frame {
                None => {
                    &&& r == Err::<(), ServerError>(ServerError::WebSocket)
                    &&& final(self).phase() == SessionPhase::Closed
                    &&& *final(reg) == *old(reg)
                },
                Some(u) => {
                    &&& r is Ok
                    &&& final(self).phase() == SessionPhase::Relaying
                    &&& final(self).username_view() == u@
                    &&& final(self).generation() == old(reg)@.next_generation
                    &&& final(reg)@.next_generation == old(reg)@.next_generation + 1
                    &&& final(reg)@.channels == old(reg)@.channels.insert(
                        u@,
                        crate::registry::ChannelModel {
                            generation: final(self).generation(),
                            queue: Seq::empty(),
                        },
                    )
                    &&& final(self).owns_entry(final(reg)@)
                },
            },
    {
        match frame {
            None => {
                self.phase = SessionPhase::Closed;
                Err(ServerError::WebSocket)
            },
            Some(u) => {
                let g = reg.register(u.clone());
                self.username = u;
                self.generation = g;
                self.phase = SessionPhase::Relaying;
                Ok(())
            },
        }
    }

    /// Delivery: take the front of this session's queue and encode it as
    /// one text frame. Yields nothing — and changes nothing — once the
    /// queue is empty or the entry is no longer this session's own.
    pub fn next_frame(&self, reg: &mut Registry) -> (r: Option<String>)
        requires
            self.phase() == SessionPhase::Relaying,
            old(reg).wf(),
        ensures
            final(reg).wf(),
            final(reg)@.next_generation == old(reg)@.next_generation,
            ({
                let u = self.username_view();
                if self.owns_entry(old(reg)@) && old(reg)@.channels[u].queue.len() > 0 {
                    &&& r matches Some(f) && f@ == codec::encode_payload_model(
                        old(reg)@.channels[u].queue[0].payload(),
                    )
                    &&& final(reg)@.channels == old(reg)@.channels.insert(
                        u,
                        crate::registry::ChannelModel {
                            generation: self.generation(),
                            queue: old(reg)@.channels[u].queue.drop_first(),
                        },
                    )
                } else {
                    r is None && *final(reg) == *old(reg)
                }
            }),
    {
        match reg.pop(&self.username, self.generation) {
            Some(m) => Some(codec::encode_payload(&m)),
            None => None,
        }
    }

    /// Feed one relay-time event. A further peer frame is ignored; a peer
    /// close, read failure or write failure closes the session, removing
    /// its registry entry first — and only its own: a replacement's entry
    /// under the same username is left untouched.
    pub fn on_relay_event(&mut self, reg: &mut Registry, ev: RelayEvent) -> (closed: bool)
        requires
            old(self).phase() == SessionPhase::Relaying,
            old(reg).wf(),
        ensures
            final(reg).wf(),
            final(reg)@.next_generation == old(reg)@.next_generation,
            match ev {
                RelayEvent::PeerFrame => {
                    &&& !closed
                    &&& *final(self) == *old(self)
                    &&& *final(reg) == *old(reg)
                },
                _ => {
                    &&& closed
                    &&& final(self).phase() == SessionPhase::Closed
                    &&& final(self).username_view() == old(self).username_view()
                    &&& final(self).generation() == old(self).generation()
                    &&& !old(self).owns_entry(final(reg)@)
                    &&& if old(self).owns_entry(old(reg)@) {
                        final(reg)@.channels == old(reg)@.channels.remove(
                            old(self).username_view(),
                        )
                    } else {
                        *final(reg) == *old(reg)
                    }
                },
            },
    {
        match ev {
            RelayEvent::PeerFrame => false,
            _ => {
                reg.unregister(&self.username, self.generation);
                self.phase = SessionPhase::Closed;
                true
            },
        }
    }
}

} // verus!
