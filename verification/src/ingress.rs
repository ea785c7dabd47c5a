//! The HTTP ingress decision: what one POSTed body does to the registry and
//! what the producer is told.
//!
//! Policy, fixed here: receipt is what the response reports. A body that
//! decodes is answered `202 Accepted` whether or not a consumer was
//! reachable — a producer cannot act on "no listener" and must not
//! retry-storm — while an undecodable body is answered `400`. Routing
//! failures (`NoConsumer`, `QueueFull`) are surfaced in the outcome so the
//! caller can log them.

use vstd::prelude::*;

use crate::codec;
use crate::error::ServerError;
use crate::registry::{Registry, QUEUE_CAPACITY};

verus! {

/// HTTP status for a body that was received and decoded.
pub const STATUS_ACCEPTED: u16 = 202;

/// HTTP status for a body that did not decode as a message.
pub const STATUS_BAD_REQUEST: u16 = 400;

/// Everything one POST can amount to.
#[derive(Debug, Clone, Copy, PartialEq, Eq, Structural)]
pub enum IngressOutcome {
    /// The event sits in the addressed session's queue.
    Delivered,
    /// No session is registered under the addressed username; the event was
    /// dropped without touching the registry.
    NoConsumer,
    /// The addressed session's queue was at capacity; the event was
    /// dropped and the queue left as it was.
    QueueFull,
    /// The body was not a well-formed message; the registry was not
    /// consulted.
    BadRequest,
}

/// The HTTP status reported for each outcome.
pub open spec fn status_of(o: IngressOutcome) -> u16 {
    match o {
        IngressOutcome::BadRequest => STATUS_BAD_REQUEST,
        _ => STATUS_ACCEPTED,
    }
}

/// The response status for an outcome: `400` exactly for a malformed body,
/// `202` for everything that was received.
pub fn status_code(o: IngressOutcome) -> (s: u16)
    ensures
        s == status_of(o),
{
    match o {
        IngressOutcome::BadRequest => STATUS_BAD_REQUEST,
        _ => STATUS_ACCEPTED,
    }
}

/// Handle one POSTed body: decode it and attempt a non-blocking delivery to
/// the decoded username's queue. The outcome says exactly what happened; a
/// body that does not decode, a missing consumer and a saturated queue all
/// leave the registry untouched.
pub fn handle_post(reg: &mut Registry, body: &str) -> (o: IngressOutcome)
    requires
        old(reg).wf(),
    ensures
        final(reg).wf(),
        final(reg)@.next_generation == old(reg)@.next_generation,
        match codec::decode_msg_model(body@) {
            None => o == IngressOutcome::BadRequest && *final(reg) == *old(reg),
            Some(m) => {
                if !old(reg)@.channels.contains_key(m.username) {
                    o == IngressOutcome::NoConsumer && *final(reg) == *old(reg)
                } else if old(reg)@.channels[m.username].queue.len() == QUEUE_CAPACITY {
                    o == IngressOutcome::QueueFull && *final(reg) == *old(reg)
                } else {
                    o == IngressOutcome::Delivered && final(reg)@.channels == old(
                        reg,
                    )@.channels.insert(
                        m.username,
                        crate::registry::ChannelModel {
                            generation: old(reg)@.channels[m.username].generation,
                            queue: old(reg)@.channels[m.username].queue.push(m),
                        },
                    )
                }
            },
        },
{
    let ghost reg0 = *reg;
    let msg = match codec::decode_msg(body) {
        Err(_) => {
            return IngressOutcome::BadRequest;
        },
        Ok(m) => m,
    };
    match reg.send(&msg.username, msg.clone()) {
        Ok(()) => IngressOutcome::Delivered,
        Err(ServerError::NotFound) => IngressOutcome::NoConsumer,
        Err(ServerError::Full) => IngressOutcome::QueueFull,
        Err(_) => {
            proof {
                reg0.lemma_inv();
                assert(false);
            }
            IngressOutcome::BadRequest
        },
    }
}

} // verus!
