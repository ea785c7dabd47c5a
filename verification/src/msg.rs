//! The unit of relay traffic: a routing key plus the payload handed on to the
//! consumer.

use vstd::prelude::*;

verus! {

/// Mathematical image of a [`Msg`]: every field as a sequence of characters.
pub struct MsgModel {
    pub username: Seq<char>,
    pub msg_type: Seq<char>,
    pub audio_url: Option<Seq<char>>,
    pub status_type: Option<Seq<char>>,
}

impl MsgModel {
    /// The part of a message that is delivered to the consumer: everything
    /// but the routing key.
    pub open spec fn payload(self) -> PayloadModel {
        PayloadModel {
            msg_type: self.msg_type,
            audio_url: self.audio_url,
            status_type: self.status_type,
        }
    }
}

/// The consumer-visible part of a message; the `username` routing key is
/// stripped before delivery.
pub struct PayloadModel {
    pub msg_type: Seq<char>,
    pub audio_url: Option<Seq<char>>,
    pub status_type: Option<Seq<char>>,
}

/// One relay event. `username` addresses the consumer and is not part of the
/// delivered payload; `type_` discriminates the consumer's handling; the two
/// optional fields ride along untouched. A `Msg` is immutable once built: it
/// is cloned, never mutated, on its way from ingress to a session's queue.
#[derive(Debug, PartialEq)]
pub struct Msg {
    pub username: String,
    pub type_: String,
    pub audio_url: Option<String>,
    pub status_type: Option<String>,
}

impl View for Msg {
    type V = MsgModel;

    open spec fn view(&self) -> MsgModel {
        MsgModel {
            username: self.username@,
            msg_type: self.type_@,
            audio_url: match self.audio_url {
                Some(s) => Some(s@),
                None => None,
            },
            status_type: match self.status_type {
                Some(s) => Some(s@),
                None => None,
            },
        }
    }
}

/// What a consumer holds after decoding one delivered frame: a message
/// without its routing key.
#[derive(Debug, PartialEq)]
pub struct Payload {
    pub type_: String,
    pub audio_url: Option<String>,
    pub status_type: Option<String>,
}

impl View for Payload {
    type V = PayloadModel;

    open spec fn view(&self) -> PayloadModel {
        PayloadModel {
            msg_type: self.type_@,
            audio_url: match self.audio_url {
                Some(s) => Some(s@),
                None => None,
            },
            status_type: match self.status_type {
                Some(s) => Some(s@),
                None => None,
            },
        }
    }
}

impl Clone for Msg {
    fn clone(&self) -> (r: Self)
        ensures
            r == *self,
    {
        Msg {
            username: self.username.clone(),
            type_: self.type_.clone(),
            audio_url: match &self.audio_url {
                Some(s) => Some(s.clone()),
                None => None,
            },
            status_type: match &self.status_type {
                Some(s) => Some(s.clone()),
                None => None,
            },
        }
    }
}

} // verus!
