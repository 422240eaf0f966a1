//! A small message broker: clients register, send tagged messages and wait
//! for a message of a tag, optionally addressed to them. The broker's store,
//! waitlists and throttling, and the client's retry schedule, live here as
//! verified state machines; sockets, threads and the wire format live around
//! them.
use vstd::prelude::*;

pub mod exponential_backoff;
pub mod message_queue;
pub mod utils;

pub use exponential_backoff::ExponentialBackoff;

use message_queue::{Identity, Message};

verus! {

/// The tags of the prime service: a request for a prime of some size, and
/// the response that carries it back.
#[derive(Clone, Copy, Debug, PartialEq, Eq, Hash, Structural)]
pub enum PrimesTag {
    Request,
    Response,
}

/// The payload of the prime service. A request is broadcast to whichever
/// producer takes it; a response is addressed to the client that asked.
#[derive(Debug)]
pub enum PrimesMessage {
    Request { prime_size: u32 },
    Response { recipient: Identity, prime: Vec<u8> },
}

impl Message for PrimesMessage {
    type Tag = PrimesTag;

    open spec fn spec_tag(&self) -> PrimesTag {
        match self {
            PrimesMessage::Request { .. } => PrimesTag::Request,
            PrimesMessage::Response { .. } => PrimesTag::Response,
        }
    }

    open spec fn spec_recipient(&self) -> Option<Identity> {
        match self {
            PrimesMessage::Request { .. } => None,
            PrimesMessage::Response { recipient, .. } => Some(*recipient),
        }
    }

    fn tag(&self) -> (t: PrimesTag) {
        match self {
            PrimesMessage::Request { .. } => PrimesTag::Request,
            PrimesMessage::Response { .. } => PrimesTag::Response,
        }
    }

    fn recipient(&self) -> (r: Option<Identity>) {
        match self {
            PrimesMessage::Request { .. } => None,
            PrimesMessage::Response { recipient, .. } => Some(*recipient),
        }
    }

    fn same_tag(a: &PrimesTag, b: &PrimesTag) -> (r: bool) {
        *a == *b
    }
}

} // verus!
