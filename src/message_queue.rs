//! The broker's data model: identities, the message capability, operations
//! and their results.
use vstd::prelude::*;

pub mod guarantees;
pub mod server;

pub use server::Server;

verus! {

/// A client's identity: the 128 bits of a random (version 4) UUID.
pub type Identity = u128;

/// The bits of an identity that hold the UUID version and variant.
pub const VERSION_VARIANT_MASK: u128 = 0x0000_0000_0000_f000_c000_0000_0000_0000;

/// Those bits in a random UUID: version 4, variant of RFC 4122.
pub const VERSION_VARIANT_RANDOM: u128 = 0x0000_0000_0000_4000_8000_0000_0000_0000;

/// Whether `id` is laid out as a random UUID.
pub open spec fn is_random_identity(id: Identity) -> bool {
    id & VERSION_VARIANT_MASK == VERSION_VARIANT_RANDOM
}

/// Relies on uuid::Uuid::new_v4, which fills an identifier from the
/// operating system's random source (and panics only if that source fails)
/// and then sets its version and variant bits, and on Uuid::as_u128, which
/// gives those 128 bits unchanged (big-endian). Nothing is promised of the
/// other bits: two calls may give the same value, however unlikely.
#[verifier::external_body]
pub(crate) fn new_identity() -> (id: Identity)
    ensures
        is_random_identity(id),
{
    uuid::Uuid::new_v4().as_u128()
}

/// What the broker needs of a payload: a tag, which partitions matching,
/// and an optional recipient, which restricts who may take it.
///
/// `spec_tag` and `spec_recipient` describe `tag` and `recipient`. A payload
/// implemented outside Verus writes them as ordinary methods that return the
/// same values; nothing then checks that they agree.
pub trait Message: Sized {
    type Tag: Copy;

    spec fn spec_tag(&self) -> Self::Tag;

    spec fn spec_recipient(&self) -> Option<Identity>;

    fn tag(&self) -> (t: Self::Tag)
        ensures
            t == self.spec_tag(),
    ;

    fn recipient(&self) -> (r: Option<Identity>)
        ensures
            r == self.spec_recipient(),
    ;

    /// Whether two tags are the same tag.
    fn same_tag(a: &Self::Tag, b: &Self::Tag) -> (r: bool)
        ensures
            r == (*a == *b),
    ;
}

/// The one request a connection carries.
pub enum Operation<M: Message> {
    Register,
    Send(Identity, M),
    Receive(Identity, M::Tag),
}

/// The application-level refusal of a send.
#[derive(Clone, Copy, Debug, PartialEq, Eq, Structural)]
pub enum OperationError {
    TooManyMessages,
}

impl OperationError {
    /// The message that explains the refusal to a user.
    pub fn message(&self) -> (s: &'static str)
        ensures
            s@ == operation_error_text(),
    {
        proof {
            reveal_strlit("Too many messages from the same client in the queue. Try again later.");
        }
        "Too many messages from the same client in the queue. Try again later."
    }
}

/// The text of the refusal of a send.
pub open spec fn operation_error_text() -> Seq<char> {
    "Too many messages from the same client in the queue. Try again later."@
}

pub type OperationResult<T> = Result<T, OperationError>;

/// A payload together with the identity of the client that sent it.
#[derive(Debug)]
pub struct StampedMessage<M: Message> {
    pub sender: Identity,
    pub inner: M,
}

} // verus!
