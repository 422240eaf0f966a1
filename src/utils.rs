//! Utilities shared by the broker's clients: the retry backoff.
pub use crate::exponential_backoff::ExponentialBackoff;
