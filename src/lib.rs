//! Codec for the legacy request/response wire protocol of a document database:
//! outbound operation frames, the reply decoder, and request builders for
//! collections.

pub mod doc;
pub mod wire;
pub mod client;
pub mod msg;
