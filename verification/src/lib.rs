//! A little-endian TLV message codec.
//!
//! A message on the wire is an envelope: a 32-bit message-type code, a 32-bit
//! payload length, and a byte-stuffed, terminator-delimited JSON payload.
//! The codec modules build that up leaf-first: the byte-stuffing transform
//! (`stuffing`), the message-type registries, one per direction family
//! (`registry`), the payload model with its JSON form (`payload`, `json`),
//! and the envelope codec that composes them (`envelope`), with the error
//! taxonomy in `errors`.
//!
//! Alongside the codec live a few standalone exercises (`problems`) and a
//! small dependency-injection demo (`chef`, `waiter`, `restaurant`).

pub mod chef;
pub mod envelope;
pub mod errors;
pub mod json;
pub mod payload;
pub mod problems;
pub mod registry;
pub mod restaurant;
pub mod stuffing;
pub mod waiter;
