//! Asset-serving bucket: a chunked upload staging area, a committed-asset
//! registry keyed by full path, a certified hash tree that binds every
//! committed asset's content digest to one root hash, and a request server
//! that serves assets with a certification header and streaming continuation
//! tokens.
//!
//! All state is held in an explicit [`store::State`] value passed to every
//! operation. Host facilities (the clock, the attestation blob, publishing
//! the certified root) enter and leave as plain values, so the whole store
//! logic is verified here and the host glue stays outside.

pub mod cert;
pub mod crypto;
pub mod errors;
pub mod hashtree;
pub mod http;
pub mod registry;
pub mod store;
pub mod text;
pub mod types;
