//! A caching DNS resolver core: the wire codec, the message model, the TTL
//! cache and the resolution rules, with their contracts.

pub mod cache;
pub mod error;
pub mod helpers;
pub mod models;
pub mod server;
pub mod smart_buffer;
