//! A proxy for NFT-ownership lookups: builds the upstream request for an
//! owner, judges the upstream answer, maps its records to the public shape
//! and decides the HTTP reply.
pub mod encode;
pub mod fetch;
pub mod model;
pub mod reply;
