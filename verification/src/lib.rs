//! In-memory media-ingest core: a bit-packed chunk-header codec, cache-key and
//! TTL policy, a TTL-aware chunk store, and the pure decision logic of a
//! WebTransport ingest session (framing, path routing, datagram echo).
//!
//! Transport I/O (QUIC, HTTP/3, WebTransport) lives outside this crate; every
//! function here computes on plain values and carries a proved contract.

pub mod cache;
pub mod config;
pub mod codec;
pub mod ingest;
pub mod media;
pub mod room;
pub mod session;
pub mod store;
pub mod text;
