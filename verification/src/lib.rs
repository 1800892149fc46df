//! A content-addressed blob ingestion library.
//!
//! Uploaded file contents are fingerprinted with SHA-256, stored under a
//! digest-derived two-level sharded path, and reported back through a stable
//! access descriptor. The multipart request decoding, the path derivation,
//! the idempotent store semantics and the response rendering are all
//! verified; process bootstrap and real file and network I/O live outside
//! this crate.

pub mod bytesutil;
pub mod digesting;
pub mod pathing;
pub mod store;
pub mod multipart;
pub mod upload;
pub mod jsonrender;
pub mod serve;
