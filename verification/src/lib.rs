//! Verified core of a small HTTP file-ingestion service.
//!
//! Clients push a file either as a raw request body accompanied by a
//! `Content-Disposition` header, or as a `multipart/form-data` part; the
//! service persists the bytes under a managed upload directory and serves
//! them back. This crate holds the ingestion core — protocol detection,
//! filename extraction and sanitization, bounded persistence, and
//! path-traversal-safe resolution — as verified functions over plain bytes.
//! The HTTP transport around it hands the core decoded header values and
//! body bytes and renders the core's results.

pub mod bytes_util;
pub mod disposition;
pub mod errors;
pub mod gateway;
pub mod multipart;
pub mod sanitize;
pub mod store;
pub mod writer;
