//! A line-oriented cache of discovered network devices.
//!
//! A device pairs an optional streaming URL with a required management URL.
//! The cache format holds one device per newline-terminated line:
//!
//! ```text
//! IP: <streaming-url-or-empty> ONVIF: <management-url>\n
//! ```
//!
//! This crate holds the verified core: the serializer, the parser with its
//! validation, and the URL well-formedness check. Reading and writing the
//! cache file itself is left to the caller, who hands the raw text in and
//! out as plain strings.

pub mod device;
pub mod errors;
pub mod laws;
pub mod reader;
pub mod text;
pub mod urls;
pub mod writer;
