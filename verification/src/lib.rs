//! Protocol layer of an S3-compatible object-storage server.
//!
//! The crate covers the pieces every request passes through before any
//! storage work happens: canonical query strings, the closed S3 error
//! taxonomy, the credential registry, AWS-Signature-V4 request
//! verification, and the dispatcher that ties them together over a
//! pluggable storage capability.

pub mod error_code;
pub mod text;
pub mod query;
pub mod creds;
pub mod sigv4;
pub mod storage;
pub mod dispatch;
