//! HTTP semantics for serving file content as a chunked byte stream:
//! byte-range windows, `Range` header parsing and validation, entity-tag
//! derivation and comparison, conditional-request evaluation, chunked
//! stream production, and response-head assembly.
//!
//! All protocol decisions are made here, on plain values; the asynchronous
//! I/O that feeds them lives outside the verified core.

pub mod conditional;
pub mod digits;
pub mod etag;
pub mod range;
pub mod response;
pub mod seek;
pub mod stream;
mod window;

pub use window::ByteWindow;
