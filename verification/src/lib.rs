//! Transport layer for a JSON-RPC 2.0 endpoint speaking the LSP wire
//! convention: `Content-Length`-framed messages on a byte stream.
//!
//! The crate frames incoming bytes into header-plus-body units, validates
//! the header block, classifies each body as a request, notification or
//! response, decides how a classified message is routed, and encodes
//! outgoing bodies with a correctly computed `Content-Length` header.

pub mod codec;
pub mod dispatch;
pub mod envelope;
pub mod frame;
pub mod header;
pub mod lsp;
