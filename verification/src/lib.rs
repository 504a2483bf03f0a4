//! Verified codecs for HTTP/1.1 and HTTP/2 wire messages.
//!
//! The core is the HTTP/2 framing layer together with its HPACK header
//! compression context: fixed-width integers (`u24`, `u31`), the HPACK
//! integer/string primitives and dynamic table, the fixed HTTP/2 Huffman
//! code, the nine-byte frame header and the per-type payload codecs, and
//! the connection preface detector.  Beside it stands a text-oriented
//! HTTP/1.1 message codec with multipart/form-data support.
#![verifier::loop_isolation(false)]

pub mod flags;
pub mod formdata;
pub mod frame;
pub mod header;
pub mod hpack;
pub mod huffman;
pub mod int31;
pub mod message;
pub mod payload;
pub mod preface;
pub mod u24;
pub mod u31;
pub mod wire;
