//! Frame flag bits, by payload type (RFC 9113 section 6).
use vstd::prelude::*;

verus! {

/// Data: the payload ends the stream.
pub const DATA_END_STREAM: u8 = 0x01;

/// Data: the payload starts with a pad length and ends with padding.
pub const DATA_PADDED: u8 = 0x08;

/// Headers: the payload ends the stream.
pub const HEADERS_END_STREAM: u8 = 0x01;

/// Headers: the header block is complete; no continuation follows.
pub const HEADERS_END_HEADERS: u8 = 0x04;

/// Headers: the payload starts with a pad length and ends with padding.
pub const HEADERS_PADDED: u8 = 0x08;

/// Headers: a five-byte priority field precedes the header block.
pub const HEADERS_PRIORITY: u8 = 0x20;

/// Settings: the frame acknowledges a peer's settings and carries none.
pub const SETTINGS_ACK: u8 = 0x01;

/// PushPromise: the payload starts with a pad length and ends with padding.
pub const PUSH_PROMISE_PADDED: u8 = 0x08;

/// PushPromise: the header block is complete.
pub const PUSH_PROMISE_END_HEADERS: u8 = 0x04;

/// Ping: the frame answers a peer's ping.
pub const PING_ACK: u8 = 0x01;

/// Continuation: the header block is complete.
pub const CONTINUATION_END_HEADERS: u8 = 0x04;

/// True when every bit of `flag` is set in `flags`.
pub open spec fn spec_has_flag(flags: u8, flag: u8) -> bool {
    flags & flag == flag
}

/// Tests a flag bit.
pub fn has_flag(flags: u8, flag: u8) -> (r: bool)
    ensures
        r == spec_has_flag(flags, flag),
{
    flags & flag == flag
}

} // verus!
