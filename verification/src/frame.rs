//! The HTTP/2 frame codec: the nine-byte header and the framed payload
//! (RFC 9113 section 4.1).
use vstd::prelude::*;

use crate::payload::{
    spec_payload_parse_err, spec_payload_parse_ok, FromBytesError, Payload,
};
use crate::u24::{spec_be3, spec_from_be3, u24};
use crate::u31::{spec_be4, spec_from_be4, u31};
use crate::wire::Len;

verus! {

#[derive(Debug, Clone, Copy, PartialEq, Eq)]
pub enum FrameParseError {
    /// Fewer than nine bytes of input.
    InsufficentLength,
    /// The declared payload length runs past the input.
    InsufficentPayloadLength,
    /// The payload itself did not parse.
    PayloadParseError(FromBytesError),
}

#[derive(Debug, Clone, Copy, PartialEq, Eq, Structural)]
pub enum FrameType {
    Data,
    Headers,
    Priority,
    RstStream,
    Settings,
    PushPromise,
    Ping,
    GoAway,
    WindowUpdate,
    Continuation,
    Unknown,
}

/// The type byte emitted for each frame type; unknown types emit 254.
pub open spec fn spec_type_byte(t: FrameType) -> u8 {
    match t {
        FrameType::Data => 0,
        FrameType::Headers => 1,
        FrameType::Priority => 2,
        FrameType::RstStream => 3,
        FrameType::Settings => 4,
        FrameType::PushPromise => 5,
        FrameType::Ping => 6,
        FrameType::GoAway => 7,
        FrameType::WindowUpdate => 8,
        FrameType::Continuation => 9,
        FrameType::Unknown => 254,
    }
}

/// The frame type a type byte denotes.
pub open spec fn spec_type_of_byte(b: u8) -> FrameType {
    if b == 0 {
        FrameType::Data
    } else if b == 1 {
        FrameType::Headers
    } else if b == 2 {
        FrameType::Priority
    } else if b == 3 {
        FrameType::RstStream
    } else if b == 4 {
        FrameType::Settings
    } else if b == 5 {
        FrameType::PushPromise
    } else if b == 6 {
        FrameType::Ping
    } else if b == 7 {
        FrameType::GoAway
    } else if b == 8 {
        FrameType::WindowUpdate
    } else if b == 9 {
        FrameType::Continuation
    } else {
        FrameType::Unknown
    }
}

impl FrameType {
    pub fn to_u8(self) -> (r: u8)
        ensures
            r == spec_type_byte(self),
    {
        match self {
            FrameType::Data => 0,
            FrameType::Headers => 1,
            FrameType::Priority => 2,
            FrameType::RstStream => 3,
            FrameType::Settings => 4,
            FrameType::PushPromise => 5,
            FrameType::Ping => 6,
            FrameType::GoAway => 7,
            FrameType::WindowUpdate => 8,
            FrameType::Continuation => 9,
            FrameType::Unknown => 254,
        }
    }

    pub fn from_u8(b: u8) -> (r: FrameType)
        ensures
            r == spec_type_of_byte(b),
    {
        if b == 0 {
            FrameType::Data
        } else if b == 1 {
            FrameType::Headers
        } else if b == 2 {
            FrameType::Priority
        } else if b == 3 {
            FrameType::RstStream
        } else if b == 4 {
            FrameType::Settings
        } else if b == 5 {
            FrameType::PushPromise
        } else if b == 6 {
            FrameType::Ping
        } else if b == 7 {
            FrameType::GoAway
        } else if b == 8 {
            FrameType::WindowUpdate
        } else if b == 9 {
            FrameType::Continuation
        } else {
            FrameType::Unknown
        }
    }

    /// The name of the frame type.
    pub fn to_string(self) -> (r: &'static str) {
        match self {
            FrameType::Data => "FrameType::Data",
            FrameType::Headers => "FrameType::Headers",
            FrameType::Priority => "FrameType::Priority",
            FrameType::RstStream => "FrameType::RstStream",
            FrameType::Settings => "FrameType::Settings",
            FrameType::PushPromise => "FrameType::PushPromise",
            FrameType::Ping => "FrameType::Ping",
            FrameType::GoAway => "FrameType::GoAway",
            FrameType::WindowUpdate => "FrameType::WindowUpdate",
            FrameType::Continuation => "FrameType::Continuation",
            FrameType::Unknown => "FrameType::Unknown",
        }
    }
}

/// True when the frame type tag agrees with the payload variant.
pub open spec fn spec_type_matches(t: FrameType, p: Payload) -> bool {
    match (t, p) {
        (FrameType::Data, Payload::Data(_)) => true,
        (FrameType::Headers, Payload::Headers(_)) => true,
        (FrameType::Priority, Payload::Priority(_)) => true,
        (FrameType::RstStream, Payload::RstStream(_)) => true,
        (FrameType::Settings, Payload::Settings(_)) => true,
        (FrameType::PushPromise, Payload::PushPromise(_)) => true,
        (FrameType::Ping, Payload::Ping(_)) => true,
        (FrameType::GoAway, Payload::GoAway(_)) => true,
        (FrameType::WindowUpdate, Payload::WindowUpdate(_)) => true,
        (FrameType::Continuation, Payload::Continuation(_)) => true,
        (FrameType::Unknown, Payload::Unknown(_)) => true,
        _ => false,
    }
}

/// True when the flag byte agrees with the payload's optional parts.
pub open spec fn spec_flags_match(flags: u8, p: Payload) -> bool {
    match p {
        Payload::Data(d) => crate::flags::spec_has_flag(flags, crate::flags::DATA_PADDED)
            == d.pad_length.is_some(),
        Payload::Headers(d) => crate::flags::spec_has_flag(flags, crate::flags::HEADERS_PADDED)
            == d.pad_length.is_some() && crate::flags::spec_has_flag(
            flags,
            crate::flags::HEADERS_PRIORITY,
        ) == d.priority.is_some(),
        Payload::PushPromise(d) => crate::flags::spec_has_flag(
            flags,
            crate::flags::PUSH_PROMISE_PADDED,
        ) == d.pad_length.is_some(),
        Payload::Settings(d) => crate::flags::spec_has_flag(flags, crate::flags::SETTINGS_ACK)
            ==> d.settings@.len() == 0,
        _ => true,
    }
}

/// An HTTP/2 frame: the nine header bytes as typed fields, and the
/// payload.
#[derive(Debug, Clone)]
pub struct Frame {
    pub length: u24,
    pub frame_type: FrameType,
    pub flags: u8,
    pub reserved: bool,
    pub stream_id: u31,
    pub payload: Payload,
}

impl Frame {
    /// The length field equals the payload's wire length, the tag and
    /// flags agree with the payload, and the packed integers are in
    /// range.
    pub open spec fn wf(self) -> bool {
        &&& self.length.wf()
        &&& self.stream_id.wf()
        &&& self.payload.wf()
        &&& self.length.spec_value() == self.payload.spec_wire().len()
        &&& spec_type_matches(self.frame_type, self.payload)
        &&& spec_flags_match(self.flags, self.payload)
    }

    /// The serialized frame: length, type, flags, reserved bit over the
    /// stream id, then the payload.
    pub open spec fn spec_wire(self) -> Seq<u8> {
        spec_be3(self.length.spec_value()) + seq![spec_type_byte(self.frame_type), self.flags]
            + spec_be4(
            (self.stream_id.spec_value() + if self.reserved {
                0x8000_0000u32
            } else {
                0u32
            }) as u32,
        ) + self.payload.spec_wire()
    }
}

impl Len for Frame {
    open spec fn spec_len(&self) -> nat {
        9 + self.payload.spec_wire().len()
    }

    open spec fn len_ok(&self) -> bool {
        self.payload.len_ok() && self.payload.spec_wire().len() + 9 <= usize::MAX
    }

    fn binary_len(&self) -> (r: usize) {
        9 + self.payload.binary_len()
    }
}

/// Serializes a frame.
pub fn encode_frame(frame: &Frame) -> (r: Vec<u8>)
    requires
        frame.wf(),
    ensures
        r@ =~= frame.spec_wire(),
        r@.len() == 9 + frame.payload.spec_wire().len(),
{
    let mut out: Vec<u8> = Vec::new();
    let lb = frame.length.to_bytes();
    out.push(lb[0]);
    out.push(lb[1]);
    out.push(lb[2]);
    out.push(frame.frame_type.to_u8());
    out.push(frame.flags);
    let sid = frame.stream_id.to_u32();
    let word: u32 = if frame.reserved {
        sid + 0x8000_0000
    } else {
        sid
    };
    crate::wire::push_be32(&mut out, word);
    let mut pb = frame.payload.to_bytes();
    out.append(&mut pb);
    proof {
        assert(out@ =~= frame.spec_wire());
    }
    out
}

/// The error a frame buffer forces, if any.
pub open spec fn spec_frame_parse_err(buf: Seq<u8>) -> Option<FrameParseError> {
    if buf.len() < 9 {
        Some(FrameParseError::InsufficentLength)
    } else {
        let length = spec_from_be3(buf.subrange(0, 3));
        if 9 + length > buf.len() {
            Some(FrameParseError::InsufficentPayloadLength)
        } else {
            match spec_payload_parse_err(
                buf.subrange(9, 9 + length),
                buf[4],
                spec_type_of_byte(buf[3]),
            ) {
                Some(e) => Some(FrameParseError::PayloadParseError(e)),
                None => None,
            }
        }
    }
}

/// The exact relation between a frame buffer and a parsed frame.
pub open spec fn spec_frame_parse_ok(buf: Seq<u8>, f: Frame, consumed: nat) -> bool {
    let length = spec_from_be3(buf.subrange(0, 3));
    &&& buf.len() >= 9
    &&& 9 + length <= buf.len()
    &&& f.length.spec_value() == length
    &&& f.length.wf()
    &&& f.frame_type == spec_type_of_byte(buf[3])
    &&& f.flags == buf[4]
    &&& f.reserved == (buf[5] >= 128)
    &&& f.stream_id.spec_value() == spec_from_be4(buf.subrange(5, 9)) % 0x8000_0000
    &&& f.stream_id.wf()
    &&& spec_payload_parse_ok(buf.subrange(9, 9 + length), buf[4], f.frame_type, f.payload)
    &&& consumed == 9 + length
}

/// Parses one frame from the front of the buffer, returning it together
/// with the count of bytes consumed (nine plus the payload length).
pub fn decode_frame(buf: &[u8]) -> (r: Result<(Frame, usize), FrameParseError>)
    ensures
        match r {
            Ok((f, c)) => {
                &&& spec_frame_parse_err(buf@) == None::<FrameParseError>
                &&& spec_frame_parse_ok(buf@, f, c as nat)
                &&& 9 <= c <= buf@.len()
            },
            Err(e) => spec_frame_parse_err(buf@) == Some(e),
        },
{
    if buf.len() < 9 {
        return Err(FrameParseError::InsufficentLength);
    }
    let length_bytes: [u8; 3] = [buf[0], buf[1], buf[2]];
    proof {
        assert(length_bytes@ =~= buf@.subrange(0, 3));
    }
    let length = u24::from_bytes(length_bytes);
    let length_usize = length.to_u32() as usize;
    if length_usize > buf.len() - 9 {
        return Err(FrameParseError::InsufficentPayloadLength);
    }
    let frame_type = FrameType::from_u8(buf[3]);
    let flags = buf[4];
    let reserved = buf[5] >= 128;
    let sid_bytes: [u8; 4] = [buf[5], buf[6], buf[7], buf[8]];
    proof {
        assert(sid_bytes@ =~= buf@.subrange(5, 9));
    }
    let stream_id = u31::from_bytes(sid_bytes);
    let payload_bytes = crate::wire::copy_range(buf, 9, 9 + length_usize);
    let payload = match Payload::from(payload_bytes, flags, frame_type) {
        Ok(p) => p,
        Err(e) => {
            return Err(FrameParseError::PayloadParseError(e));
        },
    };
    let f = Frame { length, frame_type, flags, reserved, stream_id, payload };
    Ok((f, 9 + length_usize))
}

/// A grouping of the frames that make up one logical exchange.
pub struct Message {
    settings: Option<Frame>,
    priority: Vec<Frame>,
    headers: Option<Frame>,
    data: Vec<Frame>,
    continuation: Vec<Frame>,
    reset: Option<Frame>,
    go_away: Option<Frame>,
    push_promise: Vec<Frame>,
    ping: Option<Frame>,
    window_update: Option<Frame>,
}


/// View-level equality of frames.
pub open spec fn spec_frame_model_eq(a: Frame, b: Frame) -> bool {
    &&& a.length.spec_value() == b.length.spec_value()
    &&& a.frame_type == b.frame_type
    &&& a.flags == b.flags
    &&& a.reserved == b.reserved
    &&& a.stream_id.spec_value() == b.stream_id.spec_value()
    &&& crate::payload::spec_payload_model_eq(a.payload, b.payload)
}

/// A 32-bit word splits into its low 31 bits and its high bit, visible
/// in the first wire byte.
proof fn lemma_word_split(raw: u32)
    ensures
        raw % 0x8000_0000 + (if raw >= 0x8000_0000 {
            0x8000_0000u32
        } else {
            0u32
        }) == raw,
        spec_be4(raw)[0] >= 128 <==> raw >= 0x8000_0000,
{
    assert(raw % 0x8000_0000 + (if raw >= 0x8000_0000 {
        0x8000_0000u32
    } else {
        0u32
    }) == raw) by (nonlinear_arith);
    assert(raw / 0x100_0000 >= 128 <==> raw >= 0x8000_0000) by (nonlinear_arith);
}

/// Serializing a well-formed frame and parsing the bytes back yields a
/// view-equal frame and consumes nine bytes plus the payload.  (law)
#[verifier::rlimit(100)]
pub proof fn lemma_frame_wire_round_trip(f: Frame, f2: Frame, c: nat)
    requires
        f.wf(),
    ensures
        spec_frame_parse_err(f.spec_wire()) == None::<FrameParseError>,
        spec_frame_parse_ok(f.spec_wire(), f2, c) ==> spec_frame_model_eq(f2, f) && c == 9
            + f.payload.spec_wire().len(),
{
    let buf = f.spec_wire();
    let pw = f.payload.spec_wire();
    let lval = f.length.spec_value();
    let sid = f.stream_id.spec_value();
    let word: u32 = (sid + if f.reserved {
        0x8000_0000u32
    } else {
        0u32
    }) as u32;
    assert(buf.len() == 9 + pw.len());
    assert(buf.subrange(0, 3) =~= crate::u24::spec_be3(lval));
    crate::u24::lemma_be3_round_trip(lval);
    assert(spec_from_be3(buf.subrange(0, 3)) == lval);
    assert(buf[3] == spec_type_byte(f.frame_type));
    assert(spec_type_of_byte(spec_type_byte(f.frame_type)) == f.frame_type);
    assert(buf[4] == f.flags);
    assert(buf.subrange(5, 9) =~= spec_be4(word));
    assert(buf[5] == spec_be4(word)[0]);
    crate::u31::lemma_be4_round_trip(word);
    lemma_word_split(word);
    assert(word % 0x8000_0000 == sid) by (nonlinear_arith)
        requires
            sid < 0x8000_0000,
            word == sid + (if f.reserved {
                0x8000_0000u32
            } else {
                0u32
            }),
    ;
    assert(buf.subrange(9, 9 + lval) =~= pw);
    crate::payload::lemma_payload_wire_round_trip(f.payload, f.flags, f.frame_type, f.payload);
    if spec_frame_parse_ok(buf, f2, c) {
        crate::payload::lemma_payload_wire_round_trip(f.payload, f.flags, f.frame_type, f2.payload);
    }
}


/// A parsed frame is well formed and serializes back to exactly the
/// bytes it came from, provided the buffer holds one whole frame of a
/// defined type and the stream-id bits that parsing discards are clear.
/// (law)
#[verifier::rlimit(100)]
pub proof fn lemma_frame_parse_encode(buf: Seq<u8>, f: Frame, c: nat)
    requires
        spec_frame_parse_err(buf) == None::<FrameParseError>,
        spec_frame_parse_ok(buf, f, c),
        c == buf.len(),
        spec_type_of_byte(buf[3]) != FrameType::Unknown,
        spec_type_of_byte(buf[3]) matches FrameType::GoAway ==> buf[9] < 128,
        spec_type_of_byte(buf[3]) matches FrameType::PushPromise ==> buf[9 + (
        if crate::flags::spec_has_flag(buf[4], crate::flags::PUSH_PROMISE_PADDED) {
            1int
        } else {
            0int
        })] < 128,
    ensures
        f.wf(),
        f.spec_wire() =~= buf,
{
    let length = spec_from_be3(buf.subrange(0, 3));
    let pv = buf.subrange(9, 9 + length);
    crate::payload::lemma_payload_parse_encode(pv, buf[4], f.frame_type, f.payload);
    crate::u24::lemma_be3_of_bytes(buf.subrange(0, 3));
    assert(f.payload.spec_wire().len() == length);
    assert(spec_type_byte(spec_type_of_byte(buf[3])) == buf[3]);
    let raw = spec_from_be4(buf.subrange(5, 9));
    assert(buf.subrange(5, 9)[0] == buf[5]);
    assert(buf[5] >= 128 <==> raw >= 0x8000_0000) by (nonlinear_arith)
        requires
            raw == buf[5int] * 0x100_0000 + buf[6int] * 0x10000 + buf[7int] * 0x100 + buf[8int],
            buf[5int] < 0x100,
            buf[6int] < 0x100,
            buf[7int] < 0x100,
            buf[8int] < 0x100,
    ;
    let word: u32 = (f.stream_id.spec_value() + if f.reserved {
        0x8000_0000u32
    } else {
        0u32
    }) as u32;
    assert(word == raw) by (nonlinear_arith)
        requires
            f.stream_id.spec_value() == raw % 0x8000_0000,
            f.reserved <==> raw >= 0x8000_0000,
            word == raw % 0x8000_0000 + (if raw >= 0x8000_0000 {
                0x8000_0000u32
            } else {
                0u32
            }),
    ;
    crate::wire::lemma_be32_of_bytes(buf.subrange(5, 9));
    assert(f.spec_wire() =~= buf);
}

} // verus!
