//! The nine HTTP/2 payload codecs, plus an opaque form for unknown
//! frame types (RFC 9113 section 6).
use vstd::prelude::*;

use crate::flags::{
    has_flag, spec_has_flag, DATA_PADDED, HEADERS_PADDED, HEADERS_PRIORITY, SETTINGS_ACK,
    PUSH_PROMISE_PADDED,
};
use crate::hpack::Hpack;
use crate::u31::{spec_be4, spec_from_be4, u31};
use crate::wire::{
    copy_range, push_be16, push_be32, push_be64, read_be16, read_be32, read_be64, spec_be16,
    spec_be32, spec_be64, spec_from_be16, spec_from_be32, spec_from_be64, Len,
};

verus! {

#[derive(Debug, Clone, Copy, PartialEq, Eq)]
pub enum FromBytesError {
    /// The buffer is shorter than the payload requires, or a declared
    /// length overruns it.
    InvalidLength,
    /// A flag combination the payload cannot carry.
    InvalidFlag,
    /// A frame type byte outside the defined types, under strict
    /// handling.
    InvalidPayloadType,
}

/// The serialized form of an optional pad-length byte.
pub open spec fn spec_opt_byte(o: Option<u8>) -> Seq<u8> {
    match o {
        Some(b) => seq![b],
        None => Seq::empty(),
    }
}

/// The serialized form of optional padding.
pub open spec fn spec_opt_bytes(o: Option<Vec<u8>>) -> Seq<u8> {
    match o {
        Some(b) => b@,
        None => Seq::empty(),
    }
}

/// Payloads that parse from a byte buffer under a flag byte.
///
/// `parse_err` names the error the buffer forces, if any; `parse_ok`
/// pins every field of a successful parse.
pub trait FromBytes: Sized {
    /// The error this buffer and flag byte force, if any.
    spec fn parse_err(v: Seq<u8>, flags: u8) -> Option<FromBytesError>;

    /// The exact relation between the buffer and a parsed value.
    spec fn parse_ok(v: Seq<u8>, flags: u8, p: Self) -> bool;

    /// Parses the buffer.
    fn from(value: Vec<u8>, flags: u8) -> (r: Result<Self, FromBytesError>)
        ensures
            match r {
                Ok(p) => Self::parse_err(value@, flags) == None::<FromBytesError> && Self::parse_ok(
                    value@,
                    flags,
                    p,
                ),
                Err(e) => Self::parse_err(value@, flags) == Some(e),
            },
    ;
}

/// Priority: five fixed bytes carrying an exclusive bit, a stream
/// dependency and a weight.
#[derive(Debug, Clone)]
pub struct PriorityPayload {
    pub exclusive_flag: bool,
    pub stream_dependency: u31,
    pub weight: u8,
}

impl PriorityPayload {
    pub open spec fn wf(self) -> bool {
        self.stream_dependency.wf()
    }

    /// The wire form: dependency with the exclusive bit on top, then the
    /// weight.
    pub open spec fn spec_wire(self) -> Seq<u8> {
        spec_be4(
            (self.stream_dependency.spec_value() + if self.exclusive_flag {
                0x8000_0000u32
            } else {
                0u32
            }) as u32,
        ) + seq![self.weight]
    }

    pub fn to_bytes(&self) -> (r: Vec<u8>)
        requires
            self.wf(),
        ensures
            r@ =~= self.spec_wire(),
    {
        let mut out: Vec<u8> = Vec::new();
        let dep = self.stream_dependency.to_u32();
        let word: u32 = if self.exclusive_flag {
            dep + 0x8000_0000
        } else {
            dep
        };
        push_be32(&mut out, word);
        out.push(self.weight);
        out
    }
}

impl FromBytes for PriorityPayload {
    open spec fn parse_err(v: Seq<u8>, flags: u8) -> Option<FromBytesError> {
        if v.len() != 5 {
            Some(FromBytesError::InvalidLength)
        } else {
            None
        }
    }

    open spec fn parse_ok(v: Seq<u8>, flags: u8, p: Self) -> bool {
        &&& p.exclusive_flag == (v[0] >= 128)
        &&& p.stream_dependency.spec_value() == spec_from_be4(v.subrange(0, 4)) % 0x8000_0000
        &&& p.stream_dependency.wf()
        &&& p.weight == v[4]
    }

    fn from(value: Vec<u8>, flags: u8) -> (r: Result<Self, FromBytesError>) {
        if value.len() != 5 {
            return Err(FromBytesError::InvalidLength);
        }
        let raw = read_be32(value.as_slice(), 0);
        Ok(
            PriorityPayload {
                exclusive_flag: value[0] >= 128,
                stream_dependency: u31::new(raw),
                weight: value[4],
            },
        )
    }
}

impl Len for PriorityPayload {
    open spec fn spec_len(&self) -> nat {
        self.spec_wire().len()
    }

    open spec fn len_ok(&self) -> bool {
        true
    }

    fn binary_len(&self) -> (r: usize) {
        5
    }
}

/// RstStream: a single error code.
#[derive(Debug, Clone)]
pub struct RstStreamPayload {
    pub error_code: u32,
}

impl RstStreamPayload {
    pub open spec fn wf(self) -> bool {
        true
    }

    pub open spec fn spec_wire(self) -> Seq<u8> {
        spec_be32(self.error_code)
    }

    pub fn to_bytes(&self) -> (r: Vec<u8>)
        ensures
            r@ =~= self.spec_wire(),
    {
        let mut out: Vec<u8> = Vec::new();
        push_be32(&mut out, self.error_code);
        out
    }
}

impl FromBytes for RstStreamPayload {
    open spec fn parse_err(v: Seq<u8>, flags: u8) -> Option<FromBytesError> {
        if v.len() != 4 {
            Some(FromBytesError::InvalidLength)
        } else {
            None
        }
    }

    open spec fn parse_ok(v: Seq<u8>, flags: u8, p: Self) -> bool {
        p.error_code == spec_from_be32(v)
    }

    fn from(value: Vec<u8>, flags: u8) -> (r: Result<Self, FromBytesError>) {
        if value.len() != 4 {
            return Err(FromBytesError::InvalidLength);
        }
        let code = read_be32(value.as_slice(), 0);
        proof {
            assert(value@.subrange(0, 4) =~= value@);
        }
        Ok(RstStreamPayload { error_code: code })
    }
}

impl Len for RstStreamPayload {
    open spec fn spec_len(&self) -> nat {
        self.spec_wire().len()
    }

    open spec fn len_ok(&self) -> bool {
        true
    }

    fn binary_len(&self) -> (r: usize) {
        4
    }
}

/// Ping: eight opaque bytes.
#[derive(Debug, Clone)]
pub struct PingPayload {
    pub opaque_data: u64,
}

impl PingPayload {
    pub open spec fn wf(self) -> bool {
        true
    }

    pub open spec fn spec_wire(self) -> Seq<u8> {
        spec_be64(self.opaque_data)
    }

    pub fn to_bytes(&self) -> (r: Vec<u8>)
        ensures
            r@ =~= self.spec_wire(),
    {
        let mut out: Vec<u8> = Vec::new();
        push_be64(&mut out, self.opaque_data);
        out
    }
}

impl FromBytes for PingPayload {
    open spec fn parse_err(v: Seq<u8>, flags: u8) -> Option<FromBytesError> {
        if v.len() != 8 {
            Some(FromBytesError::InvalidLength)
        } else {
            None
        }
    }

    open spec fn parse_ok(v: Seq<u8>, flags: u8, p: Self) -> bool {
        p.opaque_data == spec_from_be64(v)
    }

    fn from(value: Vec<u8>, flags: u8) -> (r: Result<Self, FromBytesError>) {
        if value.len() != 8 {
            return Err(FromBytesError::InvalidLength);
        }
        let data = read_be64(value.as_slice(), 0);
        proof {
            assert(value@.subrange(0, 8) =~= value@);
        }
        Ok(PingPayload { opaque_data: data })
    }
}

impl Len for PingPayload {
    open spec fn spec_len(&self) -> nat {
        self.spec_wire().len()
    }

    open spec fn len_ok(&self) -> bool {
        true
    }

    fn binary_len(&self) -> (r: usize) {
        8
    }
}

/// WindowUpdate: a 32-bit increment whose high bit is reserved.
#[derive(Debug, Clone)]
pub struct WindowUpdatePayload {
    pub window_size_increment: u32,
}

impl WindowUpdatePayload {
    pub open spec fn wf(self) -> bool {
        true
    }

    pub open spec fn spec_wire(self) -> Seq<u8> {
        spec_be32(self.window_size_increment)
    }

    pub fn to_bytes(&self) -> (r: Vec<u8>)
        ensures
            r@ =~= self.spec_wire(),
    {
        let mut out: Vec<u8> = Vec::new();
        push_be32(&mut out, self.window_size_increment);
        out
    }
}

impl FromBytes for WindowUpdatePayload {
    open spec fn parse_err(v: Seq<u8>, flags: u8) -> Option<FromBytesError> {
        if v.len() != 4 {
            Some(FromBytesError::InvalidLength)
        } else {
            None
        }
    }

    open spec fn parse_ok(v: Seq<u8>, flags: u8, p: Self) -> bool {
        p.window_size_increment == spec_from_be32(v)
    }

    fn from(value: Vec<u8>, flags: u8) -> (r: Result<Self, FromBytesError>) {
        if value.len() != 4 {
            return Err(FromBytesError::InvalidLength);
        }
        let inc = read_be32(value.as_slice(), 0);
        proof {
            assert(value@.subrange(0, 4) =~= value@);
        }
        Ok(WindowUpdatePayload { window_size_increment: inc })
    }
}

impl Len for WindowUpdatePayload {
    open spec fn spec_len(&self) -> nat {
        self.spec_wire().len()
    }

    open spec fn len_ok(&self) -> bool {
        true
    }

    fn binary_len(&self) -> (r: usize) {
        4
    }
}

/// GoAway: the last processed stream id, an error code, and free-form
/// debug data.
#[derive(Debug, Clone)]
pub struct GoAwayPayload {
    pub last_stream_id: u31,
    pub error_code: u32,
    pub additional_data: Vec<u8>,
}

impl GoAwayPayload {
    pub open spec fn wf(self) -> bool {
        self.last_stream_id.wf()
    }

    pub open spec fn spec_wire(self) -> Seq<u8> {
        spec_be4(self.last_stream_id.spec_value()) + spec_be32(self.error_code)
            + self.additional_data@
    }

    pub fn to_bytes(&self) -> (r: Vec<u8>)
        requires
            self.wf(),
        ensures
            r@ =~= self.spec_wire(),
    {
        let mut out: Vec<u8> = Vec::new();
        push_be32(&mut out, self.last_stream_id.to_u32());
        push_be32(&mut out, self.error_code);
        let mut k: usize = 0;
        let ghost head = out@;
        while k < self.additional_data.len()
            invariant
                k <= self.additional_data@.len(),
                out@ =~= head + self.additional_data@.subrange(0, k as int),
            decreases self.additional_data@.len() - k,
        {
            out.push(self.additional_data[k]);
            k = k + 1;
        }
        proof {
            assert(self.additional_data@.subrange(0, self.additional_data@.len() as int)
                =~= self.additional_data@);
        }
        out
    }
}

impl FromBytes for GoAwayPayload {
    open spec fn parse_err(v: Seq<u8>, flags: u8) -> Option<FromBytesError> {
        if v.len() < 8 {
            Some(FromBytesError::InvalidLength)
        } else {
            None
        }
    }

    open spec fn parse_ok(v: Seq<u8>, flags: u8, p: Self) -> bool {
        &&& p.last_stream_id.spec_value() == spec_from_be4(v.subrange(0, 4)) % 0x8000_0000
        &&& p.last_stream_id.wf()
        &&& p.error_code == spec_from_be32(v.subrange(4, 8))
        &&& p.additional_data@ == v.skip(8)
    }

    fn from(value: Vec<u8>, flags: u8) -> (r: Result<Self, FromBytesError>) {
        if value.len() < 8 {
            return Err(FromBytesError::InvalidLength);
        }
        let raw = read_be32(value.as_slice(), 0);
        let code = read_be32(value.as_slice(), 4);
        let data = copy_range(value.as_slice(), 8, value.len());
        proof {
            assert(data@ =~= value@.skip(8));
        }
        Ok(GoAwayPayload { last_stream_id: u31::new(raw), error_code: code, additional_data: data })
    }
}

impl Len for GoAwayPayload {
    open spec fn spec_len(&self) -> nat {
        self.spec_wire().len()
    }

    open spec fn len_ok(&self) -> bool {
        self.additional_data@.len() + 8 <= usize::MAX
    }

    fn binary_len(&self) -> (r: usize) {
        8 + self.additional_data.len()
    }
}

/// Continuation: a header block fragment and nothing else.
#[derive(Debug, Clone)]
pub struct ContinuationPayload {
    pub header_block_fragment: Hpack,
}

impl ContinuationPayload {
    pub open spec fn wf(self) -> bool {
        true
    }

    pub open spec fn spec_wire(self) -> Seq<u8> {
        self.header_block_fragment.bytes()
    }

    pub fn to_bytes(&self) -> (r: Vec<u8>)
        ensures
            r@ =~= self.spec_wire(),
    {
        self.header_block_fragment.to_vec()
    }
}

impl FromBytes for ContinuationPayload {
    open spec fn parse_err(v: Seq<u8>, flags: u8) -> Option<FromBytesError> {
        None
    }

    open spec fn parse_ok(v: Seq<u8>, flags: u8, p: Self) -> bool {
        p.header_block_fragment.bytes() == v
    }

    fn from(value: Vec<u8>, flags: u8) -> (r: Result<Self, FromBytesError>) {
        Ok(ContinuationPayload { header_block_fragment: Hpack::from_bytes(value) })
    }
}

impl Len for ContinuationPayload {
    open spec fn spec_len(&self) -> nat {
        self.spec_wire().len()
    }

    open spec fn len_ok(&self) -> bool {
        true
    }

    fn binary_len(&self) -> (r: usize) {
        self.header_block_fragment.encoded_size()
    }
}


/// The wire form of a settings list: one six-byte pair per entry.
pub open spec fn spec_settings_wire(entries: Seq<(u16, u32)>) -> Seq<u8>
    decreases entries.len(),
{
    if entries.len() == 0 {
        Seq::empty()
    } else {
        spec_settings_wire(entries.drop_last()) + spec_be16(entries.last().0) + spec_be32(
            entries.last().1,
        )
    }
}

pub proof fn lemma_settings_wire_len(entries: Seq<(u16, u32)>)
    ensures
        spec_settings_wire(entries).len() == 6 * entries.len(),
    decreases entries.len(),
{
    if entries.len() > 0 {
        lemma_settings_wire_len(entries.drop_last());
    }
}

/// Settings: an ordered list of `(identifier, value)` pairs.  The ACK
/// flag means the frame carries none.
#[derive(Debug, Clone)]
pub struct SettingsPayload {
    pub settings: Vec<(u16, u32)>,
}

impl SettingsPayload {
    pub open spec fn wf(self) -> bool {
        true
    }

    pub open spec fn spec_wire(self) -> Seq<u8> {
        spec_settings_wire(self.settings@)
    }

    pub fn to_bytes(&self) -> (r: Vec<u8>)
        ensures
            r@ =~= self.spec_wire(),
    {
        let mut out: Vec<u8> = Vec::new();
        let mut k: usize = 0;
        proof {
            assert(self.settings@.subrange(0, 0) =~= Seq::<(u16, u32)>::empty());
        }
        while k < self.settings.len()
            invariant
                k <= self.settings@.len(),
                out@ =~= spec_settings_wire(self.settings@.subrange(0, k as int)),
            decreases self.settings@.len() - k,
        {
            let (id, val) = self.settings[k];
            push_be16(&mut out, id);
            push_be32(&mut out, val);
            proof {
                let sub1 = self.settings@.subrange(0, k + 1);
                assert(sub1.drop_last() =~= self.settings@.subrange(0, k as int));
                assert(sub1.last() == self.settings@[k as int]);
            }
            k = k + 1;
        }
        proof {
            assert(self.settings@.subrange(0, self.settings@.len() as int) =~= self.settings@);
        }
        out
    }
}

impl FromBytes for SettingsPayload {
    open spec fn parse_err(v: Seq<u8>, flags: u8) -> Option<FromBytesError> {
        if spec_has_flag(flags, SETTINGS_ACK) {
            if v.len() != 0 {
                Some(FromBytesError::InvalidLength)
            } else {
                None
            }
        } else if v.len() % 6 != 0 {
            Some(FromBytesError::InvalidLength)
        } else {
            None
        }
    }

    open spec fn parse_ok(v: Seq<u8>, flags: u8, p: Self) -> bool {
        &&& p.settings@.len() == v.len() / 6
        &&& forall|k: int|
            0 <= k < p.settings@.len() ==> (#[trigger] p.settings@[k]).0 == spec_from_be16(
                v.subrange(6 * k, 6 * k + 2),
            ) && p.settings@[k].1 == spec_from_be32(v.subrange(6 * k + 2, 6 * k + 6))
    }

    fn from(value: Vec<u8>, flags: u8) -> (r: Result<Self, FromBytesError>) {
        if has_flag(flags, SETTINGS_ACK) {
            if value.len() != 0 {
                return Err(FromBytesError::InvalidLength);
            }
            return Ok(SettingsPayload { settings: Vec::new() });
        }
        if value.len() % 6 != 0 {
            return Err(FromBytesError::InvalidLength);
        }
        let n = value.len() / 6;
        let mut settings: Vec<(u16, u32)> = Vec::new();
        let mut k: usize = 0;
        while k < n
            invariant
                k <= n,
                n == value@.len() / 6,
                value@.len() % 6 == 0,
                settings@.len() == k,
                forall|t: int|
                    0 <= t < k ==> (#[trigger] settings@[t]).0 == spec_from_be16(
                        value@.subrange(6 * t, 6 * t + 2),
                    ) && settings@[t].1 == spec_from_be32(value@.subrange(6 * t + 2, 6 * t + 6)),
            decreases n - k,
        {
            let id = read_be16(value.as_slice(), 6 * k);
            let val = read_be32(value.as_slice(), 6 * k + 2);
            settings.push((id, val));
            k = k + 1;
        }
        Ok(SettingsPayload { settings })
    }
}

impl Len for SettingsPayload {
    open spec fn spec_len(&self) -> nat {
        self.spec_wire().len()
    }

    open spec fn len_ok(&self) -> bool {
        self.settings@.len() * 6 <= usize::MAX
    }

    fn binary_len(&self) -> (r: usize) {
        proof {
            lemma_settings_wire_len(self.settings@);
        }
        self.settings.len() * 6
    }
}

/// Data: opaque bytes, optionally surrounded by a pad length byte and
/// trailing padding.
#[derive(Debug, Clone)]
pub struct DataPayload {
    pub pad_length: Option<u8>,
    pub data: Vec<u8>,
    pub padding: Option<Vec<u8>>,
}

impl DataPayload {
    /// Padding travels exactly when a pad length does, and has that
    /// length.
    pub open spec fn wf(self) -> bool {
        match (self.pad_length, self.padding) {
            (Some(l), Some(p)) => p@.len() == l,
            (None, None) => true,
            _ => false,
        }
    }

    pub open spec fn spec_wire(self) -> Seq<u8> {
        spec_opt_byte(self.pad_length) + self.data@ + spec_opt_bytes(self.padding)
    }

    pub fn to_bytes(&self) -> (r: Vec<u8>)
        ensures
            r@ =~= self.spec_wire(),
    {
        let mut out: Vec<u8> = Vec::new();
        if let Some(l) = self.pad_length {
            out.push(l);
        }
        let mut k: usize = 0;
        let ghost head = out@;
        while k < self.data.len()
            invariant
                k <= self.data@.len(),
                out@ =~= head + self.data@.subrange(0, k as int),
            decreases self.data@.len() - k,
        {
            out.push(self.data[k]);
            k = k + 1;
        }
        proof {
            assert(self.data@.subrange(0, self.data@.len() as int) =~= self.data@);
        }
        if let Some(p) = &self.padding {
            let mut k2: usize = 0;
            let ghost head2 = out@;
            while k2 < p.len()
                invariant
                    k2 <= p@.len(),
                    out@ =~= head2 + p@.subrange(0, k2 as int),
                decreases p@.len() - k2,
            {
                out.push(p[k2]);
                k2 = k2 + 1;
            }
            proof {
                assert(p@.subrange(0, p@.len() as int) =~= p@);
            }
        }
        out
    }
}

impl FromBytes for DataPayload {
    open spec fn parse_err(v: Seq<u8>, flags: u8) -> Option<FromBytesError> {
        if spec_has_flag(flags, DATA_PADDED) {
            if v.len() < 1 {
                Some(FromBytesError::InvalidLength)
            } else if v[0] + 1 > v.len() {
                Some(FromBytesError::InvalidLength)
            } else {
                None
            }
        } else {
            None
        }
    }

    open spec fn parse_ok(v: Seq<u8>, flags: u8, p: Self) -> bool {
        if spec_has_flag(flags, DATA_PADDED) {
            &&& p.pad_length == Some(v[0])
            &&& p.data@ == v.subrange(1, v.len() - v[0])
            &&& match p.padding {
                Some(q) => q@ == v.subrange(v.len() - v[0], v.len() as int),
                None => false,
            }
        } else {
            &&& p.pad_length == None::<u8>
            &&& p.data@ == v
            &&& p.padding == None::<Vec<u8>>
        }
    }

    fn from(value: Vec<u8>, flags: u8) -> (r: Result<Self, FromBytesError>) {
        if has_flag(flags, DATA_PADDED) {
            if value.len() < 1 {
                return Err(FromBytesError::InvalidLength);
            }
            let pad = value[0] as usize;
            if pad + 1 > value.len() {
                return Err(FromBytesError::InvalidLength);
            }
            let data = copy_range(value.as_slice(), 1, value.len() - pad);
            let padding = copy_range(value.as_slice(), value.len() - pad, value.len());
            Ok(
                DataPayload {
                    pad_length: Some(value[0]),
                    data,
                    padding: Some(padding),
                },
            )
        } else {
            Ok(DataPayload { pad_length: None, data: value, padding: None })
        }
    }
}

impl Len for DataPayload {
    open spec fn spec_len(&self) -> nat {
        self.spec_wire().len()
    }

    open spec fn len_ok(&self) -> bool {
        self.wf() && self.spec_wire().len() <= usize::MAX
    }

    fn binary_len(&self) -> (r: usize) {
        match self.pad_length {
            Some(l) => 1 + (l as usize) + self.data.len(),
            None => self.data.len(),
        }
    }
}

/// Headers: an optional pad length, an optional priority field, a header
/// block fragment, and optional padding.
#[derive(Debug, Clone)]
pub struct HeadersPayload {
    pub pad_length: Option<u8>,
    pub priority: Option<PriorityPayload>,
    pub header_block_fragment: Hpack,
    pub padding: Option<Vec<u8>>,
}

impl HeadersPayload {
    pub open spec fn wf(self) -> bool {
        &&& match (self.pad_length, self.padding) {
            (Some(l), Some(p)) => p@.len() == l,
            (None, None) => true,
            _ => false,
        }
        &&& match self.priority {
            Some(p) => p.wf(),
            None => true,
        }
    }

    pub open spec fn spec_wire(self) -> Seq<u8> {
        spec_opt_byte(self.pad_length) + (match self.priority {
            Some(p) => p.spec_wire(),
            None => Seq::empty(),
        }) + self.header_block_fragment.bytes() + spec_opt_bytes(self.padding)
    }

    pub fn to_bytes(&self) -> (r: Vec<u8>)
        requires
            self.wf(),
        ensures
            r@ =~= self.spec_wire(),
    {
        let mut out: Vec<u8> = Vec::new();
        if let Some(l) = self.pad_length {
            out.push(l);
        }
        if let Some(p) = &self.priority {
            let mut pb = p.to_bytes();
            out.append(&mut pb);
        }
        let mut hb = self.header_block_fragment.to_vec();
        out.append(&mut hb);
        if let Some(p) = &self.padding {
            let mut k2: usize = 0;
            let ghost head2 = out@;
            while k2 < p.len()
                invariant
                    k2 <= p@.len(),
                    out@ =~= head2 + p@.subrange(0, k2 as int),
                decreases p@.len() - k2,
            {
                out.push(p[k2]);
                k2 = k2 + 1;
            }
            proof {
                assert(p@.subrange(0, p@.len() as int) =~= p@);
            }
        }
        proof {
            assert(out@ =~= self.spec_wire());
        }
        out
    }
}

impl FromBytes for HeadersPayload {
    open spec fn parse_err(v: Seq<u8>, flags: u8) -> Option<FromBytesError> {
        let off0: int = if spec_has_flag(flags, HEADERS_PADDED) {
            1
        } else {
            0
        };
        let pad: int = if spec_has_flag(flags, HEADERS_PADDED) {
            if v.len() >= 1 {
                v[0] as int
            } else {
                0
            }
        } else {
            0
        };
        if v.len() < off0 {
            Some(FromBytesError::InvalidLength)
        } else if off0 + pad > v.len() {
            Some(FromBytesError::InvalidLength)
        } else if spec_has_flag(flags, HEADERS_PRIORITY) && off0 + 5 + pad > v.len() {
            Some(FromBytesError::InvalidLength)
        } else {
            None
        }
    }

    open spec fn parse_ok(v: Seq<u8>, flags: u8, p: Self) -> bool {
        let off0: int = if spec_has_flag(flags, HEADERS_PADDED) {
            1
        } else {
            0
        };
        let pad: int = if spec_has_flag(flags, HEADERS_PADDED) {
            v[0] as int
        } else {
            0
        };
        let off: int = off0 + if spec_has_flag(flags, HEADERS_PRIORITY) {
            5int
        } else {
            0int
        };
        let end: int = v.len() - pad;
        &&& p.pad_length == (if spec_has_flag(flags, HEADERS_PADDED) {
            Some(v[0])
        } else {
            None::<u8>
        })
        &&& match p.priority {
            Some(pp) => spec_has_flag(flags, HEADERS_PRIORITY) && PriorityPayload::parse_ok(
                v.subrange(off0, off0 + 5),
                flags,
                pp,
            ),
            None => !spec_has_flag(flags, HEADERS_PRIORITY),
        }
        &&& p.header_block_fragment.bytes() == v.subrange(off, end)
        &&& match p.padding {
            Some(q) => spec_has_flag(flags, HEADERS_PADDED) && q@ == v.subrange(
                end,
                v.len() as int,
            ),
            None => !spec_has_flag(flags, HEADERS_PADDED),
        }
    }

    fn from(value: Vec<u8>, flags: u8) -> (r: Result<Self, FromBytesError>) {
        let padded = has_flag(flags, HEADERS_PADDED);
        let prioritized = has_flag(flags, HEADERS_PRIORITY);
        let off0: usize = if padded {
            1
        } else {
            0
        };
        if value.len() < off0 {
            return Err(FromBytesError::InvalidLength);
        }
        let pad: usize = if padded {
            value[0] as usize
        } else {
            0
        };
        if pad > value.len() - off0 {
            return Err(FromBytesError::InvalidLength);
        }
        let end = value.len() - pad;
        if prioritized && end - off0 < 5 {
            return Err(FromBytesError::InvalidLength);
        }
        let priority = if prioritized {
            let pv = copy_range(value.as_slice(), off0, off0 + 5);
            match <PriorityPayload as FromBytes>::from(pv, flags) {
                Ok(p) => Some(p),
                Err(e) => {
                    return Err(e);
                },
            }
        } else {
            None
        };
        let off = if prioritized {
            off0 + 5
        } else {
            off0
        };
        let block = copy_range(value.as_slice(), off, end);
        let padding = if padded {
            Some(copy_range(value.as_slice(), end, value.len()))
        } else {
            None
        };
        Ok(
            HeadersPayload {
                pad_length: if padded {
                    Some(value[0])
                } else {
                    None
                },
                priority,
                header_block_fragment: Hpack::from_bytes(block),
                padding,
            },
        )
    }
}

impl Len for HeadersPayload {
    open spec fn spec_len(&self) -> nat {
        self.spec_wire().len()
    }

    open spec fn len_ok(&self) -> bool {
        self.wf() && self.spec_wire().len() <= usize::MAX
    }

    fn binary_len(&self) -> (r: usize) {
        let mut result: usize = self.header_block_fragment.encoded_size();
        if let Some(l) = self.pad_length {
            result = result + 1 + (l as usize);
        }
        if self.priority.is_some() {
            result = result + 5;
        }
        result
    }
}

/// PushPromise: an optional pad length, the promised stream id, a header
/// block fragment, and optional padding.
#[derive(Debug, Clone)]
pub struct PushPromisePayload {
    pub pad_length: Option<u8>,
    pub promised_stream_id: u31,
    pub header_block_fragment: Hpack,
    pub padding: Option<Vec<u8>>,
}

impl PushPromisePayload {
    pub open spec fn wf(self) -> bool {
        &&& match (self.pad_length, self.padding) {
            (Some(l), Some(p)) => p@.len() == l,
            (None, None) => true,
            _ => false,
        }
        &&& self.promised_stream_id.wf()
    }

    pub open spec fn spec_wire(self) -> Seq<u8> {
        spec_opt_byte(self.pad_length) + spec_be4(self.promised_stream_id.spec_value())
            + self.header_block_fragment.bytes() + spec_opt_bytes(self.padding)
    }

    pub fn to_bytes(&self) -> (r: Vec<u8>)
        requires
            self.wf(),
        ensures
            r@ =~= self.spec_wire(),
    {
        let mut out: Vec<u8> = Vec::new();
        if let Some(l) = self.pad_length {
            out.push(l);
        }
        push_be32(&mut out, self.promised_stream_id.to_u32());
        let mut hb = self.header_block_fragment.to_vec();
        out.append(&mut hb);
        if let Some(p) = &self.padding {
            let mut k2: usize = 0;
            let ghost head2 = out@;
            while k2 < p.len()
                invariant
                    k2 <= p@.len(),
                    out@ =~= head2 + p@.subrange(0, k2 as int),
                decreases p@.len() - k2,
            {
                out.push(p[k2]);
                k2 = k2 + 1;
            }
            proof {
                assert(p@.subrange(0, p@.len() as int) =~= p@);
            }
        }
        proof {
            assert(out@ =~= self.spec_wire());
        }
        out
    }
}

impl FromBytes for PushPromisePayload {
    open spec fn parse_err(v: Seq<u8>, flags: u8) -> Option<FromBytesError> {
        let off0: int = if spec_has_flag(flags, PUSH_PROMISE_PADDED) {
            1
        } else {
            0
        };
        let pad: int = if spec_has_flag(flags, PUSH_PROMISE_PADDED) {
            if v.len() >= 1 {
                v[0] as int
            } else {
                0
            }
        } else {
            0
        };
        if v.len() < off0 {
            Some(FromBytesError::InvalidLength)
        } else if off0 + pad > v.len() {
            Some(FromBytesError::InvalidLength)
        } else if off0 + 4 + pad > v.len() {
            Some(FromBytesError::InvalidLength)
        } else {
            None
        }
    }

    open spec fn parse_ok(v: Seq<u8>, flags: u8, p: Self) -> bool {
        let off0: int = if spec_has_flag(flags, PUSH_PROMISE_PADDED) {
            1
        } else {
            0
        };
        let pad: int = if spec_has_flag(flags, PUSH_PROMISE_PADDED) {
            v[0] as int
        } else {
            0
        };
        let end: int = v.len() - pad;
        &&& p.pad_length == (if spec_has_flag(flags, PUSH_PROMISE_PADDED) {
            Some(v[0])
        } else {
            None::<u8>
        })
        &&& p.promised_stream_id.spec_value() == spec_from_be4(v.subrange(off0, off0 + 4))
            % 0x8000_0000
        &&& p.promised_stream_id.wf()
        &&& p.header_block_fragment.bytes() == v.subrange(off0 + 4, end)
        &&& match p.padding {
            Some(q) => spec_has_flag(flags, PUSH_PROMISE_PADDED) && q@ == v.subrange(
                end,
                v.len() as int,
            ),
            None => !spec_has_flag(flags, PUSH_PROMISE_PADDED),
        }
    }

    fn from(value: Vec<u8>, flags: u8) -> (r: Result<Self, FromBytesError>) {
        let padded = has_flag(flags, PUSH_PROMISE_PADDED);
        let off0: usize = if padded {
            1
        } else {
            0
        };
        if value.len() < off0 {
            return Err(FromBytesError::InvalidLength);
        }
        let pad: usize = if padded {
            value[0] as usize
        } else {
            0
        };
        if pad > value.len() - off0 {
            return Err(FromBytesError::InvalidLength);
        }
        let end = value.len() - pad;
        if end - off0 < 4 {
            return Err(FromBytesError::InvalidLength);
        }
        let raw = read_be32(value.as_slice(), off0);
        let block = copy_range(value.as_slice(), off0 + 4, end);
        let padding = if padded {
            Some(copy_range(value.as_slice(), end, value.len()))
        } else {
            None
        };
        Ok(
            PushPromisePayload {
                pad_length: if padded {
                    Some(value[0])
                } else {
                    None
                },
                promised_stream_id: u31::new(raw),
                header_block_fragment: Hpack::from_bytes(block),
                padding,
            },
        )
    }
}

impl Len for PushPromisePayload {
    open spec fn spec_len(&self) -> nat {
        self.spec_wire().len()
    }

    open spec fn len_ok(&self) -> bool {
        self.wf() && self.spec_wire().len() <= usize::MAX
    }

    fn binary_len(&self) -> (r: usize) {
        let mut result: usize = 4 + self.header_block_fragment.encoded_size();
        if let Some(l) = self.pad_length {
            result = result + 1 + (l as usize);
        }
        result
    }
}


/// A tagged payload: one variant per defined frame type, and an opaque
/// one that preserves the bytes of unknown frame types.
#[derive(Debug, Clone)]
pub enum Payload {
    Data(DataPayload),
    Headers(HeadersPayload),
    Priority(PriorityPayload),
    RstStream(RstStreamPayload),
    Settings(SettingsPayload),
    PushPromise(PushPromisePayload),
    Ping(PingPayload),
    GoAway(GoAwayPayload),
    WindowUpdate(WindowUpdatePayload),
    Continuation(ContinuationPayload),
    Unknown(Vec<u8>),
}

/// The error a payload buffer forces for the given frame type, if any.
pub open spec fn spec_payload_parse_err(
    v: Seq<u8>,
    flags: u8,
    t: crate::frame::FrameType,
) -> Option<FromBytesError> {
    match t {
        crate::frame::FrameType::Data => DataPayload::parse_err(v, flags),
        crate::frame::FrameType::Headers => HeadersPayload::parse_err(v, flags),
        crate::frame::FrameType::Priority => PriorityPayload::parse_err(v, flags),
        crate::frame::FrameType::RstStream => RstStreamPayload::parse_err(v, flags),
        crate::frame::FrameType::Settings => SettingsPayload::parse_err(v, flags),
        crate::frame::FrameType::PushPromise => PushPromisePayload::parse_err(v, flags),
        crate::frame::FrameType::Ping => PingPayload::parse_err(v, flags),
        crate::frame::FrameType::GoAway => GoAwayPayload::parse_err(v, flags),
        crate::frame::FrameType::WindowUpdate => WindowUpdatePayload::parse_err(v, flags),
        crate::frame::FrameType::Continuation => ContinuationPayload::parse_err(v, flags),
        crate::frame::FrameType::Unknown => None,
    }
}

/// The exact relation between a payload buffer and a parsed payload.
pub open spec fn spec_payload_parse_ok(
    v: Seq<u8>,
    flags: u8,
    t: crate::frame::FrameType,
    p: Payload,
) -> bool {
    match (t, p) {
        (crate::frame::FrameType::Data, Payload::Data(d)) => DataPayload::parse_ok(v, flags, d),
        (crate::frame::FrameType::Headers, Payload::Headers(d)) => HeadersPayload::parse_ok(
            v,
            flags,
            d,
        ),
        (crate::frame::FrameType::Priority, Payload::Priority(d)) => PriorityPayload::parse_ok(
            v,
            flags,
            d,
        ),
        (crate::frame::FrameType::RstStream, Payload::RstStream(d)) => RstStreamPayload::parse_ok(
            v,
            flags,
            d,
        ),
        (crate::frame::FrameType::Settings, Payload::Settings(d)) => SettingsPayload::parse_ok(
            v,
            flags,
            d,
        ),
        (
            crate::frame::FrameType::PushPromise,
            Payload::PushPromise(d),
        ) => PushPromisePayload::parse_ok(v, flags, d),
        (crate::frame::FrameType::Ping, Payload::Ping(d)) => PingPayload::parse_ok(v, flags, d),
        (crate::frame::FrameType::GoAway, Payload::GoAway(d)) => GoAwayPayload::parse_ok(
            v,
            flags,
            d,
        ),
        (
            crate::frame::FrameType::WindowUpdate,
            Payload::WindowUpdate(d),
        ) => WindowUpdatePayload::parse_ok(v, flags, d),
        (
            crate::frame::FrameType::Continuation,
            Payload::Continuation(d),
        ) => ContinuationPayload::parse_ok(v, flags, d),
        (crate::frame::FrameType::Unknown, Payload::Unknown(b)) => b@ == v,
        _ => false,
    }
}

impl Payload {
    pub open spec fn wf(self) -> bool {
        match self {
            Payload::Data(d) => d.wf(),
            Payload::Headers(d) => d.wf(),
            Payload::Priority(d) => d.wf(),
            Payload::RstStream(d) => d.wf(),
            Payload::Settings(d) => d.wf(),
            Payload::PushPromise(d) => d.wf(),
            Payload::Ping(d) => d.wf(),
            Payload::GoAway(d) => d.wf(),
            Payload::WindowUpdate(d) => d.wf(),
            Payload::Continuation(d) => d.wf(),
            Payload::Unknown(_) => true,
        }
    }

    /// The serialized payload bytes.
    pub open spec fn spec_wire(self) -> Seq<u8> {
        match self {
            Payload::Data(d) => d.spec_wire(),
            Payload::Headers(d) => d.spec_wire(),
            Payload::Priority(d) => d.spec_wire(),
            Payload::RstStream(d) => d.spec_wire(),
            Payload::Settings(d) => d.spec_wire(),
            Payload::PushPromise(d) => d.spec_wire(),
            Payload::Ping(d) => d.spec_wire(),
            Payload::GoAway(d) => d.spec_wire(),
            Payload::WindowUpdate(d) => d.spec_wire(),
            Payload::Continuation(d) => d.spec_wire(),
            Payload::Unknown(b) => b@,
        }
    }

    /// Parses the buffer as the payload of the given frame type.  An
    /// unknown type is preserved as opaque bytes rather than failing.
    pub fn from(value: Vec<u8>, flag: u8, frame_type: crate::frame::FrameType) -> (r: Result<
        Payload,
        FromBytesError,
    >)
        ensures
            match r {
                Ok(p) => spec_payload_parse_err(value@, flag, frame_type) == None::<FromBytesError>
                    && spec_payload_parse_ok(value@, flag, frame_type, p),
                Err(e) => spec_payload_parse_err(value@, flag, frame_type) == Some(e),
            },
    {
        match frame_type {
            crate::frame::FrameType::Data => match <DataPayload as FromBytes>::from(value, flag) {
                Ok(p) => Ok(Payload::Data(p)),
                Err(e) => Err(e),
            },
            crate::frame::FrameType::Headers => match <HeadersPayload as FromBytes>::from(
                value,
                flag,
            ) {
                Ok(p) => Ok(Payload::Headers(p)),
                Err(e) => Err(e),
            },
            crate::frame::FrameType::Priority => match <PriorityPayload as FromBytes>::from(
                value,
                flag,
            ) {
                Ok(p) => Ok(Payload::Priority(p)),
                Err(e) => Err(e),
            },
            crate::frame::FrameType::RstStream => match <RstStreamPayload as FromBytes>::from(
                value,
                flag,
            ) {
                Ok(p) => Ok(Payload::RstStream(p)),
                Err(e) => Err(e),
            },
            crate::frame::FrameType::Settings => match <SettingsPayload as FromBytes>::from(
                value,
                flag,
            ) {
                Ok(p) => Ok(Payload::Settings(p)),
                Err(e) => Err(e),
            },
            crate::frame::FrameType::PushPromise => match <PushPromisePayload as FromBytes>::from(
                value,
                flag,
            ) {
                Ok(p) => Ok(Payload::PushPromise(p)),
                Err(e) => Err(e),
            },
            crate::frame::FrameType::Ping => match <PingPayload as FromBytes>::from(value, flag) {
                Ok(p) => Ok(Payload::Ping(p)),
                Err(e) => Err(e),
            },
            crate::frame::FrameType::GoAway => match <GoAwayPayload as FromBytes>::from(
                value,
                flag,
            ) {
                Ok(p) => Ok(Payload::GoAway(p)),
                Err(e) => Err(e),
            },
            crate::frame::FrameType::WindowUpdate => match <WindowUpdatePayload as FromBytes>::from(
                value,
                flag,
            ) {
                Ok(p) => Ok(Payload::WindowUpdate(p)),
                Err(e) => Err(e),
            },
            crate::frame::FrameType::Continuation => match <ContinuationPayload as FromBytes>::from(
                value,
                flag,
            ) {
                Ok(p) => Ok(Payload::Continuation(p)),
                Err(e) => Err(e),
            },
            crate::frame::FrameType::Unknown => Ok(Payload::Unknown(value)),
        }
    }

    /// Serializes the payload.
    pub fn to_bytes(&self) -> (r: Vec<u8>)
        requires
            self.wf(),
        ensures
            r@ =~= self.spec_wire(),
    {
        match self {
            Payload::Data(d) => d.to_bytes(),
            Payload::Headers(d) => d.to_bytes(),
            Payload::Priority(d) => d.to_bytes(),
            Payload::RstStream(d) => d.to_bytes(),
            Payload::Settings(d) => d.to_bytes(),
            Payload::PushPromise(d) => d.to_bytes(),
            Payload::Ping(d) => d.to_bytes(),
            Payload::GoAway(d) => d.to_bytes(),
            Payload::WindowUpdate(d) => d.to_bytes(),
            Payload::Continuation(d) => d.to_bytes(),
            Payload::Unknown(b) => {
                let r = copy_range(b.as_slice(), 0, b.len());
                proof {
                    assert(r@ =~= b@);
                }
                r
            },
        }
    }
}

impl Len for Payload {
    open spec fn spec_len(&self) -> nat {
        self.spec_wire().len()
    }

    open spec fn len_ok(&self) -> bool {
        match self {
            Payload::Data(d) => d.len_ok(),
            Payload::Headers(d) => d.len_ok(),
            Payload::Priority(d) => d.len_ok(),
            Payload::RstStream(d) => d.len_ok(),
            Payload::Settings(d) => d.len_ok(),
            Payload::PushPromise(d) => d.len_ok(),
            Payload::Ping(d) => d.len_ok(),
            Payload::GoAway(d) => d.len_ok(),
            Payload::WindowUpdate(d) => d.len_ok(),
            Payload::Continuation(d) => d.len_ok(),
            Payload::Unknown(_) => true,
        }
    }

    fn binary_len(&self) -> (r: usize) {
        match self {
            Payload::Data(d) => d.binary_len(),
            Payload::Headers(d) => d.binary_len(),
            Payload::Priority(d) => d.binary_len(),
            Payload::RstStream(d) => d.binary_len(),
            Payload::Settings(d) => d.binary_len(),
            Payload::PushPromise(d) => d.binary_len(),
            Payload::Ping(d) => d.binary_len(),
            Payload::GoAway(d) => d.binary_len(),
            Payload::WindowUpdate(d) => d.binary_len(),
            Payload::Continuation(d) => d.binary_len(),
            Payload::Unknown(b) => b.len(),
        }
    }
}


/// View-level equality of payloads: every field equal up to byte views.
pub open spec fn spec_payload_model_eq(a: Payload, b: Payload) -> bool {
    match (a, b) {
        (Payload::Data(x), Payload::Data(y)) => x.pad_length == y.pad_length && x.data@ == y.data@
            && spec_opt_bytes(x.padding) == spec_opt_bytes(y.padding) && x.padding.is_some()
            == y.padding.is_some(),
        (Payload::Headers(x), Payload::Headers(y)) => {
            &&& x.pad_length == y.pad_length
            &&& match (x.priority, y.priority) {
                (Some(px), Some(py)) => px.exclusive_flag == py.exclusive_flag
                    && px.stream_dependency.spec_value() == py.stream_dependency.spec_value()
                    && px.weight == py.weight,
                (None, None) => true,
                _ => false,
            }
            &&& x.header_block_fragment.bytes() == y.header_block_fragment.bytes()
            &&& spec_opt_bytes(x.padding) == spec_opt_bytes(y.padding)
            &&& x.padding.is_some() == y.padding.is_some()
        },
        (Payload::Priority(x), Payload::Priority(y)) => x.exclusive_flag == y.exclusive_flag
            && x.stream_dependency.spec_value() == y.stream_dependency.spec_value() && x.weight
            == y.weight,
        (Payload::RstStream(x), Payload::RstStream(y)) => x.error_code == y.error_code,
        (Payload::Settings(x), Payload::Settings(y)) => x.settings@ == y.settings@,
        (Payload::PushPromise(x), Payload::PushPromise(y)) => {
            &&& x.pad_length == y.pad_length
            &&& x.promised_stream_id.spec_value() == y.promised_stream_id.spec_value()
            &&& x.header_block_fragment.bytes() == y.header_block_fragment.bytes()
            &&& spec_opt_bytes(x.padding) == spec_opt_bytes(y.padding)
            &&& x.padding.is_some() == y.padding.is_some()
        },
        (Payload::Ping(x), Payload::Ping(y)) => x.opaque_data == y.opaque_data,
        (Payload::GoAway(x), Payload::GoAway(y)) => x.last_stream_id.spec_value()
            == y.last_stream_id.spec_value() && x.error_code == y.error_code && x.additional_data@
            == y.additional_data@,
        (Payload::WindowUpdate(x), Payload::WindowUpdate(y)) => x.window_size_increment
            == y.window_size_increment,
        (Payload::Continuation(x), Payload::Continuation(y)) => x.header_block_fragment.bytes()
            == y.header_block_fragment.bytes(),
        (Payload::Unknown(x), Payload::Unknown(y)) => x@ == y@,
        _ => false,
    }
}

/// A 32-bit word splits uniquely into its low 31 bits and its high bit,
/// and the high bit shows in the first wire byte.
proof fn lemma_high_bit_split(raw: u32)
    ensures
        raw % 0x8000_0000 + (if raw >= 0x8000_0000 {
            0x8000_0000u32
        } else {
            0u32
        }) == raw,
        spec_be4(raw)[0] >= 128 <==> raw >= 0x8000_0000,
{
    assert(raw % 0x8000_0000 + (if raw >= 0x8000_0000 {
        0x8000_0000u32
    } else {
        0u32
    }) == raw) by (nonlinear_arith);
    assert(raw / 0x100_0000 >= 128 <==> raw >= 0x8000_0000) by (nonlinear_arith);
}

/// The priority payload's wire form reads back as itself.
pub proof fn lemma_priority_round_trip(p: PriorityPayload, flags: u8, p2: PriorityPayload)
    requires
        p.wf(),
    ensures
        PriorityPayload::parse_err(p.spec_wire(), flags) == None::<FromBytesError>,
        PriorityPayload::parse_ok(p.spec_wire(), flags, p2) ==> spec_payload_model_eq(
            Payload::Priority(p2),
            Payload::Priority(p),
        ),
{
    let dep = p.stream_dependency.spec_value();
    let word: u32 = (dep + if p.exclusive_flag {
        0x8000_0000u32
    } else {
        0u32
    }) as u32;
    let v = p.spec_wire();
    assert(v.len() == 5);
    assert(v.subrange(0, 4) =~= spec_be4(word));
    crate::u31::lemma_be4_round_trip(word);
    lemma_high_bit_split(word);
    assert(word % 0x8000_0000 == dep) by (nonlinear_arith)
        requires
            dep < 0x8000_0000,
            word == dep + (if p.exclusive_flag {
                0x8000_0000u32
            } else {
                0u32
            }),
    ;
    assert(v[0] == spec_be4(word)[0]);
    assert(v[4] == p.weight);
}

/// The settings wire form is made of six-byte groups, one per entry.
proof fn lemma_settings_wire_parts(entries: Seq<(u16, u32)>, k: int)
    requires
        0 <= k < entries.len(),
    ensures
        spec_settings_wire(entries).subrange(6 * k, 6 * k + 2) =~= spec_be16(entries[k].0),
        spec_settings_wire(entries).subrange(6 * k + 2, 6 * k + 6) =~= spec_be32(entries[k].1),
    decreases entries.len(),
{
    lemma_settings_wire_len(entries);
    lemma_settings_wire_len(entries.drop_last());
    let w = spec_settings_wire(entries);
    let wp = spec_settings_wire(entries.drop_last());
    assert(w =~= wp + spec_be16(entries.last().0) + spec_be32(entries.last().1));
    if k == entries.len() - 1 {
        assert(w.subrange(6 * k, 6 * k + 2) =~= spec_be16(entries[k].0));
        assert(w.subrange(6 * k + 2, 6 * k + 6) =~= spec_be32(entries[k].1));
    } else {
        lemma_settings_wire_parts(entries.drop_last(), k);
        assert(w.subrange(6 * k, 6 * k + 2) =~= wp.subrange(6 * k, 6 * k + 2));
        assert(w.subrange(6 * k + 2, 6 * k + 6) =~= wp.subrange(6 * k + 2, 6 * k + 6));
    }
}

/// The settings payload's wire form reads back as itself.
pub proof fn lemma_settings_round_trip(p: SettingsPayload, flags: u8, p2: SettingsPayload)
    requires
        crate::flags::spec_has_flag(flags, crate::flags::SETTINGS_ACK) ==> p.settings@.len() == 0,
    ensures
        SettingsPayload::parse_err(p.spec_wire(), flags) == None::<FromBytesError>,
        SettingsPayload::parse_ok(p.spec_wire(), flags, p2) ==> spec_payload_model_eq(
            Payload::Settings(p2),
            Payload::Settings(p),
        ),
{
    let v = p.spec_wire();
    lemma_settings_wire_len(p.settings@);
    assert(v.len() % 6 == 0 && v.len() / 6 == p.settings@.len()) by (nonlinear_arith)
        requires
            v.len() == 6 * p.settings@.len(),
    ;
    if SettingsPayload::parse_ok(v, flags, p2) {
        assert forall|k: int| 0 <= k < p.settings@.len() implies p2.settings@[k]
            == p.settings@[k] by {
            lemma_settings_wire_parts(p.settings@, k);
            crate::wire::lemma_be16_round_trip(p.settings@[k].0);
            crate::u31::lemma_be4_round_trip(p.settings@[k].1);
        }
        assert(p2.settings@ =~= p.settings@);
    }
}

/// The data payload's wire form reads back as itself.
pub proof fn lemma_data_round_trip(p: DataPayload, flags: u8, p2: DataPayload)
    requires
        p.wf(),
        crate::flags::spec_has_flag(flags, crate::flags::DATA_PADDED) == p.pad_length.is_some(),
    ensures
        DataPayload::parse_err(p.spec_wire(), flags) == None::<FromBytesError>,
        DataPayload::parse_ok(p.spec_wire(), flags, p2) ==> spec_payload_model_eq(
            Payload::Data(p2),
            Payload::Data(p),
        ),
{
    let v = p.spec_wire();
    match (p.pad_length, p.padding) {
        (Some(l), Some(pad)) => {
            assert(v.len() == 1 + p.data@.len() + l);
            assert(v[0] == l);
            assert(v.subrange(1, v.len() - l) =~= p.data@);
            assert(v.subrange(v.len() - l, v.len() as int) =~= pad@);
        },
        _ => {},
    }
}

/// The headers payload's wire form reads back as itself.
pub proof fn lemma_headers_round_trip(p: HeadersPayload, flags: u8, p2: HeadersPayload)
    requires
        p.wf(),
        crate::flags::spec_has_flag(flags, crate::flags::HEADERS_PADDED) == p.pad_length.is_some(),
        crate::flags::spec_has_flag(flags, crate::flags::HEADERS_PRIORITY)
            == p.priority.is_some(),
    ensures
        HeadersPayload::parse_err(p.spec_wire(), flags) == None::<FromBytesError>,
        HeadersPayload::parse_ok(p.spec_wire(), flags, p2) ==> spec_payload_model_eq(
            Payload::Headers(p2),
            Payload::Headers(p),
        ),
{
    let v = p.spec_wire();
    let off0: int = if p.pad_length.is_some() {
        1
    } else {
        0
    };
    let plen: int = if p.priority.is_some() {
        5
    } else {
        0
    };
    let pad: int = match p.pad_length {
        Some(l) => l as int,
        None => 0,
    };
    let block = p.header_block_fragment.bytes();
    assert(v.len() == off0 + plen + block.len() + pad);
    if p.pad_length.is_some() {
        assert(v[0] == p.pad_length.unwrap());
    }
    match p.priority {
        Some(pp) => {
            assert(pp.spec_wire().len() == 5);
            assert(v.subrange(off0, off0 + 5) =~= pp.spec_wire());
            if HeadersPayload::parse_ok(v, flags, p2) {
                match p2.priority {
                    Some(pp2) => {
                        lemma_priority_round_trip(pp, flags, pp2);
                    },
                    None => {},
                }
            }
        },
        None => {},
    }
    assert(v.subrange(off0 + plen, v.len() - pad) =~= block);
    match p.padding {
        Some(q) => {
            assert(v.subrange(v.len() - pad, v.len() as int) =~= q@);
        },
        None => {},
    }
}

/// The push-promise payload's wire form reads back as itself.
pub proof fn lemma_push_promise_round_trip(
    p: PushPromisePayload,
    flags: u8,
    p2: PushPromisePayload,
)
    requires
        p.wf(),
        crate::flags::spec_has_flag(flags, crate::flags::PUSH_PROMISE_PADDED)
            == p.pad_length.is_some(),
    ensures
        PushPromisePayload::parse_err(p.spec_wire(), flags) == None::<FromBytesError>,
        PushPromisePayload::parse_ok(p.spec_wire(), flags, p2) ==> spec_payload_model_eq(
            Payload::PushPromise(p2),
            Payload::PushPromise(p),
        ),
{
    let v = p.spec_wire();
    let off0: int = if p.pad_length.is_some() {
        1
    } else {
        0
    };
    let pad: int = match p.pad_length {
        Some(l) => l as int,
        None => 0,
    };
    let block = p.header_block_fragment.bytes();
    let sid = p.promised_stream_id.spec_value();
    assert(v.len() == off0 + 4 + block.len() + pad);
    if p.pad_length.is_some() {
        assert(v[0] == p.pad_length.unwrap());
    }
    assert(v.subrange(off0, off0 + 4) =~= spec_be4(sid));
    crate::u31::lemma_be4_round_trip(sid);
    assert(v.subrange(off0 + 4, v.len() - pad) =~= block);
    match p.padding {
        Some(q) => {
            assert(v.subrange(v.len() - pad, v.len() as int) =~= q@);
        },
        None => {},
    }
}

/// Every well-formed payload's wire form parses back without error, and
/// any value it parses back as is view-equal to the original.  (law)
pub proof fn lemma_payload_wire_round_trip(
    p: Payload,
    flags: u8,
    t: crate::frame::FrameType,
    p2: Payload,
)
    requires
        p.wf(),
        crate::frame::spec_type_matches(t, p),
        crate::frame::spec_flags_match(flags, p),
    ensures
        spec_payload_parse_err(p.spec_wire(), flags, t) == None::<FromBytesError>,
        spec_payload_parse_ok(p.spec_wire(), flags, t, p2) ==> spec_payload_model_eq(p2, p),
{
    let v = p.spec_wire();
    match p {
        Payload::Data(x) => {
            match p2 {
                Payload::Data(y) => {
                    lemma_data_round_trip(x, flags, y);
                },
                _ => {
                    lemma_data_round_trip(x, flags, x);
                },
            }
        },
        Payload::Headers(x) => {
            match p2 {
                Payload::Headers(y) => {
                    lemma_headers_round_trip(x, flags, y);
                },
                _ => {
                    lemma_headers_round_trip(x, flags, x);
                },
            }
        },
        Payload::Priority(x) => {
            match p2 {
                Payload::Priority(y) => {
                    lemma_priority_round_trip(x, flags, y);
                },
                _ => {
                    lemma_priority_round_trip(x, flags, x);
                },
            }
        },
        Payload::RstStream(x) => {
            assert(v.len() == 4);
            assert(v =~= spec_be32(x.error_code));
            crate::u31::lemma_be4_round_trip(x.error_code);
        },
        Payload::Settings(x) => {
            match p2 {
                Payload::Settings(y) => {
                    lemma_settings_round_trip(x, flags, y);
                },
                _ => {
                    lemma_settings_round_trip(x, flags, x);
                },
            }
        },
        Payload::PushPromise(x) => {
            match p2 {
                Payload::PushPromise(y) => {
                    lemma_push_promise_round_trip(x, flags, y);
                },
                _ => {
                    lemma_push_promise_round_trip(x, flags, x);
                },
            }
        },
        Payload::Ping(x) => {
            assert(v.len() == 8);
            assert(v =~= spec_be64(x.opaque_data));
            crate::wire::lemma_be64_round_trip(x.opaque_data);
        },
        Payload::GoAway(x) => {
            assert(v.subrange(0, 4) =~= spec_be4(x.last_stream_id.spec_value()));
            assert(v.subrange(4, 8) =~= spec_be32(x.error_code));
            assert(v.skip(8) =~= x.additional_data@);
            crate::u31::lemma_be4_round_trip(x.last_stream_id.spec_value());
            crate::u31::lemma_be4_round_trip(x.error_code);
        },
        Payload::WindowUpdate(x) => {
            assert(v.len() == 4);
            assert(v =~= spec_be32(x.window_size_increment));
            crate::u31::lemma_be4_round_trip(x.window_size_increment);
        },
        Payload::Continuation(x) => {},
        Payload::Unknown(b) => {},
    }
}


/// A parsed payload is well formed, matches its flags, and serializes
/// back to exactly the bytes it came from.  The reserved bits that
/// parsing discards must be clear in the input: the high bit of a
/// promised or last stream id.
pub proof fn lemma_payload_parse_encode(
    v: Seq<u8>,
    flags: u8,
    t: crate::frame::FrameType,
    p: Payload,
)
    requires
        spec_payload_parse_err(v, flags, t) == None::<FromBytesError>,
        spec_payload_parse_ok(v, flags, t, p),
        t matches crate::frame::FrameType::GoAway ==> v[0] < 128,
        t matches crate::frame::FrameType::PushPromise ==> v[(
            if crate::flags::spec_has_flag(flags, crate::flags::PUSH_PROMISE_PADDED) {
                1int
            } else {
                0int
            }
        )] < 128,
    ensures
        p.wf(),
        crate::frame::spec_type_matches(t, p),
        crate::frame::spec_flags_match(flags, p),
        p.spec_wire() =~= v,
{
    match (t, p) {
        (crate::frame::FrameType::Data, Payload::Data(x)) => {
            if crate::flags::spec_has_flag(flags, crate::flags::DATA_PADDED) {
                let l = v[0] as int;
                assert(x.spec_wire() =~= seq![v[0]] + v.subrange(1, v.len() - l) + v.subrange(
                    v.len() - l,
                    v.len() as int,
                ));
                assert(x.spec_wire() =~= v);
            } else {
                assert(x.spec_wire() =~= v);
            }
        },
        (crate::frame::FrameType::Priority, Payload::Priority(x)) => {
            lemma_priority_parse_encode(v, flags, x);
        },
        (crate::frame::FrameType::Headers, Payload::Headers(x)) => {
            let off0: int = if crate::flags::spec_has_flag(flags, crate::flags::HEADERS_PADDED) {
                1
            } else {
                0
            };
            let pad: int = if crate::flags::spec_has_flag(flags, crate::flags::HEADERS_PADDED) {
                v[0] as int
            } else {
                0
            };
            let plen: int = if crate::flags::spec_has_flag(
                flags,
                crate::flags::HEADERS_PRIORITY,
            ) {
                5
            } else {
                0
            };
            let end: int = v.len() - pad;
            match x.priority {
                Some(pp) => {
                    lemma_priority_parse_encode(v.subrange(off0, off0 + 5), flags, pp);
                    assert(pp.spec_wire() =~= v.subrange(off0, off0 + 5));
                },
                None => {},
            }
            assert(x.spec_wire() =~= v);
        },
        (crate::frame::FrameType::RstStream, Payload::RstStream(x)) => {
            crate::wire::lemma_be32_of_bytes(v);
            assert(x.spec_wire() =~= v);
        },
        (crate::frame::FrameType::Settings, Payload::Settings(x)) => {
            lemma_settings_parse_encode(v, flags, x);
        },
        (crate::frame::FrameType::PushPromise, Payload::PushPromise(x)) => {
            let off0: int = if crate::flags::spec_has_flag(
                flags,
                crate::flags::PUSH_PROMISE_PADDED,
            ) {
                1
            } else {
                0
            };
            let pad: int = if crate::flags::spec_has_flag(
                flags,
                crate::flags::PUSH_PROMISE_PADDED,
            ) {
                v[0] as int
            } else {
                0
            };
            let end: int = v.len() - pad;
            let raw = spec_from_be4(v.subrange(off0, off0 + 4));
            assert(v.subrange(off0, off0 + 4)[0] == v[off0]);
            assert(raw < 0x8000_0000) by (nonlinear_arith)
                requires
                    raw == v[off0] * 0x100_0000 + v[off0 + 1] * 0x10000 + v[off0 + 2] * 0x100
                        + v[off0 + 3],
                    v[off0] < 128,
                    v[off0 + 1] < 0x100,
                    v[off0 + 2] < 0x100,
                    v[off0 + 3] < 0x100,
            ;
            assert(x.promised_stream_id.spec_value() == raw);
            crate::wire::lemma_be32_of_bytes(v.subrange(off0, off0 + 4));
            assert(x.spec_wire() =~= v);
        },
        (crate::frame::FrameType::Ping, Payload::Ping(x)) => {
            crate::wire::lemma_be64_of_bytes(v);
            assert(x.spec_wire() =~= v);
        },
        (crate::frame::FrameType::GoAway, Payload::GoAway(x)) => {
            let raw = spec_from_be4(v.subrange(0, 4));
            assert(v.subrange(0, 4)[0] == v[0]);
            assert(raw < 0x8000_0000) by (nonlinear_arith)
                requires
                    raw == v[0int] * 0x100_0000 + v[1int] * 0x10000 + v[2int] * 0x100 + v[3int],
                    v[0int] < 128,
                    v[1int] < 0x100,
                    v[2int] < 0x100,
                    v[3int] < 0x100,
            ;
            assert(x.last_stream_id.spec_value() == raw);
            crate::wire::lemma_be32_of_bytes(v.subrange(0, 4));
            crate::wire::lemma_be32_of_bytes(v.subrange(4, 8));
            assert(x.spec_wire() =~= v);
        },
        (crate::frame::FrameType::WindowUpdate, Payload::WindowUpdate(x)) => {
            crate::wire::lemma_be32_of_bytes(v);
            assert(x.spec_wire() =~= v);
        },
        (crate::frame::FrameType::Continuation, Payload::Continuation(x)) => {
            assert(x.spec_wire() =~= v);
        },
        (crate::frame::FrameType::Unknown, Payload::Unknown(b)) => {
            assert(p.spec_wire() =~= v);
        },
        _ => {},
    }
}

/// A parsed priority payload serializes back to its five input bytes.
proof fn lemma_priority_parse_encode(v: Seq<u8>, flags: u8, x: PriorityPayload)
    requires
        PriorityPayload::parse_err(v, flags) == None::<FromBytesError>,
        PriorityPayload::parse_ok(v, flags, x),
    ensures
        x.wf(),
        x.spec_wire() =~= v,
{
    let raw = spec_from_be4(v.subrange(0, 4));
    assert(v.subrange(0, 4)[0] == v[0]);
    assert(v[0] >= 128 <==> raw >= 0x8000_0000) by (nonlinear_arith)
        requires
            raw == v[0int] * 0x100_0000 + v[1int] * 0x10000 + v[2int] * 0x100 + v[3int],
            v[0int] < 0x100,
            v[1int] < 0x100,
            v[2int] < 0x100,
            v[3int] < 0x100,
    ;
    let word: u32 = (x.stream_dependency.spec_value() + if x.exclusive_flag {
        0x8000_0000u32
    } else {
        0u32
    }) as u32;
    assert(word == raw) by (nonlinear_arith)
        requires
            x.stream_dependency.spec_value() == raw % 0x8000_0000,
            x.exclusive_flag <==> raw >= 0x8000_0000,
            word == raw % 0x8000_0000 + (if raw >= 0x8000_0000 {
                0x8000_0000u32
            } else {
                0u32
            }),
    ;
    crate::wire::lemma_be32_of_bytes(v.subrange(0, 4));
    assert(x.spec_wire() =~= v);
}

/// A parsed settings payload serializes back to its input bytes.
proof fn lemma_settings_parse_encode(v: Seq<u8>, flags: u8, x: SettingsPayload)
    requires
        SettingsPayload::parse_err(v, flags) == None::<FromBytesError>,
        SettingsPayload::parse_ok(v, flags, x),
    ensures
        x.wf(),
        crate::frame::spec_flags_match(flags, Payload::Settings(x)),
        x.spec_wire() =~= v,
{
    let w = x.spec_wire();
    lemma_settings_wire_len(x.settings@);
    if crate::flags::spec_has_flag(flags, crate::flags::SETTINGS_ACK) {
        assert(v.len() == 0);
        assert(x.settings@.len() == 0);
        assert(w =~= v);
    } else {
        assert(v.len() % 6 == 0);
        assert(x.settings@.len() == v.len() / 6);
        assert(w.len() == v.len());
        assert forall|j: int| 0 <= j < v.len() implies w[j] == v[j] by {
            let k = j / 6;
            let r = j % 6;
            assert(0 <= k < x.settings@.len()) by (nonlinear_arith)
                requires
                    0 <= j < v.len(),
                    v.len() % 6 == 0,
                    x.settings@.len() == v.len() / 6,
                    k == j / 6,
            ;
            lemma_settings_wire_parts(x.settings@, k);
            crate::wire::lemma_be16_of_bytes(v.subrange(6 * k, 6 * k + 2));
            crate::wire::lemma_be32_of_bytes(v.subrange(6 * k + 2, 6 * k + 6));
            assert(j == 6 * k + r) by (nonlinear_arith)
                requires
                    k == j / 6,
                    r == j % 6,
            ;
            if r < 2 {
                assert(w[j] == w.subrange(6 * k, 6 * k + 2)[r]);
                assert(v[j] == v.subrange(6 * k, 6 * k + 2)[r]);
            } else {
                assert(w[j] == w.subrange(6 * k + 2, 6 * k + 6)[r - 2]);
                assert(v[j] == v.subrange(6 * k + 2, 6 * k + 6)[r - 2]);
            }
        }
        assert(w =~= v);
    }
}


/// An empty payload parses for the types that allow one; Ping demands
/// its eight bytes, while a Settings acknowledgement demands emptiness.
/// (law)
pub proof fn lemma_empty_payload_boundaries()
    ensures
        spec_payload_parse_err(Seq::empty(), 0, crate::frame::FrameType::Data) == None::<
            FromBytesError,
        >,
        spec_payload_parse_err(Seq::empty(), 0, crate::frame::FrameType::Headers) == None::<
            FromBytesError,
        >,
        spec_payload_parse_err(Seq::empty(), 0, crate::frame::FrameType::Settings) == None::<
            FromBytesError,
        >,
        spec_payload_parse_err(Seq::empty(), SETTINGS_ACK, crate::frame::FrameType::Settings)
            == None::<FromBytesError>,
        spec_payload_parse_err(Seq::empty(), 0, crate::frame::FrameType::Continuation) == None::<
            FromBytesError,
        >,
        spec_payload_parse_err(Seq::empty(), 0, crate::frame::FrameType::Ping) == Some(
            FromBytesError::InvalidLength,
        ),
        spec_payload_parse_err(seq![0u8], SETTINGS_ACK, crate::frame::FrameType::Settings) == Some(
            FromBytesError::InvalidLength,
        ),
{
    assert(spec_has_flag(0, DATA_PADDED) == false) by (bit_vector);
    assert(spec_has_flag(0, HEADERS_PADDED) == false) by (bit_vector);
    assert(spec_has_flag(0, HEADERS_PRIORITY) == false) by (bit_vector);
    assert(spec_has_flag(0, SETTINGS_ACK) == false) by (bit_vector);
    assert(spec_has_flag(1, SETTINGS_ACK) == true) by (bit_vector);
}

} // verus!




