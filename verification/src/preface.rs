//! The HTTP/2 connection preface: the fixed 24-byte sequence a client
//! sends before any frame.
use vstd::prelude::*;

verus! {

/// The 24 preface octets: `PRI * HTTP/2.0\r\n\r\nSM\r\n\r\n`.
pub open spec fn spec_preface() -> Seq<u8> {
    seq![
        0x50u8, 0x52, 0x49, 0x20, 0x2a, 0x20, 0x48, 0x54, 0x54, 0x50, 0x2f, 0x32, 0x2e, 0x30,
        0x0d, 0x0a, 0x0d, 0x0a, 0x53, 0x4d, 0x0d, 0x0a, 0x0d, 0x0a,
    ]
}

/// A successfully detected connection preface.
pub struct Http2Pri {
    pub content: Vec<u8>,
}

#[derive(Debug, Clone, Copy, PartialEq, Eq)]
pub enum Http2PriErr {
    /// Fewer than 24 bytes were available.
    BufferSizeError,
    /// The first 24 bytes are not the preface.
    ParseError,
}

impl Http2Pri {
    /// Matches the 24-byte preface at the front of `buffer` and consumes it.
    ///
    /// On success the buffer loses its first 24 bytes; on failure it is left
    /// unchanged.
    pub fn read_and_remove(buffer: &mut Vec<u8>) -> (r: Result<Http2Pri, Http2PriErr>)
        ensures
            old(buffer)@.len() < 24 ==> r == Err::<Http2Pri, Http2PriErr>(
                Http2PriErr::BufferSizeError,
            ) && final(buffer)@ == old(buffer)@,
            old(buffer)@.len() >= 24 && old(buffer)@.subrange(0, 24) != spec_preface() ==> r
                == Err::<Http2Pri, Http2PriErr>(Http2PriErr::ParseError) && final(buffer)@ == old(
                buffer,
            )@,
            old(buffer)@.len() >= 24 && old(buffer)@.subrange(0, 24) == spec_preface() ==> {
                &&& r matches Ok(p) && p.content@ == spec_preface()
                &&& final(buffer)@ == old(buffer)@.skip(24)
            },
    {
        if buffer.len() < 24 {
            return Err(Http2PriErr::BufferSizeError);
        }
        let expected: [u8; 24] = [
            0x50u8,
            0x52,
            0x49,
            0x20,
            0x2a,
            0x20,
            0x48,
            0x54,
            0x54,
            0x50,
            0x2f,
            0x32,
            0x2e,
            0x30,
            0x0d,
            0x0a,
            0x0d,
            0x0a,
            0x53,
            0x4d,
            0x0d,
            0x0a,
            0x0d,
            0x0a,
        ];
        assert(expected@ =~= spec_preface());
        let mut content: Vec<u8> = Vec::new();
        let mut i: usize = 0;
        while i < 24
            invariant
                i <= 24,
                buffer@ == old(buffer)@,
                buffer@.len() >= 24,
                content@ =~= buffer@.subrange(0, i as int),
                forall|j: int| 0 <= j < i ==> buffer@[j] == spec_preface()[j],
            decreases 24 - i,
        {
            if buffer[i] != expected[i] {
                assert(buffer@.subrange(0, 24)[i as int] != spec_preface()[i as int]);
                return Err(Http2PriErr::ParseError);
            }
            content.push(buffer[i]);
            i = i + 1;
        }
        assert(buffer@.subrange(0, 24) =~= spec_preface());
        assert(content@ =~= spec_preface());
        let rest = crate::wire::copy_range(buffer.as_slice(), 24, buffer.len());
        let ghost before = buffer@;
        *buffer = rest;
        assert(buffer@ =~= before.skip(24));
        Ok(Http2Pri { content })
    }
}

} // verus!
