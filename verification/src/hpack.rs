//! HPACK header compression (RFC 7541): the integer and string
//! primitives, the static and dynamic tables, and the header block codec.
use vstd::prelude::*;
use vstd::string::StringSliceAdditionalSpecFns;

verus! {

#[derive(Debug, Clone, Copy, PartialEq, Eq)]
pub enum HpackError {
    /// An integer's continuation bytes run past the buffer or past the
    /// 32-bit bound.
    InvalidIntegerEncoding,
    /// A string's declared length runs past the buffer.
    InvalidStringEncoding,
    /// An index refers to no static or dynamic entry.
    InvalidIndex,
    /// A Huffman-coded string holds an invalid bit pattern.
    HuffmanDecodingError,
    /// Reserved for faults in Huffman encoding; not produced on valid input.
    HuffmanEncodingError,
}

/// `2^p` for a prefix of `p` bits, `1 <= p <= 7`.
pub open spec fn spec_prefix_limit(p: u8) -> nat {
    if p == 1 {
        2
    } else if p == 2 {
        4
    } else if p == 3 {
        8
    } else if p == 4 {
        16
    } else if p == 5 {
        32
    } else if p == 6 {
        64
    } else {
        128
    }
}

/// The all-ones prefix value `2^p - 1`.
pub open spec fn spec_prefix_mask(p: u8) -> nat {
    (spec_prefix_limit(p) - 1) as nat
}

/// Continuation bytes of an integer too large for its prefix: 7-bit
/// groups, least significant first, all but the last with the high bit set.
pub open spec fn spec_int_tail(v: nat) -> Seq<u8>
    decreases v,
{
    if v < 128 {
        seq![v as u8]
    } else {
        seq![(v % 128 + 128) as u8] + spec_int_tail(v / 128)
    }
}

/// The bytes of `value` under a `p`-bit prefix.  The unused high bits of
/// the first byte are zero; the caller sets the representation bits.
pub open spec fn spec_int(value: nat, p: u8) -> Seq<u8> {
    if value < spec_prefix_mask(p) {
        seq![value as u8]
    } else {
        seq![spec_prefix_mask(p) as u8] + spec_int_tail((value - spec_prefix_mask(p)) as nat)
    }
}

/// Reads the continuation bytes: value and count consumed, or `None` when
/// the sequence ends before a byte with the high bit clear.
pub open spec fn spec_int_tail_decode(data: Seq<u8>) -> Option<(nat, nat)>
    decreases data.len(),
{
    if data.len() == 0 {
        None
    } else if data[0] < 128 {
        Some((data[0] as nat, 1))
    } else {
        match spec_int_tail_decode(data.skip(1)) {
            Some((v, c)) => Some((((data[0] - 128) as nat + 128 * v) as nat, (c + 1) as nat)),
            None => None,
        }
    }
}

/// Reads an integer under a `p`-bit prefix: value and count consumed.
/// The representation bits above the prefix are ignored.
pub open spec fn spec_int_decode(data: Seq<u8>, p: u8) -> Option<(nat, nat)> {
    if data.len() == 0 {
        None
    } else {
        let low = (data[0] as nat) % spec_prefix_limit(p);
        if low < spec_prefix_mask(p) {
            Some((low, 1))
        } else {
            match spec_int_tail_decode(data.skip(1)) {
                Some((v, c)) => Some(((spec_prefix_mask(p) + v) as nat, (c + 1) as nat)),
                None => None,
            }
        }
    }
}

/// Encodes `value` under a `p`-bit prefix, high representation bits zero.
pub fn encode_integer(value: usize, prefix_size: u8) -> (r: Vec<u8>)
    requires
        1 <= prefix_size <= 7,
    ensures
        r@ =~= spec_int(value as nat, prefix_size),
        r@.len() >= 1,
        r@[0] < 128,
{
    let mask: usize = match prefix_size {
        1 => 1,
        2 => 3,
        3 => 7,
        4 => 15,
        5 => 31,
        6 => 63,
        _ => 127,
    };
    let mut out: Vec<u8> = Vec::new();
    if value < mask {
        out.push(value as u8);
        return out;
    }
    out.push(mask as u8);
    let mut rest: usize = value - mask;
    let ghost rest0 = rest as nat;
    while rest >= 128
        invariant
            spec_int_tail(rest0) =~= out@.skip(1) + spec_int_tail(rest as nat),
            out@.len() >= 1,
            out@[0] == mask as u8,
        decreases rest,
    {
        let ghost before = out@;
        let ghost r_before = rest as nat;
        out.push((rest % 128 + 128) as u8);
        rest = rest / 128;
        proof {
            assert(spec_int_tail(r_before) == seq![(r_before % 128 + 128) as u8] + spec_int_tail(
                r_before / 128,
            ));
            assert(out@.skip(1) =~= before.skip(1) + seq![(r_before % 128 + 128) as u8]);
        }
    }
    out.push(rest as u8);
    proof {
        assert(spec_int_tail(rest as nat) == seq![rest as u8]);
        assert(spec_int_tail(rest0) =~= out@.skip(1));
        assert(spec_int(value as nat, prefix_size) =~= seq![mask as u8] + spec_int_tail(rest0));
        assert(out@ =~= seq![mask as u8] + out@.skip(1));
    }
    out
}

/// Reads an integer under a `p`-bit prefix.
///
/// Returns the value and the count of bytes consumed.  Fails with
/// `InvalidIntegerEncoding` when the continuation bytes run past the
/// buffer or the value exceeds `u32::MAX`, the machine bound this
/// codec chooses for every wire integer.  The prefix widths are
/// `1..=7`: the five representation forms use widths 4 to 7, the top
/// bit of the first byte never belonging to the integer.
pub fn decode_integer(data: &[u8], prefix_size: u8) -> (r: Result<(usize, usize), HpackError>)
    requires
        1 <= prefix_size <= 7,
    ensures
        match r {
            Ok((v, c)) => {
                &&& spec_int_decode(data@, prefix_size) == Some((v as nat, c as nat))
                &&& v <= u32::MAX
                &&& 1 <= c <= data@.len()
            },
            Err(e) => {
                &&& e == HpackError::InvalidIntegerEncoding
                &&& match spec_int_decode(data@, prefix_size) {
                    Some((v, c)) => v > u32::MAX,
                    None => true,
                }
            },
        },
{
    let limit: usize = match prefix_size {
        1 => 2,
        2 => 4,
        3 => 8,
        4 => 16,
        5 => 32,
        6 => 64,
        _ => 128,
    };
    if data.len() == 0 {
        return Err(HpackError::InvalidIntegerEncoding);
    }
    let low: usize = (data[0] as usize) % limit;
    if low < limit - 1 {
        return Ok((low, 1));
    }
    let mut value: u64 = (limit - 1) as u64;
    let mut i: usize = 1;
    let ghost m = spec_prefix_mask(prefix_size);
    proof {
        assert(pow128(0) == 1);
        assert((data[0] as nat) % spec_prefix_limit(prefix_size) == low as nat);
        if let Some((v, c)) = spec_int_tail_decode(data@.skip(1)) {
            assert(v * pow128(0) == v) by (nonlinear_arith)
                requires
                    pow128(0) == 1,
            ;
        }
    }
    loop
        invariant
            1 <= prefix_size <= 7,
            limit == spec_prefix_limit(prefix_size),
            m == spec_prefix_mask(prefix_size),
            1 <= i <= data@.len(),
            value <= u32::MAX,
            spec_int_decode(data@, prefix_size) == (match spec_int_tail_decode(
                data@.skip(i as int),
            ) {
                Some((v, c)) => Some(
                    ((value + v * pow128((i - 1) as nat)) as nat, (c + i) as nat),
                ),
                None => None::<(nat, nat)>,
            }),
        decreases data@.len() - i,
    {
        let ghost e = (i - 1) as nat;
        if i >= data.len() {
            assert(data@.skip(i as int).len() == 0);
            return Err(HpackError::InvalidIntegerEncoding);
        }
        let b = data[i];
        let group: u64 = (b % 128) as u64;
        let ghost tail_here = data@.skip(i as int);
        proof {
            assert(tail_here[0] == data@[i as int]);
            assert(tail_here.skip(1) =~= data@.skip(i + 1));
        }
        if b < 128 {
            // final byte: the tail decodes to exactly this group
            proof {
                assert(spec_int_tail_decode(tail_here) == Some((b as nat, 1nat)));
            }
            if group == 0 {
                proof {
                    assert((b as nat) * pow128(e) == 0) by (nonlinear_arith)
                        requires
                            b == 0,
                    ;
                }
                return Ok((value as usize, i + 1));
            }
            if i - 1 >= 5 {
                proof {
                    lemma_pow128_mono(5, e);
                    assert(group * pow128(e) >= pow128(e)) by (nonlinear_arith)
                        requires
                            group >= 1,
                            pow128(e) >= 1,
                    ;
                }
                return Err(HpackError::InvalidIntegerEncoding);
            }
            let shift: u32 = 7 * ((i - 1) as u32);
            let add: u64 = group << shift;
            proof {
                lemma_shl_is_mul_pow128(group, shift);
            }
            if add > u32::MAX as u64 - value {
                return Err(HpackError::InvalidIntegerEncoding);
            }
            return Ok(((value + add) as usize, i + 1));
        }
        // continuation byte
        let ghost value0 = value;
        proof {
            lemma_tail_decode_unfold_cont(tail_here);
        }
        if group > 0 {
            if i - 1 >= 5 {
                proof {
                    lemma_pow128_mono(5, e);
                    lemma_tail_decode_lower_bound(tail_here);
                    if let Some((v, c)) = spec_int_tail_decode(tail_here) {
                        assert(v * pow128(e) >= pow128(e)) by (nonlinear_arith)
                            requires
                                v >= 1,
                                pow128(e) >= 1,
                        ;
                    }
                }
                return Err(HpackError::InvalidIntegerEncoding);
            }
            let shift: u32 = 7 * ((i - 1) as u32);
            let add: u64 = group << shift;
            proof {
                lemma_shl_is_mul_pow128(group, shift);
                assert(shift as nat / 7 == e);
                assert(add == ((b - 128) as nat) * pow128(e));
            }
            if add > u32::MAX as u64 - value {
                proof {
                    lemma_tail_decode_lower_bound(tail_here);
                    if let Some((v, c)) = spec_int_tail_decode(tail_here) {
                        assert(v * pow128(e) >= group * pow128(e)) by (nonlinear_arith)
                            requires
                                v >= group,
                                pow128(e) >= 0,
                        ;
                    }
                }
                return Err(HpackError::InvalidIntegerEncoding);
            }
            value = value + add;
        }
        // re-establish the invariant one byte further in
        proof {
            if let Some((v2, c2)) = spec_int_tail_decode(data@.skip(i + 1)) {
                assert(spec_int_tail_decode(tail_here) == Some(
                    (((b - 128) as nat + 128 * v2) as nat, (c2 + 1) as nat),
                ));
                let g = (b - 128) as nat;
                assert((g + 128 * v2) * pow128(e) == g * pow128(e) + v2 * (128 * pow128(e)))
                    by (nonlinear_arith);
                assert(pow128(e + 1) == 128 * pow128(e));
                assert(v2 * pow128(e + 1) == v2 * (128 * pow128(e)));
                if b == 128 {
                    assert(g * pow128(e) == 0) by (nonlinear_arith)
                        requires
                            g == 0,
                    ;
                }
                assert(value == value0 + g * pow128(e));
                assert(value0 + ((g + 128 * v2) as nat) * pow128(e) == value + v2 * pow128(e + 1));
                assert(spec_int_decode(data@, prefix_size) == Some(
                    ((value + v2 * pow128(e + 1)) as nat, (c2 + i + 1) as nat),
                ));
            } else {
                assert(spec_int_tail_decode(tail_here) == None::<(nat, nat)>);
            }
        }
        i = i + 1;
    }
}

/// `128^n`.
pub open spec fn pow128(n: nat) -> nat
    decreases n,
{
    if n == 0 {
        1
    } else {
        128 * pow128((n - 1) as nat)
    }
}

proof fn lemma_pow128_mono(lo: nat, n: nat)
    requires
        lo <= n,
    ensures
        pow128(n) >= pow128(lo),
        pow128(5) == 0x8_0000_0000,
    decreases n,
{
    assert(pow128(0) == 1);
    assert(pow128(1) == 128);
    assert(pow128(2) == 16384);
    assert(pow128(3) == 2097152);
    assert(pow128(4) == 268435456);
    assert(pow128(5) == 0x8_0000_0000);
    if lo < n {
        lemma_pow128_mono(lo, (n - 1) as nat);
        assert(pow128(n) == 128 * pow128((n - 1) as nat));
        assert(128 * pow128((n - 1) as nat) >= pow128((n - 1) as nat)) by (nonlinear_arith)
            requires
                pow128((n - 1) as nat) >= 0,
        ;
    }
}

proof fn lemma_shl_is_mul_pow128(g: u64, shift: u32)
    requires
        g < 128,
        shift <= 28,
        shift % 7 == 0,
    ensures
        g << shift == g * pow128(shift as nat / 7),
        g << shift <= 0x7F_0000_0000,
{
    assert(pow128(0) == 1);
    assert(pow128(1) == 128);
    assert(pow128(2) == 16384);
    assert(pow128(3) == 2097152);
    assert(pow128(4) == 268435456);
    assert(shift == 0 || shift == 7 || shift == 14 || shift == 21 || shift == 28) by (bit_vector)
        requires
            shift <= 28,
            shift % 7 == 0,
    ;
    assert(g << 0u32 == g * 1 && g << 7u32 == g * 128 && g << 14u32 == g * 16384 && g << 21u32 == g
        * 2097152 && g << 28u32 == g * 268435456 && g << 28u32 <= 0x7F_0000_0000) by (bit_vector)
        requires
            g < 128,
    ;
}

/// The decoded continuation value is at least its first nonzero group's
/// contribution; stated for the head group.
proof fn lemma_tail_decode_lower_bound(data: Seq<u8>)
    requires
        data.len() >= 1,
    ensures
        match spec_int_tail_decode(data) {
            Some((v, c)) => v >= data[0] % 128,
            None => true,
        },
{
    if data[0] < 128 {
    } else {
        match spec_int_tail_decode(data.skip(1)) {
            Some((v, c)) => {
                assert(128 * v >= 0) by (nonlinear_arith)
                    requires
                        v >= 0,
                ;
            },
            None => {},
        }
    }
}

/// Unfolds one continuation byte of the tail decoding.
proof fn lemma_tail_decode_unfold_cont(data: Seq<u8>)
    requires
        data.len() >= 1,
        data[0] >= 128,
    ensures
        spec_int_tail_decode(data) == (match spec_int_tail_decode(data.skip(1)) {
            Some((v, c)) => Some((((data[0] - 128) as nat + 128 * v) as nat, (c + 1) as nat)),
            None => None::<(nat, nat)>,
        }),
{
}


/// An integer encoded under a `p`-bit prefix reads back as itself, with
/// any following bytes untouched.
pub proof fn lemma_int_tail_round_trip(w: nat, rest: Seq<u8>)
    ensures
        spec_int_tail_decode(spec_int_tail(w) + rest) == Some((w, spec_int_tail(w).len())),
    decreases w,
{
    if w < 128 {
        assert(spec_int_tail(w) + rest =~= seq![w as u8] + rest);
        assert((seq![w as u8] + rest)[0] == w as u8);
    } else {
        lemma_int_tail_round_trip(w / 128, rest);
        let b0 = (w % 128 + 128) as u8;
        assert(spec_int_tail(w) + rest =~= seq![b0] + (spec_int_tail(w / 128) + rest));
        assert((seq![b0] + (spec_int_tail(w / 128) + rest)).skip(1) =~= spec_int_tail(w / 128)
            + rest);
        assert((b0 - 128) as nat + 128 * (w / 128) == w);
    }
}

/// Round trip of the prefixed integer encoding (the decoder ignores the
/// representation bits, which the encoder leaves zero).
pub proof fn lemma_int_round_trip(v: nat, p: u8, rest: Seq<u8>)
    requires
        1 <= p <= 7,
    ensures
        spec_int_decode(spec_int(v, p) + rest, p) == Some((v, spec_int(v, p).len())),
{
    let m = spec_prefix_mask(p);
    if v < m {
        assert(spec_int(v, p) + rest =~= seq![v as u8] + rest);
        assert(v % spec_prefix_limit(p) == v) by (nonlinear_arith)
            requires
                v < spec_prefix_limit(p),
        ;
        assert(((seq![v as u8] + rest)[0] as nat) % spec_prefix_limit(p) == v);
    } else {
        let w = (v - m) as nat;
        lemma_int_tail_round_trip(w, rest);
        assert(spec_int(v, p) + rest =~= seq![m as u8] + (spec_int_tail(w) + rest));
        let d = seq![m as u8] + (spec_int_tail(w) + rest);
        assert(m % spec_prefix_limit(p) == m) by (nonlinear_arith)
            requires
                m < spec_prefix_limit(p),
        ;
        assert((d[0] as nat) % spec_prefix_limit(p) == m);
        assert(d.skip(1) =~= spec_int_tail(w) + rest);
    }
}

/// Setting representation bits above the prefix does not change how the
/// integer reads back.
pub proof fn lemma_int_decode_high_bits(x: u8, hi: u8, rest: Seq<u8>, p: u8)
    requires
        1 <= p <= 7,
        x + hi <= 255,
        hi as nat % spec_prefix_limit(p) == 0,
    ensures
        spec_int_decode(seq![(x + hi) as u8] + rest, p) == spec_int_decode(seq![x] + rest, p),
{
    let l = spec_prefix_limit(p);
    assert(((x + hi) as nat) % l == (x as nat) % l) by (nonlinear_arith)
        requires
            l >= 1,
            hi as nat % l == 0,
    ;
    assert((seq![(x + hi) as u8] + rest).skip(1) =~= rest);
    assert((seq![x] + rest).skip(1) =~= rest);
}

/// A value below `2^p - 1` encodes as one byte that holds the value
/// itself, every bit above the prefix clear.  (law)
pub proof fn lemma_small_int_one_byte(v: nat, p: u8)
    requires
        1 <= p <= 7,
        v < spec_prefix_mask(p),
    ensures
        spec_int(v, p).len() == 1,
        spec_int(v, p)[0] == v,
        v < spec_prefix_limit(p),
{
}

/// Name of static table entry `i`, `1 <= i <= 61` (RFC 7541 Appendix A).
pub open spec fn spec_static_name(i: int) -> Seq<u8> {
    if i == 1 {
        ":authority".spec_bytes()
    } else if i == 2 {
        ":method".spec_bytes()
    } else if i == 3 {
        ":method".spec_bytes()
    } else if i == 4 {
        ":path".spec_bytes()
    } else if i == 5 {
        ":path".spec_bytes()
    } else if i == 6 {
        ":scheme".spec_bytes()
    } else if i == 7 {
        ":scheme".spec_bytes()
    } else if i == 8 {
        ":status".spec_bytes()
    } else if i == 9 {
        ":status".spec_bytes()
    } else if i == 10 {
        ":status".spec_bytes()
    } else if i == 11 {
        ":status".spec_bytes()
    } else if i == 12 {
        ":status".spec_bytes()
    } else if i == 13 {
        ":status".spec_bytes()
    } else if i == 14 {
        ":status".spec_bytes()
    } else if i == 15 {
        "accept-charset".spec_bytes()
    } else if i == 16 {
        "accept-encoding".spec_bytes()
    } else if i == 17 {
        "accept-language".spec_bytes()
    } else if i == 18 {
        "accept-ranges".spec_bytes()
    } else if i == 19 {
        "accept".spec_bytes()
    } else if i == 20 {
        "access-control-allow-origin".spec_bytes()
    } else if i == 21 {
        "age".spec_bytes()
    } else if i == 22 {
        "allow".spec_bytes()
    } else if i == 23 {
        "authorization".spec_bytes()
    } else if i == 24 {
        "cache-control".spec_bytes()
    } else if i == 25 {
        "content-disposition".spec_bytes()
    } else if i == 26 {
        "content-encoding".spec_bytes()
    } else if i == 27 {
        "content-language".spec_bytes()
    } else if i == 28 {
        "content-length".spec_bytes()
    } else if i == 29 {
        "content-location".spec_bytes()
    } else if i == 30 {
        "content-range".spec_bytes()
    } else if i == 31 {
        "content-type".spec_bytes()
    } else if i == 32 {
        "cookie".spec_bytes()
    } else if i == 33 {
        "date".spec_bytes()
    } else if i == 34 {
        "etag".spec_bytes()
    } else if i == 35 {
        "expect".spec_bytes()
    } else if i == 36 {
        "expires".spec_bytes()
    } else if i == 37 {
        "from".spec_bytes()
    } else if i == 38 {
        "host".spec_bytes()
    } else if i == 39 {
        "if-match".spec_bytes()
    } else if i == 40 {
        "if-modified-since".spec_bytes()
    } else if i == 41 {
        "if-none-match".spec_bytes()
    } else if i == 42 {
        "if-range".spec_bytes()
    } else if i == 43 {
        "if-unmodified-since".spec_bytes()
    } else if i == 44 {
        "last-modified".spec_bytes()
    } else if i == 45 {
        "link".spec_bytes()
    } else if i == 46 {
        "location".spec_bytes()
    } else if i == 47 {
        "max-forwards".spec_bytes()
    } else if i == 48 {
        "proxy-authenticate".spec_bytes()
    } else if i == 49 {
        "proxy-authorization".spec_bytes()
    } else if i == 50 {
        "range".spec_bytes()
    } else if i == 51 {
        "referer".spec_bytes()
    } else if i == 52 {
        "refresh".spec_bytes()
    } else if i == 53 {
        "retry-after".spec_bytes()
    } else if i == 54 {
        "server".spec_bytes()
    } else if i == 55 {
        "set-cookie".spec_bytes()
    } else if i == 56 {
        "strict-transport-security".spec_bytes()
    } else if i == 57 {
        "transfer-encoding".spec_bytes()
    } else if i == 58 {
        "user-agent".spec_bytes()
    } else if i == 59 {
        "vary".spec_bytes()
    } else if i == 60 {
        "via".spec_bytes()
    } else if i == 61 {
        "www-authenticate".spec_bytes()
    } else {
        Seq::empty()
    }
}

/// Value of static table entry `i`, `1 <= i <= 61` (RFC 7541 Appendix A).
pub open spec fn spec_static_value(i: int) -> Seq<u8> {
    if i == 1 {
        "".spec_bytes()
    } else if i == 2 {
        "GET".spec_bytes()
    } else if i == 3 {
        "POST".spec_bytes()
    } else if i == 4 {
        "/".spec_bytes()
    } else if i == 5 {
        "/index.html".spec_bytes()
    } else if i == 6 {
        "http".spec_bytes()
    } else if i == 7 {
        "https".spec_bytes()
    } else if i == 8 {
        "200".spec_bytes()
    } else if i == 9 {
        "204".spec_bytes()
    } else if i == 10 {
        "206".spec_bytes()
    } else if i == 11 {
        "304".spec_bytes()
    } else if i == 12 {
        "400".spec_bytes()
    } else if i == 13 {
        "404".spec_bytes()
    } else if i == 14 {
        "500".spec_bytes()
    } else if i == 15 {
        "".spec_bytes()
    } else if i == 16 {
        "gzip, deflate".spec_bytes()
    } else if i == 17 {
        "".spec_bytes()
    } else if i == 18 {
        "".spec_bytes()
    } else if i == 19 {
        "".spec_bytes()
    } else if i == 20 {
        "".spec_bytes()
    } else if i == 21 {
        "".spec_bytes()
    } else if i == 22 {
        "".spec_bytes()
    } else if i == 23 {
        "".spec_bytes()
    } else if i == 24 {
        "".spec_bytes()
    } else if i == 25 {
        "".spec_bytes()
    } else if i == 26 {
        "".spec_bytes()
    } else if i == 27 {
        "".spec_bytes()
    } else if i == 28 {
        "".spec_bytes()
    } else if i == 29 {
        "".spec_bytes()
    } else if i == 30 {
        "".spec_bytes()
    } else if i == 31 {
        "".spec_bytes()
    } else if i == 32 {
        "".spec_bytes()
    } else if i == 33 {
        "".spec_bytes()
    } else if i == 34 {
        "".spec_bytes()
    } else if i == 35 {
        "".spec_bytes()
    } else if i == 36 {
        "".spec_bytes()
    } else if i == 37 {
        "".spec_bytes()
    } else if i == 38 {
        "".spec_bytes()
    } else if i == 39 {
        "".spec_bytes()
    } else if i == 40 {
        "".spec_bytes()
    } else if i == 41 {
        "".spec_bytes()
    } else if i == 42 {
        "".spec_bytes()
    } else if i == 43 {
        "".spec_bytes()
    } else if i == 44 {
        "".spec_bytes()
    } else if i == 45 {
        "".spec_bytes()
    } else if i == 46 {
        "".spec_bytes()
    } else if i == 47 {
        "".spec_bytes()
    } else if i == 48 {
        "".spec_bytes()
    } else if i == 49 {
        "".spec_bytes()
    } else if i == 50 {
        "".spec_bytes()
    } else if i == 51 {
        "".spec_bytes()
    } else if i == 52 {
        "".spec_bytes()
    } else if i == 53 {
        "".spec_bytes()
    } else if i == 54 {
        "".spec_bytes()
    } else if i == 55 {
        "".spec_bytes()
    } else if i == 56 {
        "".spec_bytes()
    } else if i == 57 {
        "".spec_bytes()
    } else if i == 58 {
        "".spec_bytes()
    } else if i == 59 {
        "".spec_bytes()
    } else if i == 60 {
        "".spec_bytes()
    } else if i == 61 {
        "".spec_bytes()
    } else {
        Seq::empty()
    }
}

/// Static table entry `i` as string slices.
#[verifier::rlimit(30)]
fn static_entry(i: usize) -> (r: (&'static str, &'static str))
    requires
        1 <= i <= 61,
    ensures
        r.0.spec_bytes() == spec_static_name(i as int),
        r.1.spec_bytes() == spec_static_value(i as int),
{
    match i {
        1 => (":authority", ""),
        2 => (":method", "GET"),
        3 => (":method", "POST"),
        4 => (":path", "/"),
        5 => (":path", "/index.html"),
        6 => (":scheme", "http"),
        7 => (":scheme", "https"),
        8 => (":status", "200"),
        9 => (":status", "204"),
        10 => (":status", "206"),
        11 => (":status", "304"),
        12 => (":status", "400"),
        13 => (":status", "404"),
        14 => (":status", "500"),
        15 => ("accept-charset", ""),
        16 => ("accept-encoding", "gzip, deflate"),
        17 => ("accept-language", ""),
        18 => ("accept-ranges", ""),
        19 => ("accept", ""),
        20 => ("access-control-allow-origin", ""),
        21 => ("age", ""),
        22 => ("allow", ""),
        23 => ("authorization", ""),
        24 => ("cache-control", ""),
        25 => ("content-disposition", ""),
        26 => ("content-encoding", ""),
        27 => ("content-language", ""),
        28 => ("content-length", ""),
        29 => ("content-location", ""),
        30 => ("content-range", ""),
        31 => ("content-type", ""),
        32 => ("cookie", ""),
        33 => ("date", ""),
        34 => ("etag", ""),
        35 => ("expect", ""),
        36 => ("expires", ""),
        37 => ("from", ""),
        38 => ("host", ""),
        39 => ("if-match", ""),
        40 => ("if-modified-since", ""),
        41 => ("if-none-match", ""),
        42 => ("if-range", ""),
        43 => ("if-unmodified-since", ""),
        44 => ("last-modified", ""),
        45 => ("link", ""),
        46 => ("location", ""),
        47 => ("max-forwards", ""),
        48 => ("proxy-authenticate", ""),
        49 => ("proxy-authorization", ""),
        50 => ("range", ""),
        51 => ("referer", ""),
        52 => ("refresh", ""),
        53 => ("retry-after", ""),
        54 => ("server", ""),
        55 => ("set-cookie", ""),
        56 => ("strict-transport-security", ""),
        57 => ("transfer-encoding", ""),
        58 => ("user-agent", ""),
        59 => ("vary", ""),
        60 => ("via", ""),
        _ => ("www-authenticate", ""),
    }
}


/// Contribution of one entry to the table size (RFC 7541 section 4.1).
pub open spec fn spec_entry_size(e: (Seq<u8>, Seq<u8>)) -> nat {
    e.0.len() + e.1.len() + 32
}

/// The sum of the entry sizes.
pub open spec fn spec_table_size(entries: Seq<(Seq<u8>, Seq<u8>)>) -> nat
    decreases entries.len(),
{
    if entries.len() == 0 {
        0
    } else {
        spec_table_size(entries.drop_last()) + spec_entry_size(entries.last())
    }
}

pub proof fn lemma_table_size_push_front(e: (Seq<u8>, Seq<u8>), entries: Seq<(Seq<u8>, Seq<u8>)>)
    ensures
        spec_table_size(seq![e] + entries) == spec_entry_size(e) + spec_table_size(entries),
    decreases entries.len(),
{
    if entries.len() == 0 {
        assert(seq![e] + entries =~= seq![e]);
        assert((seq![e]).drop_last() =~= Seq::<(Seq<u8>, Seq<u8>)>::empty());
        assert((seq![e]).last() == e);
        assert(spec_table_size(Seq::<(Seq<u8>, Seq<u8>)>::empty()) == 0);
    } else {
        lemma_table_size_push_front(e, entries.drop_last());
        assert((seq![e] + entries).drop_last() =~= seq![e] + entries.drop_last());
        assert((seq![e] + entries).last() == entries.last());
    }
}

/// Each entry contributes at least 32 bytes.
pub proof fn lemma_table_size_len_bound(entries: Seq<(Seq<u8>, Seq<u8>)>)
    ensures
        spec_table_size(entries) >= 32 * entries.len(),
    decreases entries.len(),
{
    if entries.len() > 0 {
        lemma_table_size_len_bound(entries.drop_last());
    }
}

/// Evicts entries from the back until `need` more bytes fit within `max`.
pub open spec fn spec_evict(entries: Seq<(Seq<u8>, Seq<u8>)>, need: nat, max: nat) -> Seq<
    (Seq<u8>, Seq<u8>),
>
    decreases entries.len(),
{
    if spec_table_size(entries) + need <= max {
        entries
    } else if entries.len() == 0 {
        entries
    } else {
        spec_evict(entries.drop_last(), need, max)
    }
}

/// The table after inserting `(name, value)` (RFC 7541 section 4.4): room
/// is made by eviction from the back; an entry larger than the whole
/// budget empties the table and is itself discarded.
pub open spec fn spec_add(
    entries: Seq<(Seq<u8>, Seq<u8>)>,
    max: nat,
    name: Seq<u8>,
    value: Seq<u8>,
) -> Seq<(Seq<u8>, Seq<u8>)> {
    let s = name.len() + value.len() + 32;
    if s > max {
        Seq::empty()
    } else {
        seq![(name, value)] + spec_evict(entries, s, max)
    }
}

/// Evicts entries from the back until the size is within `k`.
pub open spec fn spec_shrink(entries: Seq<(Seq<u8>, Seq<u8>)>, k: nat) -> Seq<(Seq<u8>, Seq<u8>)>
    decreases entries.len(),
{
    if spec_table_size(entries) <= k {
        entries
    } else if entries.len() == 0 {
        entries
    } else {
        spec_shrink(entries.drop_last(), k)
    }
}

/// Shrinking keeps a front-order prefix of the entries and lands within
/// the new budget.
pub proof fn lemma_shrink_props(entries: Seq<(Seq<u8>, Seq<u8>)>, k: nat)
    ensures
        spec_shrink(entries, k).len() <= entries.len(),
        spec_shrink(entries, k) =~= entries.take(spec_shrink(entries, k).len() as int),
        spec_table_size(spec_shrink(entries, k)) <= k,
    decreases entries.len(),
{
    if spec_table_size(entries) <= k {
        assert(entries.take(entries.len() as int) =~= entries);
    } else if entries.len() == 0 {
    } else {
        lemma_shrink_props(entries.drop_last(), k);
        assert(entries.drop_last() =~= entries.take(entries.len() - 1));
        let r = spec_shrink(entries.drop_last(), k);
        assert(r.len() <= entries.len() - 1);
        assert(entries.take(entries.len() - 1).take(r.len() as int) =~= entries.take(
            r.len() as int,
        ));
    }
}

/// Entry `i` of the indexed address space: `1..=61` is the static table,
/// `62..` the dynamic table with the newest entry first.
pub open spec fn spec_lookup(entries: Seq<(Seq<u8>, Seq<u8>)>, i: int) -> Option<
    (Seq<u8>, Seq<u8>),
> {
    if 1 <= i <= 61 {
        Some((spec_static_name(i), spec_static_value(i)))
    } else if 62 <= i < 62 + entries.len() {
        Some(entries[i - 62])
    } else {
        None
    }
}

/// The first static address at or above `i` whose entry equals the pair.
pub open spec fn spec_scan_static_pair(i: int, name: Seq<u8>, value: Seq<u8>) -> Option<int>
    decreases 62 - i,
{
    if i < 1 || i > 61 {
        None
    } else if spec_static_name(i) == name && spec_static_value(i) == value {
        Some(i)
    } else {
        spec_scan_static_pair(i + 1, name, value)
    }
}

/// The first dynamic address at or above `62 + d` whose entry equals the
/// pair.
pub open spec fn spec_scan_dyn_pair(
    entries: Seq<(Seq<u8>, Seq<u8>)>,
    d: int,
    name: Seq<u8>,
    value: Seq<u8>,
) -> Option<int>
    decreases entries.len() - d,
{
    if d < 0 || d >= entries.len() {
        None
    } else if entries[d].0 == name && entries[d].1 == value {
        Some(62 + d)
    } else {
        spec_scan_dyn_pair(entries, d + 1, name, value)
    }
}

/// The address an exact lookup of the pair yields: the first static
/// match, a static entry always being preferred, else the first dynamic
/// match, else none.
pub open spec fn spec_find_pair(
    entries: Seq<(Seq<u8>, Seq<u8>)>,
    name: Seq<u8>,
    value: Seq<u8>,
) -> Option<int> {
    match spec_scan_static_pair(1, name, value) {
        Some(i) => Some(i),
        None => spec_scan_dyn_pair(entries, 0, name, value),
    }
}

/// The first static address at or above `i` whose entry carries the name.
pub open spec fn spec_scan_static_name(i: int, name: Seq<u8>) -> Option<int>
    decreases 62 - i,
{
    if i < 1 || i > 61 {
        None
    } else if spec_static_name(i) == name {
        Some(i)
    } else {
        spec_scan_static_name(i + 1, name)
    }
}

/// The first dynamic address at or above `62 + d` whose entry carries the
/// name.
pub open spec fn spec_scan_dyn_name(entries: Seq<(Seq<u8>, Seq<u8>)>, d: int, name: Seq<u8>) -> Option<int>
    decreases entries.len() - d,
{
    if d < 0 || d >= entries.len() {
        None
    } else if entries[d].0 == name {
        Some(62 + d)
    } else {
        spec_scan_dyn_name(entries, d + 1, name)
    }
}

/// The address a name lookup yields: static matches preferred, then the
/// first dynamic match.
pub open spec fn spec_find_name_at(entries: Seq<(Seq<u8>, Seq<u8>)>, name: Seq<u8>) -> Option<int> {
    match spec_scan_static_name(1, name) {
        Some(i) => Some(i),
        None => spec_scan_dyn_name(entries, 0, name),
    }
}

/// A shared compression context: the dynamic table (newest entry first)
/// and its size bookkeeping.
///
/// The well-formedness invariant ties the recorded size to the sum of the
/// entry sizes and keeps it within the budget at all times.
#[derive(Debug, Clone)]
pub struct HpackContext {
    dynamic_table: Vec<(Vec<u8>, Vec<u8>)>,
    dynamic_table_size: usize,
    max_dynamic_table_size: usize,
}

impl HpackContext {
    /// The dynamic table entries, newest first.
    pub closed spec fn entries(self) -> Seq<(Seq<u8>, Seq<u8>)> {
        self.dynamic_table@.map_values(|e: (Vec<u8>, Vec<u8>)| (e.0@, e.1@))
    }

    /// The current maximum table size in bytes.
    pub closed spec fn max_size(self) -> nat {
        self.max_dynamic_table_size as nat
    }

    /// The recorded current table size in bytes.
    pub closed spec fn size_field(self) -> nat {
        self.dynamic_table_size as nat
    }

    /// The recorded size equals the sum of the entry sizes and never
    /// exceeds the budget; the budget stays within the integer bound the
    /// wire format can carry.
    pub open spec fn wf(self) -> bool {
        &&& self.size_field() == spec_table_size(self.entries())
        &&& spec_table_size(self.entries()) <= self.max_size()
        &&& self.max_size() <= u32::MAX
    }

    /// An empty context with the given size budget.
    pub fn new(max_size: usize) -> (r: Self)
        requires
            max_size <= u32::MAX,
        ensures
            r.entries() =~= Seq::<(Seq<u8>, Seq<u8>)>::empty(),
            r.max_size() == max_size,
            r.wf(),
    {
        let r = HpackContext { dynamic_table: Vec::new(), dynamic_table_size: 0, max_dynamic_table_size: max_size };
        proof {
            assert(r.entries() =~= Seq::<(Seq<u8>, Seq<u8>)>::empty());
        }
        r
    }

    /// The current table size: always the sum of `len(name) + len(value)
    /// + 32` over the dynamic entries, by the context invariant.
    pub fn current_size(&self) -> (r: usize)
        requires
            self.wf(),
        ensures
            r == spec_table_size(self.entries()),
    {
        self.dynamic_table_size
    }

    /// The number of dynamic entries.
    pub fn dynamic_len(&self) -> (r: usize)
        ensures
            r == self.entries().len(),
    {
        self.dynamic_table.len()
    }

    /// The entry at index `i` of the address space, as owned bytes.
    pub fn entry_at(&self, i: usize) -> (r: Result<(Vec<u8>, Vec<u8>), HpackError>)
        ensures
            match spec_lookup(self.entries(), i as int) {
                Some(e) => r matches Ok(p) && p.0@ == e.0 && p.1@ == e.1,
                None => r == Err::<(Vec<u8>, Vec<u8>), HpackError>(HpackError::InvalidIndex),
            },
    {
        if 1 <= i && i <= 61 {
            let (n, v) = static_entry(i);
            let nb = n.as_bytes();
            let vb = v.as_bytes();
            Ok((crate::wire::copy_range(nb, 0, nb.len()), crate::wire::copy_range(vb, 0, vb.len())))
        } else if 62 <= i && i - 62 < self.dynamic_table.len() {
            let e = &self.dynamic_table[i - 62];
            let nb = e.0.as_slice();
            let vb = e.1.as_slice();
            Ok((crate::wire::copy_range(nb, 0, nb.len()), crate::wire::copy_range(vb, 0, vb.len())))
        } else {
            Err(HpackError::InvalidIndex)
        }
    }

    /// Inserts `(name, value)` at the front, evicting from the back as
    /// RFC 7541 section 4.4 prescribes.  An entry larger than the whole
    /// budget empties the table and stores nothing.
    pub fn add_header(&mut self, name: Vec<u8>, value: Vec<u8>)
        requires
            old(self).wf(),
            name@.len() + value@.len() + 32 <= usize::MAX,
        ensures
            final(self).wf(),
            final(self).max_size() == old(self).max_size(),
            final(self).entries() =~= spec_add(old(self).entries(), old(self).max_size(), name@, value@),
            name@.len() + value@.len() + 32 > old(self).max_size() ==> final(self).entries().len() == 0,
    {
        let entry_size: usize = name.len() + value.len() + 32;
        proof {
            lemma_table_size_len_bound(self.entries());
        }
        while entry_size > self.max_dynamic_table_size - self.dynamic_table_size
            && self.dynamic_table.len() > 0
            invariant
                self.wf(),
                name@.len() + value@.len() + 32 <= usize::MAX,
                entry_size == name@.len() + value@.len() + 32,
                self.max_dynamic_table_size == old(self).max_size(),
                spec_evict(old(self).entries(), entry_size as nat, old(self).max_size())
                    =~= spec_evict(self.entries(), entry_size as nat, old(self).max_size()),
            decreases self.dynamic_table@.len(),
        {
            let ghost pre = self.entries();
            let last = self.dynamic_table.pop().unwrap();
            proof {
                assert(self.entries() =~= pre.drop_last());
                assert(pre.last() == (last.0@, last.1@));
                assert(spec_table_size(pre) == spec_table_size(pre.drop_last()) + spec_entry_size(
                    pre.last(),
                ));
            }
            self.dynamic_table_size = self.dynamic_table_size - (last.0.len() + last.1.len() + 32);
        }
        if entry_size > self.max_dynamic_table_size {
            // the entry itself exceeds the budget: the table is emptied
            // and the entry is discarded
            proof {
                assert(self.entries().len() == 0);
                assert(self.entries() =~= Seq::<(Seq<u8>, Seq<u8>)>::empty());
            }
            return ;
        }
        let ghost evicted = self.entries();
        proof {
            assert(spec_evict(self.entries(), entry_size as nat, old(self).max_size())
                =~= self.entries());
            lemma_table_size_push_front((name@, value@), evicted);
        }
        self.dynamic_table.insert(0, (name, value));
        self.dynamic_table_size = self.dynamic_table_size + entry_size;
        proof {
            assert(self.entries() =~= seq![(name@, value@)] + evicted);
        }
    }

    /// Looks up an exact `(name, value)` pair: the first static match,
    /// a static entry always preferred over a dynamic one, else the
    /// first dynamic match.
    pub fn find_header(&self, name: &[u8], value: &[u8]) -> (r: Option<usize>)
        requires
            self.wf(),
        ensures
            match r {
                Some(i) => {
                    &&& spec_find_pair(self.entries(), name@, value@) == Some(i as int)
                    &&& spec_lookup(self.entries(), i as int) == Some((name@, value@))
                    &&& 62 <= i ==> forall|j: int|
                        1 <= j < 62 ==> spec_lookup(self.entries(), j) != Some((name@, value@))
                },
                None => {
                    &&& spec_find_pair(self.entries(), name@, value@) == None::<int>
                    &&& forall|j: int| spec_lookup(self.entries(), j) != Some((name@, value@))
                },
            },
    {
        let mut i: usize = 1;
        while i <= 61
            invariant
                1 <= i <= 62,
                forall|j: int|
                    1 <= j < i ==> spec_lookup(self.entries(), j) != Some((name@, value@)),
                spec_scan_static_pair(1, name@, value@) == spec_scan_static_pair(
                    i as int,
                    name@,
                    value@,
                ),
            decreases 62 - i,
        {
            let (n, v) = static_entry(i);
            if crate::wire::eq_bytes(name, n.as_bytes()) && crate::wire::eq_bytes(
                value,
                v.as_bytes(),
            ) {
                return Some(i);
            }
            i = i + 1;
        }
        let len = self.dynamic_table.len();
        proof {
            lemma_table_size_len_bound(self.entries());
        }
        let mut d: usize = 0;
        while d < len
            invariant
                len == self.entries().len(),
                len <= 0x800_0000,
                forall|j: int|
                    1 <= j < 62 + d ==> spec_lookup(self.entries(), j) != Some((name@, value@)),
                spec_scan_static_pair(1, name@, value@) == None::<int>,
                spec_scan_dyn_pair(self.entries(), 0, name@, value@) == spec_scan_dyn_pair(
                    self.entries(),
                    d as int,
                    name@,
                    value@,
                ),
            decreases len - d,
        {
            let e = &self.dynamic_table[d];
            if crate::wire::eq_bytes(name, e.0.as_slice()) && crate::wire::eq_bytes(
                value,
                e.1.as_slice(),
            ) {
                proof {
                    assert(self.entries()[d as int] == (e.0@, e.1@));
                }
                return Some(62 + d);
            }
            d = d + 1;
        }
        assert forall|j: int| spec_lookup(self.entries(), j) != Some((name@, value@)) by {
            if 1 <= j < 62 + self.entries().len() {
            }
        }
        None
    }

    /// Looks up a name: the first static match, a static entry always
    /// preferred over a dynamic one, else the first dynamic match.
    pub fn find_name(&self, name: &[u8]) -> (r: Option<usize>)
        requires
            self.wf(),
        ensures
            match r {
                Some(i) => {
                    &&& spec_find_name_at(self.entries(), name@) == Some(i as int)
                    &&& match spec_lookup(self.entries(), i as int) {
                        Some(e) => e.0 == name@,
                        None => false,
                    }
                },
                None => {
                    &&& spec_find_name_at(self.entries(), name@) == None::<int>
                    &&& forall|j: int|
                        #![trigger spec_lookup(self.entries(), j)]
                        match spec_lookup(self.entries(), j) {
                            Some(e) => e.0 != name@,
                            None => true,
                        }
                },
            },
    {
        let mut i: usize = 1;
        while i <= 61
            invariant
                1 <= i <= 62,
                forall|j: int|
                    #![auto]
                    1 <= j < i ==> spec_static_name(j) != name@,
                spec_scan_static_name(1, name@) == spec_scan_static_name(i as int, name@),
            decreases 62 - i,
        {
            let (n, _) = static_entry(i);
            if crate::wire::eq_bytes(name, n.as_bytes()) {
                return Some(i);
            }
            i = i + 1;
        }
        let len = self.dynamic_table.len();
        proof {
            lemma_table_size_len_bound(self.entries());
        }
        let mut d: usize = 0;
        while d < len
            invariant
                len == self.entries().len(),
                len <= 0x800_0000,
                forall|j: int| #![auto] 1 <= j < 62 ==> spec_static_name(j) != name@,
                forall|j: int| #![auto] 0 <= j < d ==> self.entries()[j].0 != name@,
                spec_scan_static_name(1, name@) == None::<int>,
                spec_scan_dyn_name(self.entries(), 0, name@) == spec_scan_dyn_name(
                    self.entries(),
                    d as int,
                    name@,
                ),
            decreases len - d,
        {
            let e = &self.dynamic_table[d];
            if crate::wire::eq_bytes(name, e.0.as_slice()) {
                proof {
                    assert(self.entries()[d as int] == (e.0@, e.1@));
                }
                return Some(62 + d);
            }
            d = d + 1;
        }
        assert forall|j: int| #![trigger spec_lookup(self.entries(), j)]
            match spec_lookup(self.entries(), j) {
                Some(e) => e.0 != name@,
                None => true,
            } by {
            if 1 <= j < 62 {
            } else if 62 <= j < 62 + self.entries().len() {
                assert(self.entries()[j - 62].0 != name@);
            }
        }
        None
    }

    /// Sets a new size budget, evicting from the back until the current
    /// size fits.  The surviving entries are a front-order prefix of the
    /// old ones.
    pub fn resize(&mut self, new_size: usize)
        requires
            old(self).wf(),
            new_size <= u32::MAX,
        ensures
            final(self).wf(),
            final(self).max_size() == new_size,
            final(self).entries() =~= spec_shrink(old(self).entries(), new_size as nat),
            spec_table_size(final(self).entries()) <= new_size,
            final(self).entries() =~= old(self).entries().take(final(self).entries().len() as int),
    {
        while self.dynamic_table_size > new_size
            invariant
                self.wf(),
                spec_shrink(old(self).entries(), new_size as nat) =~= spec_shrink(
                    self.entries(),
                    new_size as nat,
                ),
            decreases self.dynamic_table@.len(),
        {
            let ghost pre = self.entries();
            proof {
                assert(pre.len() > 0);
            }
            let last = self.dynamic_table.pop().unwrap();
            proof {
                assert(self.entries() =~= pre.drop_last());
                assert(pre.last() == (last.0@, last.1@));
                assert(spec_table_size(pre) == spec_table_size(pre.drop_last()) + spec_entry_size(
                    pre.last(),
                ));
            }
            self.dynamic_table_size = self.dynamic_table_size - (last.0.len() + last.1.len() + 32);
        }
        self.max_dynamic_table_size = new_size;
        proof {
            assert(spec_shrink(self.entries(), new_size as nat) =~= self.entries());
            lemma_shrink_props(old(self).entries(), new_size as nat);
        }
    }
}


/// What `httlib_huffman::encode` produces for the given bytes.  The fixed
/// HTTP/2 Huffman code makes the result a function of the input alone.
pub uninterp spec fn huffman_bytes(s: Seq<u8>) -> Seq<u8>;

/// What `httlib_huffman::decode` produces for the given bytes: the
/// decoded text, or nothing when the input is not a valid Huffman
/// sequence.  A function of the input alone.
pub uninterp spec fn huffman_text(s: Seq<u8>) -> Option<Seq<u8>>;

/// Relies on `httlib_huffman::encode`: it appends the Huffman coding of
/// `src` to its destination, determined by `src` alone; an empty input
/// appends nothing.
#[verifier::external_body]
fn huffman_encode_trusted(src: &[u8]) -> (r: Vec<u8>)
    ensures
        r@ == huffman_bytes(src@),
        src@.len() == 0 ==> r@.len() == 0,
{
    let mut dst = Vec::new();
    match httlib_huffman::encode(src, &mut dst) {
        Ok(()) => dst,
        Err(_) => dst,
    }
}

/// Relies on `httlib_huffman::decode`: it decodes a Huffman sequence or
/// reports an invalid one, determined by the input alone.
#[verifier::external_body]
fn huffman_decode_trusted(src: &[u8]) -> (r: Result<Vec<u8>, HpackError>)
    ensures
        match r {
            Ok(v) => huffman_text(src@) == Some(v@),
            Err(e) => {
                &&& huffman_text(src@) == None::<Seq<u8>>
                &&& e == HpackError::HuffmanDecodingError
            },
        },
{
    let mut dst = Vec::new();
    match httlib_huffman::decode(src, &mut dst, httlib_huffman::DecoderSpeed::FiveBits) {
        Ok(()) => Ok(dst),
        Err(_) => Err(HpackError::HuffmanDecodingError),
    }
}

/// The wire form of a string: a 7-bit-prefix length whose spare high bit
/// flags Huffman coding, then the octets.
pub open spec fn spec_string(s: Seq<u8>, huffman: bool) -> Seq<u8> {
    if huffman {
        let h = huffman_bytes(s);
        seq![(spec_int(h.len(), 7)[0] + 128) as u8] + spec_int(h.len(), 7).skip(1) + h
    } else {
        spec_int(s.len(), 7) + s
    }
}

/// Reads a length-prefixed, optionally Huffman-coded string: the octets
/// and the count of bytes consumed, or the error the data forces.
pub open spec fn spec_string_decode(data: Seq<u8>) -> Result<(Seq<u8>, nat), HpackError> {
    match spec_int_decode(data, 7) {
        None => Err(HpackError::InvalidIntegerEncoding),
        Some((len, off)) => if len > u32::MAX {
            Err(HpackError::InvalidIntegerEncoding)
        } else if off + len > data.len() {
            Err(HpackError::InvalidStringEncoding)
        } else {
            let sl = data.subrange(off as int, (off + len) as int);
            if data[0] >= 128 {
                match huffman_text(sl) {
                    Some(t) => Ok((t, (off + len) as nat)),
                    None => Err(HpackError::HuffmanDecodingError),
                }
            } else {
                Ok((sl, (off + len) as nat))
            }
        },
    }
}

/// Encodes a string, optionally through the Huffman code.
pub fn encode_string(s: &[u8], use_huffman: bool) -> (r: Result<Vec<u8>, HpackError>)
    ensures
        r matches Ok(v) && v@ =~= spec_string(s@, use_huffman),
{
    let mut out: Vec<u8>;
    if use_huffman {
        let h = huffman_encode_trusted(s);
        let len_bytes = encode_integer(h.len(), 7);
        out = Vec::new();
        out.push(len_bytes[0] + 128);
        let mut i: usize = 1;
        while i < len_bytes.len()
            invariant
                1 <= i <= len_bytes@.len(),
                out@ =~= seq![(len_bytes@[0] + 128) as u8] + len_bytes@.subrange(1, i as int),
            decreases len_bytes@.len() - i,
        {
            out.push(len_bytes[i]);
            i = i + 1;
        }
        proof {
            assert(len_bytes@.subrange(1, len_bytes@.len() as int) =~= len_bytes@.skip(1));
        }
        let mut j: usize = 0;
        let ghost head = out@;
        while j < h.len()
            invariant
                j <= h@.len(),
                out@ =~= head + h@.subrange(0, j as int),
            decreases h@.len() - j,
        {
            out.push(h[j]);
            j = j + 1;
        }
        proof {
            assert(h@.subrange(0, h@.len() as int) =~= h@);
        }
    } else {
        out = encode_integer(s.len(), 7);
        let ghost head = out@;
        let mut j: usize = 0;
        while j < s.len()
            invariant
                j <= s@.len(),
                out@ =~= head + s@.subrange(0, j as int),
            decreases s@.len() - j,
        {
            out.push(s[j]);
            j = j + 1;
        }
        proof {
            assert(s@.subrange(0, s@.len() as int) =~= s@);
        }
    }
    Ok(out)
}

/// Reads a length-prefixed, optionally Huffman-coded string.
pub fn decode_string(data: &[u8]) -> (r: Result<(Vec<u8>, usize), HpackError>)
    ensures
        match r {
            Ok((v, c)) => {
                &&& spec_string_decode(data@) == Ok::<(Seq<u8>, nat), HpackError>((v@, c as nat))
                &&& 1 <= c <= data@.len()
            },
            Err(e) => spec_string_decode(data@) == Err::<(Seq<u8>, nat), HpackError>(e),
        },
{
    let (length, off) = match decode_integer(data, 7) {
        Ok(p) => p,
        Err(e) => {
            return Err(e);
        },
    };
    if length > data.len() - off {
        return Err(HpackError::InvalidStringEncoding);
    }
    let slice = crate::wire::copy_range(data, off, off + length);
    if data[0] >= 128 {
        match huffman_decode_trusted(slice.as_slice()) {
            Ok(t) => Ok((t, off + length)),
            Err(e) => Err(e),
        }
    } else {
        Ok((slice, off + length))
    }
}


/// A context as the header block codec sees it: the dynamic entries and
/// the size budget.
#[verifier::ext_equal]
pub struct HpackState {
    pub entries: Seq<(Seq<u8>, Seq<u8>)>,
    pub max: nat,
}

impl HpackState {
    pub open spec fn wf(self) -> bool {
        &&& spec_table_size(self.entries) <= self.max
        &&& self.max <= u32::MAX
    }
}

impl HpackContext {
    /// The context at the level of views.
    pub open spec fn state(self) -> HpackState {
        HpackState { entries: self.entries(), max: self.max_size() }
    }
}

/// The state after inserting an entry.
pub open spec fn spec_state_add(st: HpackState, name: Seq<u8>, value: Seq<u8>) -> HpackState {
    HpackState { entries: spec_add(st.entries, st.max, name, value), max: st.max }
}

/// The state after a dynamic table size update.
pub open spec fn spec_state_resize(st: HpackState, k: nat) -> HpackState {
    HpackState { entries: spec_shrink(st.entries, k), max: k }
}

/// Reads one literal representation under `p` prefix bits: the name (by
/// index or inline), then the value; with incremental indexing the pair
/// also enters the dynamic table.
pub open spec fn spec_dec_literal(data: Seq<u8>, st: HpackState, p: u8, index_it: bool) -> Result<
    (Option<(Seq<u8>, Seq<u8>)>, nat, HpackState),
    HpackError,
> {
    match spec_int_decode(data, p) {
        None => Err(HpackError::InvalidIntegerEncoding),
        Some((i, c)) => if i > u32::MAX {
            Err(HpackError::InvalidIntegerEncoding)
        } else {
            let name_r = if i == 0 {
                spec_string_decode(data.skip(c as int))
            } else {
                match spec_lookup(st.entries, i as int) {
                    None => Err(HpackError::InvalidIndex),
                    Some(e) => Ok((e.0, 0)),
                }
            };
            match name_r {
                Err(e) => Err(e),
                Ok((n, c2)) => match spec_string_decode(data.skip((c + c2) as int)) {
                    Err(e) => Err(e),
                    Ok((v, c3)) => if n.len() + v.len() + 32 > usize::MAX {
                        Err(HpackError::InvalidStringEncoding)
                    } else {
                        Ok(
                            (
                                Some((n, v)),
                                (c + c2 + c3) as nat,
                                if index_it {
                                    spec_state_add(st, n, v)
                                } else {
                                    st
                                },
                            ),
                        )
                    },
                },
            }
        },
    }
}

/// Reads one representation: an indexed header, a literal, or a table
/// size update.  Returns the header emitted (none for a size update),
/// the count of bytes consumed, and the context that results.
pub open spec fn spec_dec_one(data: Seq<u8>, st: HpackState) -> Result<
    (Option<(Seq<u8>, Seq<u8>)>, nat, HpackState),
    HpackError,
>
    recommends
        data.len() >= 1,
{
    let b = data[0];
    if b >= 128 {
        match spec_int_decode(data, 7) {
            None => Err(HpackError::InvalidIntegerEncoding),
            Some((i, c)) => if i > u32::MAX {
                Err(HpackError::InvalidIntegerEncoding)
            } else {
                match spec_lookup(st.entries, i as int) {
                    None => Err(HpackError::InvalidIndex),
                    Some(e) => Ok((Some(e), c, st)),
                }
            },
        }
    } else if b >= 64 {
        spec_dec_literal(data, st, 6, true)
    } else if b >= 32 {
        match spec_int_decode(data, 5) {
            None => Err(HpackError::InvalidIntegerEncoding),
            Some((k, c)) => if k > u32::MAX {
                Err(HpackError::InvalidIntegerEncoding)
            } else {
                Ok((None, c, spec_state_resize(st, k)))
            },
        }
    } else {
        spec_dec_literal(data, st, 4, false)
    }
}

/// Reads a whole header block: the headers in order and the context that
/// results.  A table size update emits no header.
pub open spec fn spec_decode_block(data: Seq<u8>, st: HpackState) -> Result<
    (Seq<(Seq<u8>, Seq<u8>)>, HpackState),
    HpackError,
>
    decreases data.len(),
{
    if data.len() == 0 {
        Ok((Seq::empty(), st))
    } else {
        match spec_dec_one(data, st) {
            Err(e) => Err(e),
            Ok((h, c, st2)) => if c < 1 || c > data.len() {
                Err(HpackError::InvalidIntegerEncoding)
            } else {
                match spec_decode_block(data.skip(c as int), st2) {
                    Err(e) => Err(e),
                    Ok((hs, st3)) => Ok(
                        (
                            match h {
                                Some(x) => seq![x] + hs,
                                None => hs,
                            },
                            st3,
                        ),
                    ),
                }
            },
        }
    }
}

/// The views of a list of owned header pairs.
pub open spec fn spec_view_pairs(s: Seq<(Vec<u8>, Vec<u8>)>) -> Seq<(Seq<u8>, Seq<u8>)> {
    s.map_values(|p: (Vec<u8>, Vec<u8>)| (p.0@, p.1@))
}

/// Copies a byte vector.
fn clone_bytes(v: &Vec<u8>) -> (r: Vec<u8>)
    ensures
        r@ == v@,
{
    let r = crate::wire::copy_range(v.as_slice(), 0, v.len());
    proof {
        assert(r@ =~= v@);
    }
    r
}

/// Reads one literal representation, mirroring `spec_dec_literal`.
fn dec_literal(data: &[u8], context: &mut HpackContext, prefix: u8, index_it: bool) -> (r: Result<
    ((Vec<u8>, Vec<u8>), usize),
    HpackError,
>)
    requires
        old(context).wf(),
        data@.len() >= 1,
        prefix == 4 || prefix == 6,
    ensures
        final(context).wf(),
        final(context).max_size() == old(context).max_size(),
        match r {
            Ok((h, c)) => {
                &&& spec_dec_literal(data@, old(context).state(), prefix, index_it) == Ok::<
                    _,
                    HpackError,
                >((Some((h.0@, h.1@)), c as nat, final(context).state()))
                &&& 1 <= c <= data@.len()
            },
            Err(e) => {
                &&& spec_dec_literal(data@, old(context).state(), prefix, index_it) == Err::<
                    (Option<(Seq<u8>, Seq<u8>)>, nat, HpackState),
                    _,
                >(e)
                &&& *final(context) == *old(context)
            },
        },
{
    let (i, c) = match decode_integer(data, prefix) {
        Ok(p) => p,
        Err(e) => {
            return Err(e);
        },
    };
    let (name, c2) = if i == 0 {
        let rest = vstd::slice::slice_subrange(data, c, data.len());
        proof {
            assert(rest@ =~= data@.skip(c as int));
        }
        match decode_string(rest) {
            Ok(p) => p,
            Err(e) => {
                return Err(e);
            },
        }
    } else {
        match context.entry_at(i) {
            Ok(e) => (e.0, 0),
            Err(e) => {
                return Err(e);
            },
        }
    };
    let rest2 = vstd::slice::slice_subrange(data, c + c2, data.len());
    proof {
        assert(rest2@ =~= data@.skip((c + c2) as int));
    }
    let (value, c3) = match decode_string(rest2) {
        Ok(p) => p,
        Err(e) => {
            return Err(e);
        },
    };
    if name.len() > usize::MAX - 32 || value.len() > usize::MAX - 32 - name.len() {
        return Err(HpackError::InvalidStringEncoding);
    }
    if index_it {
        let n2 = clone_bytes(&name);
        let v2 = clone_bytes(&value);
        context.add_header(n2, v2);
        proof {
            assert(final(context).state() =~= spec_state_add(
                old(context).state(),
                name@,
                value@,
            ));
        }
    }
    Ok(((name, value), c + c2 + c3))
}

/// Reads one representation, mirroring `spec_dec_one`.
fn dec_one(data: &[u8], context: &mut HpackContext) -> (r: Result<
    (Option<(Vec<u8>, Vec<u8>)>, usize),
    HpackError,
>)
    requires
        old(context).wf(),
        data@.len() >= 1,
    ensures
        final(context).wf(),
        match r {
            Ok((h, c)) => {
                &&& spec_dec_one(data@, old(context).state()) == Ok::<_, HpackError>(
                    (
                        match h {
                            Some(p) => Some((p.0@, p.1@)),
                            None => None,
                        },
                        c as nat,
                        final(context).state(),
                    ),
                )
                &&& 1 <= c <= data@.len()
            },
            Err(e) => spec_dec_one(data@, old(context).state()) == Err::<
                (Option<(Seq<u8>, Seq<u8>)>, nat, HpackState),
                _,
            >(e),
        },
{
    let b = data[0];
    if b >= 128 {
        let (i, c) = match decode_integer(data, 7) {
            Ok(p) => p,
            Err(e) => {
                return Err(e);
            },
        };
        match context.entry_at(i) {
            Ok(e) => Ok((Some(e), c)),
            Err(e) => Err(e),
        }
    } else if b >= 64 {
        match dec_literal(data, context, 6, true) {
            Ok((h, c)) => Ok((Some(h), c)),
            Err(e) => Err(e),
        }
    } else if b >= 32 {
        let (k, c) = match decode_integer(data, 5) {
            Ok(p) => p,
            Err(e) => {
                return Err(e);
            },
        };
        context.resize(k);
        proof {
            assert(final(context).state() =~= spec_state_resize(old(context).state(), k as nat));
        }
        Ok((None, c))
    } else {
        match dec_literal(data, context, 4, false) {
            Ok((h, c)) => Ok((Some(h), c)),
            Err(e) => Err(e),
        }
    }
}

/// Interprets a whole header block against the context, returning the
/// headers in order and the sum of their sizes, `len(name) + len(value)
/// + 32` each (saturating at the integer bound).
#[verifier::rlimit(100)]
pub fn decode_headers(data: &[u8], context: &mut HpackContext) -> (r: Result<
    (Vec<(Vec<u8>, Vec<u8>)>, usize),
    HpackError,
>)
    requires
        old(context).wf(),
    ensures
        final(context).wf(),
        match r {
            Ok((hs, sz)) => {
                &&& spec_decode_block(data@, old(context).state()) == Ok::<_, HpackError>(
                    (spec_view_pairs(hs@), final(context).state()),
                )
                &&& spec_table_size(spec_view_pairs(hs@)) <= usize::MAX ==> sz
                    == spec_table_size(spec_view_pairs(hs@))
                &&& spec_table_size(spec_view_pairs(hs@)) > usize::MAX ==> sz == usize::MAX
            },
            Err(e) => spec_decode_block(data@, old(context).state()) == Err::<
                (Seq<(Seq<u8>, Seq<u8>)>, HpackState),
                _,
            >(e),
        },
{
    let ghost st0 = old(context).state();
    let mut headers: Vec<(Vec<u8>, Vec<u8>)> = Vec::new();
    let mut dsize: usize = 0;
    let mut offset: usize = 0;
    proof {
        assert(spec_view_pairs(headers@) =~= Seq::<(Seq<u8>, Seq<u8>)>::empty());
        assert(data@.skip(0) =~= data@);
    }
    while offset < data.len()
        invariant
            offset <= data@.len(),
            context.wf(),
            spec_decode_block(data@, st0) == (match spec_decode_block(
                data@.skip(offset as int),
                context.state(),
            ) {
                Ok((hs, stf)) => Ok::<_, HpackError>((spec_view_pairs(headers@) + hs, stf)),
                Err(e) => Err(e),
            }),
            spec_table_size(spec_view_pairs(headers@)) <= usize::MAX ==> dsize == spec_table_size(
                spec_view_pairs(headers@),
            ),
            spec_table_size(spec_view_pairs(headers@)) > usize::MAX ==> dsize == usize::MAX,
        decreases data@.len() - offset,
    {
        let rest = vstd::slice::slice_subrange(data, offset, data.len());
        proof {
            assert(rest@ =~= data@.skip(offset as int));
        }
        let ghost st_pre = context.state();
        let ghost hs_pre = headers@;
        let ghost dsize_pre = dsize;
        let step = dec_one(rest, context);
        match step {
            Err(e) => {
                return Err(e);
            },
            Ok((h, c)) => {
                let ghost hview: Option<(Seq<u8>, Seq<u8>)> = match h {
                    Some(ref p) => Some((p.0@, p.1@)),
                    None => None,
                };
                proof {
                    assert(data@.skip(offset as int).skip(c as int) =~= data@.skip(
                        offset + c as int,
                    ));
                }
                match h {
                    Some(p) => {
                        let nl = p.0.len();
                        let vl = p.1.len();
                        let ghost newv = (p.0@, p.1@);
                        headers.push(p);
                        proof {
                            assert(spec_view_pairs(headers@) =~= spec_view_pairs(hs_pre) + seq![
                                newv,
                            ]);
                            lemma_table_size_snoc(spec_view_pairs(hs_pre), newv);
                        }
                        if nl > usize::MAX - 32 || vl > usize::MAX - 32 - nl || dsize
                            > usize::MAX - (nl + vl + 32) {
                            dsize = usize::MAX;
                        } else {
                            dsize = dsize + (nl + vl + 32);
                        }
                    },
                    None => {},
                }
                offset = offset + c;
                proof {
                    match spec_decode_block(data@.skip(offset as int), context.state()) {
                        Ok((hs2, stf2)) => {
                            if let Some(x) = hview {
                                assert(spec_view_pairs(hs_pre) + (seq![x] + hs2)
                                    =~= spec_view_pairs(headers@) + hs2);
                            }
                        },
                        Err(e2) => {},
                    }
                }
            },
        }
    }
    proof {
        assert(data@.skip(offset as int).len() == 0);
        assert(spec_decode_block(data@.skip(offset as int), context.state()) == Ok::<
            _,
            HpackError,
        >((Seq::<(Seq<u8>, Seq<u8>)>::empty(), context.state())));
        assert(spec_view_pairs(headers@) + Seq::<(Seq<u8>, Seq<u8>)>::empty() =~= spec_view_pairs(
            headers@,
        ));
    }
    Ok((headers, dsize))
}

/// Appending one entry adds its size.
pub proof fn lemma_table_size_snoc(s: Seq<(Seq<u8>, Seq<u8>)>, e: (Seq<u8>, Seq<u8>))
    ensures
        spec_table_size(s + seq![e]) == spec_table_size(s) + spec_entry_size(e),
{
    assert((s + seq![e]).drop_last() =~= s);
    assert((s + seq![e]).last() == e);
}


/// The first byte of a prefixed integer is the value or the full mask,
/// and stays below 128.
pub proof fn lemma_int_first_byte(v: nat, p: u8)
    requires
        1 <= p <= 7,
    ensures
        spec_int(v, p).len() >= 1,
        spec_int(v, p)[0] == if v < spec_prefix_mask(p) {
            v
        } else {
            spec_prefix_mask(p)
        },
        spec_int(v, p)[0] < 128,
{
}

/// A plain (un-Huffman-coded) string reads back as itself, with any
/// following bytes untouched.
pub proof fn lemma_string_round_trip(s: Seq<u8>, rest: Seq<u8>)
    requires
        s.len() <= u32::MAX,
    ensures
        spec_string_decode(spec_string(s, false) + rest) == Ok::<(Seq<u8>, nat), HpackError>(
            (s, spec_string(s, false).len() as nat),
        ),
        spec_string(s, false).len() >= 1,
{
    let l = s.len();
    let ib = spec_int(l, 7);
    lemma_int_round_trip(l, 7, s + rest);
    lemma_int_first_byte(l, 7);
    let d = spec_string(s, false) + rest;
    assert(d =~= ib + (s + rest));
    assert(d[0] == ib[0]);
    assert(spec_int_decode(d, 7) == Some((l, ib.len() as nat)));
    assert(d.subrange(ib.len() as int, (ib.len() + l) as int) =~= s);
}

/// The bytes of an indexed representation: the address under a 7-bit
/// prefix, the high bit set.
pub open spec fn spec_indexed_rep_bytes(i: nat) -> Seq<u8> {
    seq![(spec_int(i, 7)[0] + 128) as u8] + spec_int(i, 7).skip(1)
}

/// The bytes of a literal with incremental indexing whose name is the
/// entry at address `j`: the address under a 6-bit prefix with the `01`
/// pattern, then the value as a plain string.
pub open spec fn spec_name_indexed_rep_bytes(j: nat, value: Seq<u8>) -> Seq<u8> {
    seq![(spec_int(j, 6)[0] + 64) as u8] + spec_int(j, 6).skip(1) + spec_string(value, false)
}

/// The bytes of a literal with incremental indexing with a new name: the
/// `01` pattern byte with a zero name index, then both strings plain.
pub open spec fn spec_new_name_rep_bytes(name: Seq<u8>, value: Seq<u8>) -> Seq<u8> {
    seq![0x40u8] + spec_string(name, false) + spec_string(value, false)
}

/// The encoder strategy, byte for byte: an indexed representation when
/// the exact pair is in a table (the context unchanged), else a literal
/// with incremental indexing, the name by address when some entry
/// carries it and spelled out otherwise (the pair entering the dynamic
/// table).  The first of the pair is the emitted bytes, the second the
/// context that results.
pub open spec fn spec_enc_header(st: HpackState, name: Seq<u8>, value: Seq<u8>) -> (
    Seq<u8>,
    HpackState,
) {
    match spec_find_pair(st.entries, name, value) {
        Some(i) => (spec_indexed_rep_bytes(i as nat), st),
        None => (
            match spec_find_name_at(st.entries, name) {
                Some(j) => spec_name_indexed_rep_bytes(j as nat, value),
                None => spec_new_name_rep_bytes(name, value),
            },
            spec_state_add(st, name, value),
        ),
    }
}

/// The encoder strategy over a header list: the left-to-right
/// concatenation of the single-header encodings, the context threaded
/// through each.  An empty list emits nothing and leaves the context as
/// it was.
pub open spec fn spec_enc_block(hs: Seq<(Seq<u8>, Seq<u8>)>, st: HpackState) -> (
    Seq<u8>,
    HpackState,
)
    decreases hs.len(),
{
    if hs.len() == 0 {
        (Seq::empty(), st)
    } else {
        let first = spec_enc_header(st, hs[0].0, hs[0].1);
        let rest = spec_enc_block(hs.skip(1), first.1);
        (first.0 + rest.0, rest.1)
    }
}

/// Emits the indexed representation for a pair found at index `i`.
#[verifier::rlimit(100)]
fn enc_indexed_rep(i: usize, name: &[u8], value: &[u8], st: Ghost<HpackState>) -> (r: Vec<u8>)
    requires
        spec_lookup(st@.entries, i as int) == Some((name@, value@)),
        i <= u32::MAX,
    ensures
        r@.len() >= 1,
        r@ == spec_indexed_rep_bytes(i as nat),
        forall|rest: Seq<u8>| #![trigger spec_dec_one(r@ + rest, st@)]
            spec_dec_one(r@ + rest, st@) == Ok::<
                (Option<(Seq<u8>, Seq<u8>)>, nat, HpackState),
                HpackError,
            >((Some((name@, value@)), r@.len() as nat, st@)),
{
    let enc = encode_integer(i, 7);
    let mut out: Vec<u8> = Vec::new();
    out.push(enc[0] + 128);
    let mut k: usize = 1;
    while k < enc.len()
        invariant
            1 <= k <= enc@.len(),
            out@ =~= seq![(enc@[0] + 128) as u8] + enc@.subrange(1, k as int),
        decreases enc@.len() - k,
    {
        out.push(enc[k]);
        k = k + 1;
    }
    proof {
        assert(enc@.subrange(1, enc@.len() as int) =~= enc@.skip(1));
        assert(out@ =~= spec_indexed_rep_bytes(i as nat));
        lemma_int_first_byte(i as nat, 7);
        assert forall|rest: Seq<u8>| #![trigger spec_dec_one(out@ + rest, st@)]
            spec_dec_one(out@ + rest, st@) == Ok::<
                (Option<(Seq<u8>, Seq<u8>)>, nat, HpackState),
                HpackError,
            >((Some((name@, value@)), out@.len() as nat, st@)) by {
            let d = out@ + rest;
            assert(d =~= seq![(enc@[0] + 128) as u8] + (enc@.skip(1) + rest));
            assert(seq![enc@[0]] + (enc@.skip(1) + rest) =~= enc@ + rest);
            lemma_int_decode_high_bits(enc@[0], 128, enc@.skip(1) + rest, 7);
            lemma_int_round_trip(i as nat, 7, rest);
            assert(d[0] >= 128);
            assert(spec_int_decode(d, 7) == Some((i as nat, enc@.len() as nat)));
        }
    }
    out
}

/// A name-indexed literal representation reads back as its header,
/// whatever follows it.
#[verifier::rlimit(100)]
proof fn lemma_name_indexed_rep(
    j: nat,
    name: Seq<u8>,
    value: Seq<u8>,
    st: HpackState,
    out: Seq<u8>,
)
    requires
        1 <= j <= u32::MAX,
        match spec_lookup(st.entries, j as int) {
            Some(e) => e.0 == name,
            None => false,
        },
        name.len() + value.len() + 32 <= usize::MAX,
        value.len() <= u32::MAX,
        out =~= seq![(spec_int(j, 6)[0] + 64) as u8] + spec_int(j, 6).skip(1) + spec_string(
            value,
            false,
        ),
    ensures
        forall|rest: Seq<u8>| #![trigger spec_dec_one(out + rest, st)]
            spec_dec_one(out + rest, st) == Ok::<
                (Option<(Seq<u8>, Seq<u8>)>, nat, HpackState),
                HpackError,
            >((Some((name, value)), out.len() as nat, spec_state_add(st, name, value))),
{
    let enc = spec_int(j, 6);
    lemma_int_first_byte(j, 6);
    assert forall|rest: Seq<u8>| #![trigger spec_dec_one(out + rest, st)]
        spec_dec_one(out + rest, st) == Ok::<
            (Option<(Seq<u8>, Seq<u8>)>, nat, HpackState),
            HpackError,
        >((Some((name, value)), out.len() as nat, spec_state_add(st, name, value))) by {
        let d = out + rest;
        let tail1 = enc.skip(1) + (spec_string(value, false) + rest);
        assert(d =~= seq![(enc[0] + 64) as u8] + tail1);
        assert(seq![enc[0]] + tail1 =~= enc + (spec_string(value, false) + rest));
        lemma_int_decode_high_bits(enc[0], 64, tail1, 6);
        lemma_int_round_trip(j, 6, spec_string(value, false) + rest);
        assert(spec_int_decode(d, 6) == Some((j, enc.len() as nat)));
        assert(64 <= d[0] < 128);
        assert(d.skip(enc.len() as int) =~= spec_string(value, false) + rest);
        lemma_string_round_trip(value, rest);
        assert(spec_dec_literal(d, st, 6, true) == Ok::<
            (Option<(Seq<u8>, Seq<u8>)>, nat, HpackState),
            HpackError,
        >((Some((name, value)), out.len() as nat, spec_state_add(st, name, value))));
    }
}

/// Emits a literal with incremental indexing whose name is at index `j`.
#[verifier::rlimit(100)]
fn enc_name_indexed_rep(j: usize, name: &[u8], value: &[u8], st: Ghost<HpackState>) -> (r: Vec<
    u8,
>)
    requires
        1 <= j <= u32::MAX,
        match spec_lookup(st@.entries, j as int) {
            Some(e) => e.0 == name@,
            None => false,
        },
        name@.len() + value@.len() + 32 <= usize::MAX,
        value@.len() <= u32::MAX,
    ensures
        r@.len() >= 1,
        r@ == spec_name_indexed_rep_bytes(j as nat, value@),
        forall|rest: Seq<u8>| #![trigger spec_dec_one(r@ + rest, st@)]
            spec_dec_one(r@ + rest, st@) == Ok::<
                (Option<(Seq<u8>, Seq<u8>)>, nat, HpackState),
                HpackError,
            >((Some((name@, value@)), r@.len() as nat, spec_state_add(st@, name@, value@))),
{
    let enc = encode_integer(j, 6);
    let mut out: Vec<u8> = Vec::new();
    out.push(enc[0] + 64);
    let mut k: usize = 1;
    while k < enc.len()
        invariant
            1 <= k <= enc@.len(),
            out@ =~= seq![(enc@[0] + 64) as u8] + enc@.subrange(1, k as int),
        decreases enc@.len() - k,
    {
        out.push(enc[k]);
        k = k + 1;
    }
    proof {
        assert(enc@.subrange(1, enc@.len() as int) =~= enc@.skip(1));
    }
    let vs = match encode_string(value, false) {
        Ok(v) => v,
        Err(_) => Vec::new(),
    };
    let ghost head = out@;
    let mut k2: usize = 0;
    while k2 < vs.len()
        invariant
            k2 <= vs@.len(),
            out@ =~= head + vs@.subrange(0, k2 as int),
        decreases vs@.len() - k2,
    {
        out.push(vs[k2]);
        k2 = k2 + 1;
    }
    proof {
        assert(vs@.subrange(0, vs@.len() as int) =~= vs@);
        assert(out@ =~= seq![(enc@[0] + 64) as u8] + enc@.skip(1) + spec_string(value@, false));
        assert(out@ =~= spec_name_indexed_rep_bytes(j as nat, value@));
        lemma_name_indexed_rep(j as nat, name@, value@, st@, out@);
    }
    out
}

/// A new-name literal representation reads back as its header, whatever
/// follows it.
#[verifier::rlimit(100)]
proof fn lemma_new_name_rep(name: Seq<u8>, value: Seq<u8>, st: HpackState, out: Seq<u8>)
    requires
        name.len() <= u32::MAX,
        value.len() <= u32::MAX,
        name.len() + value.len() + 32 <= usize::MAX,
        out =~= seq![0x40u8] + spec_string(name, false) + spec_string(value, false),
    ensures
        forall|rest: Seq<u8>| #![trigger spec_dec_one(out + rest, st)]
            spec_dec_one(out + rest, st) == Ok::<
                (Option<(Seq<u8>, Seq<u8>)>, nat, HpackState),
                HpackError,
            >((Some((name, value)), out.len() as nat, spec_state_add(st, name, value))),
{
    assert forall|rest: Seq<u8>| #![trigger spec_dec_one(out + rest, st)]
        spec_dec_one(out + rest, st) == Ok::<
            (Option<(Seq<u8>, Seq<u8>)>, nat, HpackState),
            HpackError,
        >((Some((name, value)), out.len() as nat, spec_state_add(st, name, value))) by {
        let d = out + rest;
        let tail1 = spec_string(name, false) + (spec_string(value, false) + rest);
        assert(d =~= seq![0x40u8] + tail1);
        assert(spec_int_decode(d, 6) == Some((0nat, 1nat)));
        assert(d.skip(1) =~= spec_string(name, false) + (spec_string(value, false) + rest));
        lemma_string_round_trip(name, spec_string(value, false) + rest);
        let cn = spec_string(name, false).len();
        assert(d.skip(1 + cn as int) =~= spec_string(value, false) + rest);
        lemma_string_round_trip(value, rest);
        assert(spec_dec_literal(d, st, 6, true) == Ok::<
            (Option<(Seq<u8>, Seq<u8>)>, nat, HpackState),
            HpackError,
        >((Some((name, value)), out.len() as nat, spec_state_add(st, name, value))));
    }
}

/// Emits a literal with incremental indexing, the name spelled out.
#[verifier::rlimit(100)]
fn enc_new_name_rep(name: &[u8], value: &[u8], st: Ghost<HpackState>) -> (r: Vec<u8>)
    requires
        name@.len() <= u32::MAX,
        value@.len() <= u32::MAX,
        name@.len() + value@.len() + 32 <= usize::MAX,
    ensures
        r@.len() >= 1,
        r@ == spec_new_name_rep_bytes(name@, value@),
        forall|rest: Seq<u8>| #![trigger spec_dec_one(r@ + rest, st@)]
            spec_dec_one(r@ + rest, st@) == Ok::<
                (Option<(Seq<u8>, Seq<u8>)>, nat, HpackState),
                HpackError,
            >((Some((name@, value@)), r@.len() as nat, spec_state_add(st@, name@, value@))),
{
    let mut out: Vec<u8> = Vec::new();
    out.push(0x40);
    let ns = match encode_string(name, false) {
        Ok(v) => v,
        Err(_) => Vec::new(),
    };
    let ghost head1 = out@;
    let mut k: usize = 0;
    while k < ns.len()
        invariant
            k <= ns@.len(),
            out@ =~= head1 + ns@.subrange(0, k as int),
        decreases ns@.len() - k,
    {
        out.push(ns[k]);
        k = k + 1;
    }
    let vs = match encode_string(value, false) {
        Ok(v) => v,
        Err(_) => Vec::new(),
    };
    let ghost head2 = out@;
    let mut k2: usize = 0;
    while k2 < vs.len()
        invariant
            k2 <= vs@.len(),
            out@ =~= head2 + vs@.subrange(0, k2 as int),
        decreases vs@.len() - k2,
    {
        out.push(vs[k2]);
        k2 = k2 + 1;
    }
    proof {
        assert(ns@.subrange(0, ns@.len() as int) =~= ns@);
        assert(vs@.subrange(0, vs@.len() as int) =~= vs@);
        assert(out@ =~= seq![0x40u8] + spec_string(name@, false) + spec_string(value@, false));
        assert(out@ =~= spec_new_name_rep_bytes(name@, value@));
        lemma_new_name_rep(name@, value@, st@, out@);
    }
    out
}

/// Emits one header against the context, choosing an indexed form when
/// the pair or its name is already in a table, and a literal with
/// incremental indexing otherwise.
///
/// The contract pins the emitted bytes: they are exactly what the
/// strategy `spec_enc_header` gives, branch by branch, and the context
/// moves to the state that strategy gives (unchanged for an indexed
/// representation).  It also carries the round-trip law: whatever
/// follows it in a block, the emitted representation reads back as
/// exactly this header, and leaves a decoder's context in the same
/// state as this encoder's.
#[verifier::rlimit(100)]
pub fn encode_header(name: &[u8], value: &[u8], context: &mut HpackContext) -> (r: Vec<u8>)
    requires
        old(context).wf(),
        name@.len() <= u32::MAX,
        value@.len() <= u32::MAX,
        name@.len() + value@.len() + 32 <= usize::MAX,
    ensures
        final(context).wf(),
        final(context).max_size() == old(context).max_size(),
        r@.len() >= 1,
        r@ == spec_enc_header(old(context).state(), name@, value@).0,
        final(context).state() == spec_enc_header(old(context).state(), name@, value@).1,
        spec_find_pair(old(context).entries(), name@, value@) matches Some(_) ==> *final(context)
            == *old(context),
        forall|rest: Seq<u8>| #![trigger spec_dec_one(r@ + rest, old(context).state())]
            spec_dec_one(r@ + rest, old(context).state()) == Ok::<
                (Option<(Seq<u8>, Seq<u8>)>, nat, HpackState),
                HpackError,
            >((Some((name@, value@)), r@.len() as nat, final(context).state())),
{
    let ghost st0 = context.state();
    if let Some(i) = context.find_header(name, value) {
        proof {
            lemma_table_size_len_bound(context.entries());
        }
        let out = enc_indexed_rep(i, name, value, Ghost(st0));
        return out;
    }
    if let Some(j) = context.find_name(name) {
        proof {
            lemma_table_size_len_bound(context.entries());
        }
        let out = enc_name_indexed_rep(j, name, value, Ghost(st0));
        let n2 = crate::wire::copy_range(name, 0, name.len());
        let v2 = crate::wire::copy_range(value, 0, value.len());
        proof {
            assert(n2@ =~= name@);
            assert(v2@ =~= value@);
        }
        context.add_header(n2, v2);
        proof {
            assert(context.state() =~= spec_state_add(st0, name@, value@));
        }
        return out;
    }
    let out = enc_new_name_rep(name, value, Ghost(st0));
    let n2 = crate::wire::copy_range(name, 0, name.len());
    let v2 = crate::wire::copy_range(value, 0, value.len());
    proof {
        assert(n2@ =~= name@);
        assert(v2@ =~= value@);
    }
    context.add_header(n2, v2);
    proof {
        assert(context.state() =~= spec_state_add(st0, name@, value@));
    }
    out
}

/// Extending an emitted block by one representation extends what it
/// reads back as by one header.
#[verifier::spinoff_prover]
#[verifier::rlimit(100)]
proof fn lemma_block_step(
    out_pre: Seq<u8>,
    encv: Seq<u8>,
    st0: HpackState,
    st_mid: HpackState,
    st_next: HpackState,
    done: Seq<(Seq<u8>, Seq<u8>)>,
    h: (Seq<u8>, Seq<u8>),
)
    requires
        forall|rest: Seq<u8>| #![trigger spec_decode_block(out_pre + rest, st0)]
            spec_decode_block(out_pre + rest, st0) == (match spec_decode_block(rest, st_mid) {
                Ok((hs, stf)) => Ok::<(Seq<(Seq<u8>, Seq<u8>)>, HpackState), HpackError>(
                    (done + hs, stf),
                ),
                Err(e) => Err(e),
            }),
        forall|rest: Seq<u8>| #![trigger spec_dec_one(encv + rest, st_mid)]
            spec_dec_one(encv + rest, st_mid) == Ok::<
                (Option<(Seq<u8>, Seq<u8>)>, nat, HpackState),
                HpackError,
            >((Some(h), encv.len() as nat, st_next)),
        encv.len() >= 1,
    ensures
        forall|rest: Seq<u8>| #![trigger spec_decode_block((out_pre + encv) + rest, st0)]
            spec_decode_block((out_pre + encv) + rest, st0) == (match spec_decode_block(
                rest,
                st_next,
            ) {
                Ok((hs, stf)) => Ok::<(Seq<(Seq<u8>, Seq<u8>)>, HpackState), HpackError>(
                    ((done + seq![h]) + hs, stf),
                ),
                Err(e) => Err(e),
            }),
{
    assert forall|rest: Seq<u8>| #![trigger spec_decode_block((out_pre + encv) + rest, st0)]
        spec_decode_block((out_pre + encv) + rest, st0) == (match spec_decode_block(
            rest,
            st_next,
        ) {
            Ok((hs, stf)) => Ok::<(Seq<(Seq<u8>, Seq<u8>)>, HpackState), HpackError>(
                ((done + seq![h]) + hs, stf),
            ),
            Err(e) => Err(e),
        }) by {
        assert((out_pre + encv) + rest =~= out_pre + (encv + rest));
        assert(spec_decode_block(out_pre + (encv + rest), st0) == (match spec_decode_block(
            encv + rest,
            st_mid,
        ) {
            Ok((hs, stf)) => Ok::<(Seq<(Seq<u8>, Seq<u8>)>, HpackState), HpackError>(
                (done + hs, stf),
            ),
            Err(e) => Err(e),
        }));
        assert((encv + rest).len() >= 1);
        assert((encv + rest).skip(encv.len() as int) =~= rest);
        match spec_decode_block(rest, st_next) {
            Ok((hs, stf)) => {
                assert(spec_decode_block(encv + rest, st_mid) == Ok::<
                    (Seq<(Seq<u8>, Seq<u8>)>, HpackState),
                    HpackError,
                >((seq![h] + hs, stf)));
                assert(done + (seq![h] + hs) =~= (done + seq![h]) + hs);
            },
            Err(e) => {},
        }
    }
}

/// Emits a header list as one block.
///
/// The contract pins the emitted bytes: they are the left-to-right
/// concatenation of the single-header encodings with the context
/// threaded through each call, as `spec_enc_block` states (an empty
/// list emits nothing and leaves the context as it was).  It also
/// states the block round trip: interpreting the emitted bytes against
/// a context equal to this encoder's starting context yields exactly
/// the given headers and the same final context.
#[verifier::rlimit(100)]
pub fn encode_headers(headers: &[(Vec<u8>, Vec<u8>)], context: &mut HpackContext) -> (r: Vec<u8>)
    requires
        old(context).wf(),
        forall|k: int|
            0 <= k < headers@.len() ==> (#[trigger] headers@[k]).0@.len() <= u32::MAX
                && headers@[k].1@.len() <= u32::MAX && headers@[k].0@.len() + headers@[k].1@.len()
                + 32 <= usize::MAX,
    ensures
        final(context).wf(),
        r@ == spec_enc_block(spec_view_pairs(headers@), old(context).state()).0,
        final(context).state() == spec_enc_block(spec_view_pairs(headers@), old(context).state()).1,
        spec_decode_block(r@, old(context).state()) == Ok::<
            (Seq<(Seq<u8>, Seq<u8>)>, HpackState),
            HpackError,
        >((spec_view_pairs(headers@), final(context).state())),
{
    let ghost st0 = old(context).state();
    let ghost whole = spec_view_pairs(headers@);
    let mut out: Vec<u8> = Vec::new();
    let mut k: usize = 0;
    proof {
        assert forall|rest: Seq<u8>| #![trigger spec_decode_block(out@ + rest, st0)]
            spec_decode_block(out@ + rest, st0) == (match spec_decode_block(
                rest,
                context.state(),
            ) {
                Ok((hs, stf)) => Ok::<(Seq<(Seq<u8>, Seq<u8>)>, HpackState), HpackError>(
                    (spec_view_pairs(headers@.subrange(0, 0)) + hs, stf),
                ),
                Err(e) => Err(e),
            }) by {
            assert(out@ + rest =~= rest);
            match spec_decode_block(rest, context.state()) {
                Ok((hs, stf)) => {
                    assert(spec_view_pairs(headers@.subrange(0, 0)) + hs =~= hs);
                },
                Err(e) => {},
            }
        }
        assert(whole.skip(0) =~= whole);
        assert(out@ + spec_enc_block(whole, st0).0 =~= spec_enc_block(whole, st0).0);
    }
    while k < headers.len()
        invariant
            k <= headers@.len(),
            context.wf(),
            whole == spec_view_pairs(headers@),
            forall|t: int|
                0 <= t < headers@.len() ==> (#[trigger] headers@[t]).0@.len() <= u32::MAX
                    && headers@[t].1@.len() <= u32::MAX && headers@[t].0@.len()
                    + headers@[t].1@.len() + 32 <= usize::MAX,
            spec_enc_block(whole, st0).0 == out@ + spec_enc_block(
                whole.skip(k as int),
                context.state(),
            ).0,
            spec_enc_block(whole, st0).1 == spec_enc_block(
                whole.skip(k as int),
                context.state(),
            ).1,
            forall|rest: Seq<u8>| #![trigger spec_decode_block(out@ + rest, st0)]
                spec_decode_block(out@ + rest, st0) == (match spec_decode_block(
                    rest,
                    context.state(),
                ) {
                    Ok((hs, stf)) => Ok::<(Seq<(Seq<u8>, Seq<u8>)>, HpackState), HpackError>(
                        (spec_view_pairs(headers@.subrange(0, k as int)) + hs, stf),
                    ),
                    Err(e) => Err(e),
                }),
        decreases headers@.len() - k,
    {
        let ghost st_mid = context.state();
        let ghost out_pre = out@;
        let h = &headers[k];
        let mut enc = encode_header(h.0.as_slice(), h.1.as_slice(), context);
        let ghost encv = enc@;
        out.append(&mut enc);
        proof {
            lemma_block_step(
                out_pre,
                encv,
                st0,
                st_mid,
                context.state(),
                spec_view_pairs(headers@.subrange(0, k as int)),
                (h.0@, h.1@),
            );
            assert(spec_view_pairs(headers@.subrange(0, k + 1)) =~= spec_view_pairs(
                headers@.subrange(0, k as int),
            ) + seq![(h.0@, h.1@)]);
            assert(out@ == out_pre + encv);
            assert(whole.skip(k as int).len() > 0);
            assert(whole.skip(k as int)[0] == (h.0@, h.1@));
            assert(whole.skip(k as int).skip(1) =~= whole.skip(k + 1));
            assert(encv == spec_enc_header(st_mid, h.0@, h.1@).0);
            assert(out_pre + (encv + spec_enc_block(whole.skip(k + 1), context.state()).0) =~= (
            out_pre + encv) + spec_enc_block(whole.skip(k + 1), context.state()).0);
        }
        k = k + 1;
    }
    proof {
        assert(out@ + Seq::<u8>::empty() =~= out@);
        assert(spec_decode_block(Seq::<u8>::empty(), context.state()) == Ok::<
            (Seq<(Seq<u8>, Seq<u8>)>, HpackState),
            HpackError,
        >((Seq::<(Seq<u8>, Seq<u8>)>::empty(), context.state())));
        assert(spec_view_pairs(headers@.subrange(0, k as int)) + Seq::<(Seq<u8>, Seq<u8>)>::empty()
            =~= spec_view_pairs(headers@));
        assert(whole.skip(k as int).len() == 0);
        assert(out@ + spec_enc_block(whole.skip(k as int), context.state()).0 =~= out@);
    }
    out
}

/// An opaque header block fragment: the encoded bytes of zero or more
/// representations.
#[derive(Debug, Clone)]
pub struct Hpack {
    encoded: Vec<u8>,
}

impl Hpack {
    /// The encoded bytes held.
    pub closed spec fn bytes(self) -> Seq<u8> {
        self.encoded@
    }

    /// An empty fragment.
    pub fn new() -> (r: Self)
        ensures
            r.bytes() =~= Seq::<u8>::empty(),
    {
        Hpack { encoded: Vec::new() }
    }

    /// Wraps already-encoded bytes.
    pub fn from_bytes(data: Vec<u8>) -> (r: Self)
        ensures
            r.bytes() == data@,
    {
        Hpack { encoded: data }
    }

    /// Hands the encoded bytes out.
    pub fn into_bytes(self) -> (r: Vec<u8>)
        ensures
            r@ == self.bytes(),
    {
        self.encoded
    }

    /// Replaces the fragment with the encoding of `headers` against the
    /// context and exposes the bytes.
    pub fn encode(&mut self, headers: &[(Vec<u8>, Vec<u8>)], context: &mut HpackContext) -> (r:
        &[u8])
        requires
            old(context).wf(),
            forall|k: int|
                0 <= k < headers@.len() ==> (#[trigger] headers@[k]).0@.len() <= u32::MAX
                    && headers@[k].1@.len() <= u32::MAX && headers@[k].0@.len()
                    + headers@[k].1@.len() + 32 <= usize::MAX,
        ensures
            final(context).wf(),
            r@ == final(self).bytes(),
            final(self).bytes() == spec_enc_block(spec_view_pairs(headers@), old(context).state()).0,
            final(context).state() == spec_enc_block(
                spec_view_pairs(headers@),
                old(context).state(),
            ).1,
            spec_decode_block(final(self).bytes(), old(context).state()) == Ok::<
                (Seq<(Seq<u8>, Seq<u8>)>, HpackState),
                HpackError,
            >((spec_view_pairs(headers@), final(context).state())),
    {
        self.encoded = encode_headers(headers, context);
        self.encoded.as_slice()
    }

    /// Interprets the fragment against the context.
    pub fn decode(&mut self, context: &mut HpackContext) -> (r: Result<
        (Vec<(Vec<u8>, Vec<u8>)>, usize),
        HpackError,
    >)
        requires
            old(context).wf(),
        ensures
            final(context).wf(),
            *final(self) == *old(self),
            match r {
                Ok((hs, sz)) => spec_decode_block(old(self).bytes(), old(context).state()) == Ok::<
                    _,
                    HpackError,
                >((spec_view_pairs(hs@), final(context).state())),
                Err(e) => spec_decode_block(old(self).bytes(), old(context).state()) == Err::<
                    (Seq<(Seq<u8>, Seq<u8>)>, HpackState),
                    _,
                >(e),
            },
    {
        decode_headers(self.encoded.as_slice(), context)
    }

    /// A copy of the encoded bytes.
    pub fn to_vec(&self) -> (r: Vec<u8>)
        ensures
            r@ == self.bytes(),
    {
        let r = crate::wire::copy_range(self.encoded.as_slice(), 0, self.encoded.len());
        proof {
            assert(r@ =~= self.encoded@);
        }
        r
    }

    /// The length of the encoded fragment.
    pub fn encoded_size(&self) -> (r: usize)
        ensures
            r == self.bytes().len(),
    {
        self.encoded.len()
    }
}

impl crate::wire::Len for Hpack {
    open spec fn spec_len(&self) -> nat {
        self.bytes().len()
    }

    open spec fn len_ok(&self) -> bool {
        true
    }

    fn binary_len(&self) -> (r: usize) {
        self.encoded.len()
    }
}

} // verus!





