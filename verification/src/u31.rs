//! A 31-bit unsigned integer with a big-endian four-byte wire form.
//!
//! On the HTTP/2 wire the value travels in 32 bits whose high bit is
//! reserved; parsing discards that bit and the frame encoder re-inserts it
//! on request.
use vstd::prelude::*;

verus! {

/// The first value that does not fit in 31 bits.
pub const U31_LIMIT: u32 = 0x8000_0000;

/// Big-endian four-byte form of a 32-bit value.
pub open spec fn spec_be4(v: u32) -> Seq<u8> {
    seq![
        (v / 0x100_0000) as u8,
        ((v / 0x10000) % 0x100) as u8,
        ((v / 0x100) % 0x100) as u8,
        (v % 0x100) as u8,
    ]
}

/// The value read from four big-endian bytes.
pub open spec fn spec_from_be4(s: Seq<u8>) -> u32
    recommends
        s.len() == 4,
{
    (s[0] * 0x100_0000 + s[1] * 0x10000 + s[2] * 0x100 + s[3]) as u32
}

/// An unsigned integer in `[0, 2^31)`.  Arithmetic wraps at 31 bits.
#[allow(non_camel_case_types)]
#[derive(Debug, Clone, Copy)]
pub struct u31 {
    value: u32,
}

impl u31 {
    /// The numeric value held.
    pub closed spec fn spec_value(self) -> u32 {
        self.value
    }

    /// Every constructor keeps the value below `U31_LIMIT`.
    pub open spec fn wf(self) -> bool {
        self.spec_value() < 0x8000_0000
    }

    /// Wraps `value` to 31 bits.
    pub fn new(value: u32) -> (r: Self)
        ensures
            r.spec_value() == value % 0x8000_0000,
            r.wf(),
    {
        u31 { value: value % U31_LIMIT }
    }

    pub fn to_u32(self) -> (r: u32)
        ensures
            r == self.spec_value(),
    {
        self.value
    }

    /// Big-endian wire form; the reserved high bit is emitted as zero.
    pub fn to_bytes(self) -> (r: [u8; 4])
        requires
            self.wf(),
        ensures
            r@ =~= spec_be4(self.spec_value()),
    {
        [
            (self.value / 0x100_0000) as u8,
            ((self.value / 0x10000) % 0x100) as u8,
            ((self.value / 0x100) % 0x100) as u8,
            (self.value % 0x100) as u8,
        ]
    }

    /// Reads the big-endian wire form, discarding the reserved high bit.
    pub fn from_bytes(value: [u8; 4]) -> (r: Self)
        ensures
            r.spec_value() == spec_from_be4(value@) % 0x8000_0000,
            r.wf(),
    {
        let raw: u32 = (value[0] as u32) * 0x100_0000 + (value[1] as u32) * 0x10000 + (
        value[2] as u32) * 0x100 + (value[3] as u32);
        u31 { value: raw % U31_LIMIT }
    }

    /// Sum, wrapped to 31 bits.
    pub fn wrapping_add(self, other: Self) -> (r: Self)
        requires
            self.wf(),
            other.wf(),
        ensures
            r.spec_value() == (self.spec_value() + other.spec_value()) % 0x8000_0000,
            r.wf(),
    {
        u31 { value: (self.value + other.value) % U31_LIMIT }
    }

    /// Difference, wrapped to 31 bits.
    pub fn wrapping_sub(self, other: Self) -> (r: Self)
        requires
            self.wf(),
            other.wf(),
        ensures
            r.spec_value() == (self.spec_value() + 0x8000_0000 - other.spec_value()) % 0x8000_0000,
            r.wf(),
    {
        u31 { value: ((self.value + U31_LIMIT) - other.value) % U31_LIMIT }
    }

    /// Product, wrapped to 31 bits.
    pub fn wrapping_mul(self, other: Self) -> (r: Self)
        ensures
            r.spec_value() == (self.spec_value() * other.spec_value()) % 0x8000_0000,
            r.wf(),
    {
        let a: u64 = self.value as u64;
        let b: u64 = other.value as u64;
        assert(a * b <= 0xFFFF_FFFE_0000_0001) by (nonlinear_arith)
            requires
                a < 0x1_0000_0000,
                b < 0x1_0000_0000,
        ;
        u31 { value: ((a * b) % 0x8000_0000) as u32 }
    }

    /// Quotient; the divisor must be nonzero.
    pub fn div(self, other: Self) -> (r: Self)
        requires
            self.wf(),
            other.spec_value() != 0,
        ensures
            r.spec_value() == self.spec_value() / other.spec_value(),
            r.wf(),
    {
        assert(self.value / other.value <= self.value) by (nonlinear_arith)
            requires
                other.value >= 1,
        ;
        u31 { value: self.value / other.value }
    }

    /// Remainder; the divisor must be nonzero.
    pub fn rem(self, other: Self) -> (r: Self)
        requires
            self.wf(),
            other.spec_value() != 0,
        ensures
            r.spec_value() == self.spec_value() % other.spec_value(),
            r.wf(),
    {
        assert(self.value % other.value <= self.value) by (nonlinear_arith)
            requires
                other.value >= 1,
        ;
        u31 { value: self.value % other.value }
    }

    /// Bitwise and.
    pub fn bitand(self, other: Self) -> (r: Self)
        requires
            self.wf(),
            other.wf(),
        ensures
            r.spec_value() == self.spec_value() & other.spec_value(),
            r.wf(),
    {
        let a: u32 = self.value;
        let b: u32 = other.value;
        let v: u32 = a & b;
        assert(v < 0x8000_0000) by (bit_vector)
            requires
                v == a & b,
                a < 0x8000_0000,
        ;
        u31 { value: v }
    }

    /// Bitwise or.
    pub fn bitor(self, other: Self) -> (r: Self)
        requires
            self.wf(),
            other.wf(),
        ensures
            r.spec_value() == self.spec_value() | other.spec_value(),
            r.wf(),
    {
        let a: u32 = self.value;
        let b: u32 = other.value;
        let v: u32 = a | b;
        assert(v < 0x8000_0000) by (bit_vector)
            requires
                v == a | b,
                a < 0x8000_0000,
                b < 0x8000_0000,
        ;
        u31 { value: v }
    }

    /// Bitwise exclusive or.
    pub fn bitxor(self, other: Self) -> (r: Self)
        requires
            self.wf(),
            other.wf(),
        ensures
            r.spec_value() == self.spec_value() ^ other.spec_value(),
            r.wf(),
    {
        let a: u32 = self.value;
        let b: u32 = other.value;
        let v: u32 = a ^ b;
        assert(v < 0x8000_0000) by (bit_vector)
            requires
                v == a ^ b,
                a < 0x8000_0000,
                b < 0x8000_0000,
        ;
        u31 { value: v }
    }

    /// Bitwise complement within 31 bits.
    pub fn not(self) -> (r: Self)
        requires
            self.wf(),
        ensures
            r.spec_value() == !self.spec_value() & 0x7FFF_FFFF,
            r.wf(),
    {
        let a: u32 = self.value;
        let v: u32 = !a & 0x7FFF_FFFF;
        assert(v < 0x8000_0000) by (bit_vector)
            requires
                v == !a & 0x7FFF_FFFF,
        ;
        u31 { value: v }
    }

    /// Left shift, wrapped to 31 bits.
    pub fn shl(self, rhs: u32) -> (r: Self)
        requires
            rhs < 32,
        ensures
            r.spec_value() == (self.spec_value() << rhs) % 0x8000_0000,
            r.wf(),
    {
        u31 { value: (self.value << rhs) % U31_LIMIT }
    }

    /// Right shift.
    pub fn shr(self, rhs: u32) -> (r: Self)
        requires
            self.wf(),
            rhs < 32,
        ensures
            r.spec_value() == self.spec_value() >> rhs,
            r.wf(),
    {
        let a: u32 = self.value;
        let v: u32 = a >> rhs;
        assert(v < 0x8000_0000) by (bit_vector)
            requires
                v == a >> rhs,
                a < 0x8000_0000,
        ;
        u31 { value: v }
    }
}

/// Encoding four bytes and reading them back returns the same value.
pub proof fn lemma_be4_round_trip(v: u32)
    ensures
        spec_from_be4(spec_be4(v)) == v,
{
}


/// A 31-bit value survives the trip through its four-byte wire form,
/// the reserved bit staying clear.
pub proof fn lemma_u31_wire_round_trip(v: u32)
    requires
        v < 0x8000_0000,
    ensures
        spec_from_be4(spec_be4(v)) % 0x8000_0000 == v,
{
    lemma_be4_round_trip(v);
}

/// Reading four bytes and encoding them back returns the same bytes.
pub proof fn lemma_be4_of_bytes(s: Seq<u8>)
    requires
        s.len() == 4,
    ensures
        spec_be4(spec_from_be4(s)) =~= s,
{
    let v = spec_from_be4(s);
    assert(v / 0x100_0000 == s[0] && (v / 0x10000) % 0x100 == s[1] && (v / 0x100) % 0x100 == s[2]
        && v % 0x100 == s[3]) by (nonlinear_arith)
        requires
            v == s[0int] * 0x100_0000 + s[1int] * 0x10000 + s[2int] * 0x100 + s[3int],
            s[0int] < 0x100,
            s[1int] < 0x100,
            s[2int] < 0x100,
            s[3int] < 0x100,
    ;
}

} // verus!
