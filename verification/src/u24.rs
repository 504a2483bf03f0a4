//! A 24-bit unsigned integer with a big-endian three-byte wire form.
use vstd::prelude::*;

verus! {

/// The first value that does not fit in 24 bits.
pub const U24_LIMIT: u32 = 0x100_0000;

/// Big-endian three-byte form of a value below `U24_LIMIT`.
pub open spec fn spec_be3(v: u32) -> Seq<u8> {
    seq![(v / 0x10000) as u8, ((v / 0x100) % 0x100) as u8, (v % 0x100) as u8]
}

/// The value read from three big-endian bytes.
pub open spec fn spec_from_be3(s: Seq<u8>) -> u32
    recommends
        s.len() == 3,
{
    (s[0] * 0x10000 + s[1] * 0x100 + s[2]) as u32
}

/// An unsigned integer in `[0, 2^24)`.  Arithmetic wraps at 24 bits.
#[allow(non_camel_case_types)]
#[derive(Debug, Clone, Copy)]
pub struct u24 {
    value: u32,
}

impl u24 {
    /// The numeric value held.
    pub closed spec fn spec_value(self) -> u32 {
        self.value
    }

    /// Every constructor keeps the value below `U24_LIMIT`.
    pub open spec fn wf(self) -> bool {
        self.spec_value() < 0x100_0000
    }

    /// Wraps `value` to 24 bits.
    pub fn new(value: u32) -> (r: Self)
        ensures
            r.spec_value() == value % 0x100_0000,
            r.wf(),
    {
        u24 { value: value % U24_LIMIT }
    }

    pub fn to_u32(self) -> (r: u32)
        ensures
            r == self.spec_value(),
    {
        self.value
    }

    /// Big-endian wire form.
    pub fn to_bytes(self) -> (r: [u8; 3])
        requires
            self.wf(),
        ensures
            r@ =~= spec_be3(self.spec_value()),
    {
        [(self.value / 0x10000) as u8, ((self.value / 0x100) % 0x100) as u8, (self.value
            % 0x100) as u8]
    }

    /// Reads the big-endian wire form.
    pub fn from_bytes(value: [u8; 3]) -> (r: Self)
        ensures
            r.spec_value() == spec_from_be3(value@),
            r.wf(),
    {
        u24 { value: (value[0] as u32) * 0x10000 + (value[1] as u32) * 0x100 + (value[2] as u32) }
    }

    /// Sum, wrapped to 24 bits.
    pub fn wrapping_add(self, other: Self) -> (r: Self)
        requires
            self.wf(),
            other.wf(),
        ensures
            r.spec_value() == (self.spec_value() + other.spec_value()) % 0x100_0000,
            r.wf(),
    {
        u24 { value: (self.value + other.value) % U24_LIMIT }
    }

    /// Difference, wrapped to 24 bits.
    pub fn wrapping_sub(self, other: Self) -> (r: Self)
        requires
            self.wf(),
            other.wf(),
        ensures
            r.spec_value() == (self.spec_value() + 0x100_0000 - other.spec_value()) % 0x100_0000,
            r.wf(),
    {
        u24 { value: ((self.value + U24_LIMIT) - other.value) % U24_LIMIT }
    }

    /// Product, wrapped to 24 bits.
    pub fn wrapping_mul(self, other: Self) -> (r: Self)
        ensures
            r.spec_value() == (self.spec_value() * other.spec_value()) % 0x100_0000,
            r.wf(),
    {
        let a: u64 = self.value as u64;
        let b: u64 = other.value as u64;
        assert(a * b <= 0xFFFF_FFFE_0000_0001) by (nonlinear_arith)
            requires
                a < 0x1_0000_0000,
                b < 0x1_0000_0000,
        ;
        u24 { value: ((a * b) % 0x100_0000) as u32 }
    }

    /// Quotient; the divisor must be nonzero.
    pub fn div(self, other: Self) -> (r: Self)
        requires
            self.wf(),
            other.spec_value() != 0,
        ensures
            r.spec_value() == self.spec_value() / other.spec_value(),
            r.wf(),
    {
        assert(self.value / other.value <= self.value) by (nonlinear_arith)
            requires
                other.value >= 1,
        ;
        u24 { value: self.value / other.value }
    }

    /// Remainder; the divisor must be nonzero.
    pub fn rem(self, other: Self) -> (r: Self)
        requires
            self.wf(),
            other.spec_value() != 0,
        ensures
            r.spec_value() == self.spec_value() % other.spec_value(),
            r.wf(),
    {
        assert(self.value % other.value <= self.value) by (nonlinear_arith)
            requires
                other.value >= 1,
        ;
        u24 { value: self.value % other.value }
    }

    /// Bitwise and.
    pub fn bitand(self, other: Self) -> (r: Self)
        requires
            self.wf(),
            other.wf(),
        ensures
            r.spec_value() == self.spec_value() & other.spec_value(),
            r.wf(),
    {
        let a: u32 = self.value;
        let b: u32 = other.value;
        let v: u32 = a & b;
        assert(v < 0x100_0000) by (bit_vector)
            requires
                v == a & b,
                a < 0x100_0000,
        ;
        u24 { value: v }
    }

    /// Bitwise or.
    pub fn bitor(self, other: Self) -> (r: Self)
        requires
            self.wf(),
            other.wf(),
        ensures
            r.spec_value() == self.spec_value() | other.spec_value(),
            r.wf(),
    {
        let a: u32 = self.value;
        let b: u32 = other.value;
        let v: u32 = a | b;
        assert(v < 0x100_0000) by (bit_vector)
            requires
                v == a | b,
                a < 0x100_0000,
                b < 0x100_0000,
        ;
        u24 { value: v }
    }

    /// Bitwise exclusive or.
    pub fn bitxor(self, other: Self) -> (r: Self)
        requires
            self.wf(),
            other.wf(),
        ensures
            r.spec_value() == self.spec_value() ^ other.spec_value(),
            r.wf(),
    {
        let a: u32 = self.value;
        let b: u32 = other.value;
        let v: u32 = a ^ b;
        assert(v < 0x100_0000) by (bit_vector)
            requires
                v == a ^ b,
                a < 0x100_0000,
                b < 0x100_0000,
        ;
        u24 { value: v }
    }

    /// Bitwise complement within 24 bits.
    pub fn not(self) -> (r: Self)
        requires
            self.wf(),
        ensures
            r.spec_value() == !self.spec_value() & 0xFF_FFFF,
            r.wf(),
    {
        let a: u32 = self.value;
        let v: u32 = !a & 0xFF_FFFF;
        assert(v < 0x100_0000) by (bit_vector)
            requires
                v == !a & 0xFF_FFFF,
        ;
        u24 { value: v }
    }

    /// Left shift, wrapped to 24 bits.
    pub fn shl(self, rhs: u32) -> (r: Self)
        requires
            rhs < 32,
        ensures
            r.spec_value() == (self.spec_value() << rhs) % 0x100_0000,
            r.wf(),
    {
        u24 { value: (self.value << rhs) % U24_LIMIT }
    }

    /// Right shift.
    pub fn shr(self, rhs: u32) -> (r: Self)
        requires
            self.wf(),
            rhs < 32,
        ensures
            r.spec_value() == self.spec_value() >> rhs,
            r.wf(),
    {
        let a: u32 = self.value;
        let v: u32 = a >> rhs;
        assert(v < 0x100_0000) by (bit_vector)
            requires
                v == a >> rhs,
                a < 0x100_0000,
        ;
        u24 { value: v }
    }
}

/// Encoding three bytes and reading them back returns the same value.
pub proof fn lemma_be3_round_trip(v: u32)
    requires
        v < 0x100_0000,
    ensures
        spec_from_be3(spec_be3(v)) == v,
{
}


/// Reading three bytes and encoding them back returns the same bytes.
pub proof fn lemma_be3_of_bytes(s: Seq<u8>)
    requires
        s.len() == 3,
    ensures
        spec_be3(spec_from_be3(s)) =~= s,
{
    let v = spec_from_be3(s);
    assert(v / 0x10000 == s[0] && (v / 0x100) % 0x100 == s[1] && v % 0x100 == s[2])
        by (nonlinear_arith)
        requires
            v == s[0int] * 0x10000 + s[1int] * 0x100 + s[2int],
            s[0int] < 0x100,
            s[1int] < 0x100,
            s[2int] < 0x100,
    ;
}

} // verus!
