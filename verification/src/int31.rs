//! A 31-bit unsigned integer with wrapping arithmetic and bitwise operations.
use vstd::prelude::*;

verus! {

/// An unsigned integer in `[0, 2^31)`.
#[derive(Debug, Clone, Copy)]
pub struct Int31 {
    value: u32,
}

impl Int31 {
    /// The numeric value held.
    pub closed spec fn spec_value(self) -> u32 {
        self.value
    }

    /// Every constructor keeps the value below `2^31`.
    pub open spec fn wf(self) -> bool {
        self.spec_value() < 0x8000_0000
    }

    /// Wraps `value` to 31 bits.
    pub fn new(value: u32) -> (r: Self)
        ensures
            r.spec_value() == value % 0x8000_0000,
            r.wf(),
    {
        Int31 { value: value % 0x8000_0000 }
    }

    pub fn value(self) -> (r: u32)
        ensures
            r == self.spec_value(),
    {
        self.value
    }

    /// Sum, wrapped to 31 bits.
    pub fn wrapping_add(self, other: Self) -> (r: Self)
        requires
            self.wf(),
            other.wf(),
        ensures
            r.spec_value() == (self.spec_value() + other.spec_value()) % 0x8000_0000,
            r.wf(),
    {
        Int31 { value: (self.value + other.value) % 0x8000_0000 }
    }

    /// Difference, wrapped to 31 bits.
    pub fn wrapping_sub(self, other: Self) -> (r: Self)
        requires
            self.wf(),
            other.wf(),
        ensures
            r.spec_value() == (self.spec_value() + 0x8000_0000 - other.spec_value()) % 0x8000_0000,
            r.wf(),
    {
        Int31 { value: ((self.value + 0x8000_0000) - other.value) % 0x8000_0000 }
    }

    /// Product, wrapped to 31 bits.
    pub fn wrapping_mul(self, other: Self) -> (r: Self)
        ensures
            r.spec_value() == (self.spec_value() * other.spec_value()) % 0x8000_0000,
            r.wf(),
    {
        let a: u64 = self.value as u64;
        let b: u64 = other.value as u64;
        assert(a * b <= 0xFFFF_FFFE_0000_0001) by (nonlinear_arith)
            requires
                a < 0x1_0000_0000,
                b < 0x1_0000_0000,
        ;
        Int31 { value: ((a * b) % 0x8000_0000) as u32 }
    }

    /// Quotient; the divisor must be nonzero.
    pub fn div(self, other: Self) -> (r: Self)
        requires
            self.wf(),
            other.spec_value() != 0,
        ensures
            r.spec_value() == self.spec_value() / other.spec_value(),
            r.wf(),
    {
        assert(self.value / other.value <= self.value) by (nonlinear_arith)
            requires
                other.value >= 1,
        ;
        Int31 { value: self.value / other.value }
    }

    /// Remainder; the divisor must be nonzero.
    pub fn rem(self, other: Self) -> (r: Self)
        requires
            self.wf(),
            other.spec_value() != 0,
        ensures
            r.spec_value() == self.spec_value() % other.spec_value(),
            r.wf(),
    {
        assert(self.value % other.value <= self.value) by (nonlinear_arith)
            requires
                other.value >= 1,
        ;
        Int31 { value: self.value % other.value }
    }

    /// Bitwise and.
    pub fn bitand(self, other: Self) -> (r: Self)
        requires
            self.wf(),
            other.wf(),
        ensures
            r.spec_value() == self.spec_value() & other.spec_value(),
            r.wf(),
    {
        let a: u32 = self.value;
        let b: u32 = other.value;
        let v: u32 = a & b;
        assert(v < 0x8000_0000) by (bit_vector)
            requires
                v == a & b,
                a < 0x8000_0000,
        ;
        Int31 { value: v }
    }

    /// Bitwise or.
    pub fn bitor(self, other: Self) -> (r: Self)
        requires
            self.wf(),
            other.wf(),
        ensures
            r.spec_value() == self.spec_value() | other.spec_value(),
            r.wf(),
    {
        let a: u32 = self.value;
        let b: u32 = other.value;
        let v: u32 = a | b;
        assert(v < 0x8000_0000) by (bit_vector)
            requires
                v == a | b,
                a < 0x8000_0000,
                b < 0x8000_0000,
        ;
        Int31 { value: v }
    }

    /// Bitwise exclusive or.
    pub fn bitxor(self, other: Self) -> (r: Self)
        requires
            self.wf(),
            other.wf(),
        ensures
            r.spec_value() == self.spec_value() ^ other.spec_value(),
            r.wf(),
    {
        let a: u32 = self.value;
        let b: u32 = other.value;
        let v: u32 = a ^ b;
        assert(v < 0x8000_0000) by (bit_vector)
            requires
                v == a ^ b,
                a < 0x8000_0000,
                b < 0x8000_0000,
        ;
        Int31 { value: v }
    }

    /// Bitwise complement within 31 bits.
    pub fn not(self) -> (r: Self)
        requires
            self.wf(),
        ensures
            r.spec_value() == !self.spec_value() & 0x7FFF_FFFF,
            r.wf(),
    {
        let a: u32 = self.value;
        let v: u32 = !a & 0x7FFF_FFFF;
        assert(v < 0x8000_0000) by (bit_vector)
            requires
                v == !a & 0x7FFF_FFFF,
        ;
        Int31 { value: v }
    }
}

} // verus!
