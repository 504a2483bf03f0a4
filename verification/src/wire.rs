//! Shared helpers for big-endian byte packing and byte-sequence searching.
use vstd::prelude::*;

verus! {

/// Big-endian two-byte form of a 16-bit value.
pub open spec fn spec_be16(v: u16) -> Seq<u8> {
    seq![(v / 0x100) as u8, (v % 0x100) as u8]
}

/// The value read from two big-endian bytes.
pub open spec fn spec_from_be16(s: Seq<u8>) -> u16
    recommends
        s.len() == 2,
{
    (s[0] * 0x100 + s[1]) as u16
}

/// Big-endian four-byte form of a 32-bit value.
pub open spec fn spec_be32(v: u32) -> Seq<u8> {
    crate::u31::spec_be4(v)
}

/// The value read from four big-endian bytes.
pub open spec fn spec_from_be32(s: Seq<u8>) -> u32
    recommends
        s.len() == 4,
{
    crate::u31::spec_from_be4(s)
}

/// Big-endian eight-byte form of a 64-bit value.
pub open spec fn spec_be64(v: u64) -> Seq<u8> {
    spec_be32((v / 0x1_0000_0000) as u32) + spec_be32((v % 0x1_0000_0000) as u32)
}

/// The value read from eight big-endian bytes.
pub open spec fn spec_from_be64(s: Seq<u8>) -> u64
    recommends
        s.len() == 8,
{
    (spec_from_be32(s.subrange(0, 4)) * 0x1_0000_0000 + spec_from_be32(
        s.subrange(4, 8),
    )) as u64
}

/// Appends the big-endian form of a 16-bit value.
pub fn push_be16(out: &mut Vec<u8>, v: u16)
    ensures
        final(out)@ =~= old(out)@ + spec_be16(v),
{
    out.push((v / 0x100) as u8);
    out.push((v % 0x100) as u8);
}

/// Appends the big-endian form of a 32-bit value.
pub fn push_be32(out: &mut Vec<u8>, v: u32)
    ensures
        final(out)@ =~= old(out)@ + spec_be32(v),
{
    out.push((v / 0x100_0000) as u8);
    out.push(((v / 0x10000) % 0x100) as u8);
    out.push(((v / 0x100) % 0x100) as u8);
    out.push((v % 0x100) as u8);
}

/// Appends the big-endian form of a 64-bit value.
pub fn push_be64(out: &mut Vec<u8>, v: u64)
    ensures
        final(out)@ =~= old(out)@ + spec_be64(v),
{
    push_be32(out, (v / 0x1_0000_0000) as u32);
    push_be32(out, (v % 0x1_0000_0000) as u32);
}

/// Reads two big-endian bytes at `off`.
pub fn read_be16(data: &[u8], off: usize) -> (r: u16)
    requires
        off + 2 <= data@.len(),
    ensures
        r == spec_from_be16(data@.subrange(off as int, off + 2)),
{
    (data[off] as u16) * 0x100 + (data[off + 1] as u16)
}

/// Reads four big-endian bytes at `off`.
pub fn read_be32(data: &[u8], off: usize) -> (r: u32)
    requires
        off + 4 <= data@.len(),
    ensures
        r == spec_from_be32(data@.subrange(off as int, off + 4)),
{
    (data[off] as u32) * 0x100_0000 + (data[off + 1] as u32) * 0x10000 + (data[off
        + 2] as u32) * 0x100 + (data[off + 3] as u32)
}

/// Reads eight big-endian bytes at `off`.
pub fn read_be64(data: &[u8], off: usize) -> (r: u64)
    requires
        off + 8 <= data@.len(),
    ensures
        r == spec_from_be64(data@.subrange(off as int, off + 8)),
{
    assert(data.len() == data@.len());
    let hi = read_be32(data, off);
    let lo = read_be32(data, off + 4);
    assert(data@.subrange(off as int, off + 8).subrange(0, 4) =~= data@.subrange(
        off as int,
        off + 4,
    ));
    assert(data@.subrange(off as int, off + 8).subrange(4, 8) =~= data@.subrange(
        off + 4,
        off + 8,
    ));
    (hi as u64) * 0x1_0000_0000 + (lo as u64)
}

/// Copies `data[from..to]` into a fresh vector.
pub fn copy_range(data: &[u8], from: usize, to: usize) -> (r: Vec<u8>)
    requires
        from <= to <= data@.len(),
    ensures
        r@ =~= data@.subrange(from as int, to as int),
{
    let mut r: Vec<u8> = Vec::new();
    let mut i = from;
    while i < to
        invariant
            from <= i <= to,
            r@ =~= data@.subrange(from as int, i as int),
        decreases to - i,
    {
        r.push(data[i]);
        i = i + 1;
    }
    r
}

/// True when the pattern occurs in `d` starting at position `i`.
pub open spec fn match_at(d: Seq<u8>, i: int, p: Seq<u8>) -> bool {
    &&& 0 <= i
    &&& i + p.len() <= d.len()
    &&& d.subrange(i, i + p.len()) =~= p
}

/// The first position at which `pat` occurs in `d`, if any.
pub open spec fn spec_find_pat(d: Seq<u8>, pat: Seq<u8>) -> Option<int>
    decreases d.len(),
{
    if match_at(d, 0, pat) {
        Some(0)
    } else if d.len() == 0 {
        None
    } else {
        match spec_find_pat(d.skip(1), pat) {
            Some(i) => Some(i + 1),
            None => None,
        }
    }
}

/// `spec_find_pat` names the first occurrence: a match stands there and
/// none earlier; `None` means no match anywhere.
pub proof fn lemma_find_pat_first(d: Seq<u8>, pat: Seq<u8>)
    requires
        pat.len() >= 1,
    ensures
        match spec_find_pat(d, pat) {
            Some(i) => {
                &&& 0 <= i && i + pat.len() <= d.len()
                &&& match_at(d, i, pat)
                &&& forall|j: int| 0 <= j < i ==> !match_at(d, j, pat)
            },
            None => forall|j: int| !match_at(d, j, pat),
        },
    decreases d.len(),
{
    if match_at(d, 0, pat) {
    } else if d.len() == 0 {
    } else {
        lemma_find_pat_first(d.skip(1), pat);
        assert forall|j: int| 1 <= j implies match_at(d, j, pat) == match_at(
            d.skip(1),
            j - 1,
            pat,
        ) by {
            if j + pat.len() <= d.len() {
                assert(d.subrange(j, j + pat.len()) =~= d.skip(1).subrange(
                    j - 1,
                    j - 1 + pat.len(),
                ));
            }
        }
        match spec_find_pat(d.skip(1), pat) {
            Some(i) => {
                assert(match_at(d, i + 1, pat));
            },
            None => {},
        }
    }
}

/// The position known to be the first occurrence is what
/// `spec_find_pat` names.
pub proof fn lemma_find_pat_unique(d: Seq<u8>, pat: Seq<u8>, i: int)
    requires
        pat.len() >= 1,
        0 <= i,
        match_at(d, i, pat),
        forall|j: int| 0 <= j < i ==> !match_at(d, j, pat),
    ensures
        spec_find_pat(d, pat) == Some(i),
{
    lemma_find_pat_first(d, pat);
}

/// A match inside a suffix is a match in the whole, shifted.
pub proof fn lemma_match_at_shift(d: Seq<u8>, off: int, j: int, pat: Seq<u8>)
    requires
        0 <= off <= d.len(),
        0 <= j,
    ensures
        match_at(d, off + j, pat) == match_at(d.skip(off), j, pat),
{
    if off + j + pat.len() <= d.len() {
        assert(d.subrange(off + j, off + j + pat.len()) =~= d.skip(off).subrange(
            j,
            j + pat.len(),
        ));
    }
}

/// When no occurrence exists, `spec_find_pat` says so.
pub proof fn lemma_find_pat_none(d: Seq<u8>, pat: Seq<u8>)
    requires
        pat.len() >= 1,
        forall|j: int| !match_at(d, j, pat),
    ensures
        spec_find_pat(d, pat) == None::<int>,
{
    lemma_find_pat_first(d, pat);
}

/// Byte-wise equality of two slices.
pub fn eq_bytes(a: &[u8], b: &[u8]) -> (r: bool)
    ensures
        r == (a@ =~= b@),
{
    if a.len() != b.len() {
        return false;
    }
    let n = a.len();
    let mut i: usize = 0;
    while i < n
        invariant
            i <= n,
            n == a@.len() == b@.len(),
            forall|j: int| 0 <= j < i ==> a@[j] == b@[j],
        decreases n - i,
    {
        if a[i] != b[i] {
            return false;
        }
        i = i + 1;
    }
    true
}

/// Finds the first occurrence of `pat` in `data` at or after `start`.
pub fn find_from(data: &[u8], start: usize, pat: &[u8]) -> (r: Option<usize>)
    requires
        start <= data@.len(),
        pat@.len() >= 1,
    ensures
        match r {
            Some(i) => {
                &&& start <= i
                &&& i + pat@.len() <= data@.len()
                &&& match_at(data@, i as int, pat@)
                &&& forall|j: int| start <= j < i ==> !match_at(data@, j, pat@)
            },
            None => forall|j: int| start <= j ==> !match_at(data@, j, pat@),
        },
{
    let n = data.len();
    let m = pat.len();
    if m > n {
        return None;
    }
    let mut i = start;
    while i <= n - m
        invariant
            start <= i,
            n == data@.len(),
            m == pat@.len(),
            1 <= m <= n,
            forall|j: int| start <= j < i ==> !match_at(data@, j, pat@),
        decreases n - i,
    {
        let mut k: usize = 0;
        let mut hit = true;
        while k < m
            invariant
                k <= m,
                i + m <= n,
                n == data@.len(),
                m == pat@.len(),
                hit ==> forall|t: int| 0 <= t < k ==> data@[i + t] == pat@[t],
                !hit ==> !match_at(data@, i as int, pat@),
            decreases m - k,
        {
            if data[i + k] != pat[k] {
                assert(!match_at(data@, i as int, pat@)) by {
                    if match_at(data@, i as int, pat@) {
                        assert(data@.subrange(i as int, i + m)[k as int] == pat@[k as int]);
                    }
                }
                hit = false;
                k = m;
            } else {
                k = k + 1;
            }
        }
        if hit {
            assert(data@.subrange(i as int, i + m) =~= pat@);
            return Some(i);
        }
        i = i + 1;
    }
    assert forall|j: int| start <= j implies !match_at(data@, j, pat@) by {
        if j < i {
        } else {
            assert(j + m > n);
        }
    }
    None
}


/// Types with a defined wire length.
pub trait Len {
    /// The length in bytes of the serialized form.
    spec fn spec_len(&self) -> nat;

    /// The length fits the machine's integer width.
    spec fn len_ok(&self) -> bool;

    /// Computes the wire length.
    fn binary_len(&self) -> (r: usize)
        requires
            self.len_ok(),
        ensures
            r == self.spec_len(),
    ;
}


/// Byte packing and reading invert each other, in both directions.
pub proof fn lemma_be16_round_trip(v: u16)
    ensures
        spec_from_be16(spec_be16(v)) == v,
{
}

pub proof fn lemma_be16_of_bytes(s: Seq<u8>)
    requires
        s.len() == 2,
    ensures
        spec_be16(spec_from_be16(s)) =~= s,
{
    let v = spec_from_be16(s);
    assert(v / 0x100 == s[0] && v % 0x100 == s[1]) by (nonlinear_arith)
        requires
            v == s[0int] * 0x100 + s[1int],
            s[0int] < 0x100,
            s[1int] < 0x100,
    ;
}

pub proof fn lemma_be32_of_bytes(s: Seq<u8>)
    requires
        s.len() == 4,
    ensures
        spec_be32(spec_from_be32(s)) =~= s,
{
    let v = spec_from_be32(s);
    assert(v / 0x100_0000 == s[0] && (v / 0x10000) % 0x100 == s[1] && (v / 0x100) % 0x100 == s[2]
        && v % 0x100 == s[3]) by (nonlinear_arith)
        requires
            v == s[0int] * 0x100_0000 + s[1int] * 0x10000 + s[2int] * 0x100 + s[3int],
            s[0int] < 0x100,
            s[1int] < 0x100,
            s[2int] < 0x100,
            s[3int] < 0x100,
    ;
}

pub proof fn lemma_be64_round_trip(v: u64)
    ensures
        spec_from_be64(spec_be64(v)) == v,
{
    let hi = (v / 0x1_0000_0000) as u32;
    let lo = (v % 0x1_0000_0000) as u32;
    assert(spec_be64(v).subrange(0, 4) =~= spec_be32(hi));
    assert(spec_be64(v).subrange(4, 8) =~= spec_be32(lo));
    crate::u31::lemma_be4_round_trip(hi);
    crate::u31::lemma_be4_round_trip(lo);
}

pub proof fn lemma_be64_of_bytes(s: Seq<u8>)
    requires
        s.len() == 8,
    ensures
        spec_be64(spec_from_be64(s)) =~= s,
{
    let hi = spec_from_be32(s.subrange(0, 4));
    let lo = spec_from_be32(s.subrange(4, 8));
    let v = spec_from_be64(s);
    assert(v == hi * 0x1_0000_0000 + lo);
    assert(v / 0x1_0000_0000 == hi && v % 0x1_0000_0000 == lo) by (nonlinear_arith)
        requires
            v == hi * 0x1_0000_0000 + lo,
            hi < 0x1_0000_0000,
            lo < 0x1_0000_0000,
    ;
    lemma_be32_of_bytes(s.subrange(0, 4));
    lemma_be32_of_bytes(s.subrange(4, 8));
    assert(spec_be64(v) =~= spec_be32((v / 0x1_0000_0000) as u32) + spec_be32(
        (v % 0x1_0000_0000) as u32,
    ));
}


/// The first position of byte `b` in `d`, if any.
pub open spec fn spec_find_byte(d: Seq<u8>, b: u8) -> Option<int>
    decreases d.len(),
{
    if d.len() == 0 {
        None
    } else if d[0] == b {
        Some(0)
    } else {
        match spec_find_byte(d.skip(1), b) {
            Some(i) => Some(i + 1),
            None => None,
        }
    }
}

/// Finds the first occurrence of byte `b`.
pub fn find_byte(data: &[u8], b: u8) -> (r: Option<usize>)
    ensures
        match r {
            Some(i) => spec_find_byte(data@, b) == Some(i as int) && i < data@.len(),
            None => spec_find_byte(data@, b) == None::<int>,
        },
{
    let n = data.len();
    let mut i: usize = 0;
    proof {
        assert(data@.skip(0) =~= data@);
    }
    while i < n
        invariant
            i <= n,
            n == data@.len(),
            spec_find_byte(data@, b) == (match spec_find_byte(data@.skip(i as int), b) {
                Some(k) => Some(k + i),
                None => None::<int>,
            }),
        decreases n - i,
    {
        proof {
            assert(data@.skip(i as int)[0] == data@[i as int]);
            assert(data@.skip(i as int).skip(1) =~= data@.skip(i + 1));
        }
        if data[i] == b {
            return Some(i);
        }
        i = i + 1;
    }
    proof {
        assert(data@.skip(i as int).len() == 0);
    }
    None
}

} // verus!
