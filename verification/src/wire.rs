//! Little-endian encoding of the fixed-layout records that user programs
//! hand to the kernel.
use vstd::prelude::*;

verus! {

/// The four little-endian bytes of `x`.
pub open spec fn le_bytes(x: u32) -> Seq<u8> {
    seq![(x % 256) as u8, ((x / 256) % 256) as u8, ((x / 65536) % 256) as u8, (x / 16777216) as u8]
}

/// The `u32` stored little-endian at `off` in `s`.
pub open spec fn le_value(s: Seq<u8>, off: int) -> u32 {
    (s[off] + 256 * s[off + 1] + 65536 * s[off + 2] + 16777216 * s[off + 3]) as u32
}

/// The two's-complement bytes of an `i32`.
pub open spec fn le_bytes_i32(x: i32) -> Seq<u8> {
    le_bytes(x as u32)
}

/// Reading back the bytes of `x` gives `x`.
pub proof fn lemma_le_roundtrip(x: u32, s: Seq<u8>, off: int)
    requires
        0 <= off,
        off + 4 <= s.len(),
        s.subrange(off, off + 4) == le_bytes(x),
    ensures
        le_value(s, off) == x,
{
    assert(s[off] == le_bytes(x)[0]);
    assert(s[off + 1] == le_bytes(x)[1]);
    assert(s[off + 2] == le_bytes(x)[2]);
    assert(s[off + 3] == le_bytes(x)[3]);
    assert(x == x % 256 + 256 * ((x / 256) % 256) + 65536 * ((x / 65536) % 256) + 16777216 * (x / 16777216)) by (nonlinear_arith);
}

/// Appends the four little-endian bytes of `x`.
pub fn push_u32(out: &mut Vec<u8>, x: u32)
    ensures
        final(out)@ == old(out)@ + le_bytes(x),
{
    out.push((x % 256) as u8);
    out.push(((x / 256) % 256) as u8);
    out.push(((x / 65536) % 256) as u8);
    out.push((x / 16777216) as u8);
    proof {
        assert(out@ =~= old(out)@ + le_bytes(x));
    }
}

/// Appends the four two's-complement little-endian bytes of `x`.
pub fn push_i32(out: &mut Vec<u8>, x: i32)
    ensures
        final(out)@ == old(out)@ + le_bytes_i32(x),
{
    push_u32(out, x as u32);
}

/// Reads the `u32` stored little-endian at `off`.
pub fn read_u32(bytes: &[u8], off: usize) -> (x: u32)
    requires
        off + 4 <= bytes@.len(),
    ensures
        x == le_value(bytes@, off as int),
{
    bytes[off] as u32 + (bytes[off + 1] as u32) * 256 + (bytes[off + 2] as u32) * 65536
        + (bytes[off + 3] as u32) * 16777216
}

/// Reads the `i32` stored little-endian in two's complement at `off`.
pub fn read_i32(bytes: &[u8], off: usize) -> (x: i32)
    requires
        off + 4 <= bytes@.len(),
    ensures
        x == le_value(bytes@, off as int) as i32,
{
    read_u32(bytes, off) as i32
}

/// Reinterpreting an `i32` as `u32` and back gives the same value.
pub proof fn lemma_i32_u32_roundtrip(v: i32)
    ensures
        (v as u32) as i32 == v,
{
    assert((v as u32) as i32 == v) by (bit_vector);
}

/// Appends `bytes`.
pub fn push_bytes(out: &mut Vec<u8>, bytes: &Vec<u8>)
    ensures
        final(out)@ == old(out)@ + bytes@,
{
    let mut i: usize = 0;
    while i < bytes.len()
        invariant
            i <= bytes@.len(),
            out@ == old(out)@ + bytes@.subrange(0, i as int),
        decreases bytes@.len() - i,
    {
        out.push(bytes[i]);
        i += 1;
        proof {
            assert(out@ =~= old(out)@ + bytes@.subrange(0, i as int));
        }
    }
    proof {
        assert(bytes@.subrange(0, bytes@.len() as int) =~= bytes@);
    }
}

/// Copies `n` bytes starting at `off`.
pub fn copy_bytes(bytes: &[u8], off: usize, n: usize) -> (out: Vec<u8>)
    requires
        off + n <= bytes@.len(),
    ensures
        out@ == bytes@.subrange(off as int, off + n),
{
    let mut out: Vec<u8> = Vec::new();
    let len = bytes.len();
    let mut i: usize = 0;
    while i < n
        invariant
            len == bytes@.len(),
            off + n <= bytes@.len(),
            i <= n,
            out@ == bytes@.subrange(off as int, off + i),
        decreases n - i,
    {
        out.push(bytes[off + i]);
        i += 1;
        proof {
            assert(out@ =~= bytes@.subrange(off as int, off + i));
        }
    }
    out
}

} // verus!
