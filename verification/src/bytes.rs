//! Little/big-endian integer fields and the CRC-32 used by sparse images and GPT.
use vstd::prelude::*;

verus! {

/// Unsigned little-endian value of `len` bytes starting at `off`.
pub open spec fn le_value(s: Seq<u8>, off: int, len: nat) -> int
    decreases len,
{
    if len == 0 {
        0
    } else {
        s[off] as int + 256 * le_value(s, off + 1, (len - 1) as nat)
    }
}

/// Unsigned big-endian value of `len` bytes starting at `off`.
pub open spec fn be_value(s: Seq<u8>, off: int, len: nat) -> int
    decreases len,
{
    if len == 0 {
        0
    } else {
        be_value(s, off, (len - 1) as nat) * 256 + s[off + len - 1] as int
    }
}

/// Whether `len` bytes starting at `off` lie inside `s`.
pub open spec fn field_fits(s: Seq<u8>, off: int, len: int) -> bool {
    0 <= off && off + len <= s.len()
}

/// Read a little-endian `u16`; `None` when the field is truncated.
pub fn read_le_u16(bytes: &[u8], offset: usize) -> (r: Option<u16>)
    ensures
        r is Some <==> field_fits(bytes@, offset as int, 2),
        r matches Some(v) ==> v as int == le_value(bytes@, offset as int, 2),
{
    if offset > bytes.len() || bytes.len() - offset < 2 {
        return None;
    }
    proof {
        reveal_with_fuel(le_value, 3);
    }
    Some(bytes[offset] as u16 + (bytes[offset + 1] as u16) * 256)
}

/// Read a little-endian `u32`; `None` when the field is truncated.
pub fn read_le_u32(bytes: &[u8], offset: usize) -> (r: Option<u32>)
    ensures
        r is Some <==> field_fits(bytes@, offset as int, 4),
        r matches Some(v) ==> v as int == le_value(bytes@, offset as int, 4),
{
    if offset > bytes.len() || bytes.len() - offset < 4 {
        return None;
    }
    proof {
        reveal_with_fuel(le_value, 5);
    }
    let b0 = bytes[offset] as u32;
    let b1 = bytes[offset + 1] as u32;
    let b2 = bytes[offset + 2] as u32;
    let b3 = bytes[offset + 3] as u32;
    Some(b0 + b1 * 256 + b2 * 65536 + b3 * 16777216)
}

/// Read a little-endian `u64`; `None` when the field is truncated.
pub fn read_le_u64(bytes: &[u8], offset: usize) -> (r: Option<u64>)
    ensures
        r is Some <==> field_fits(bytes@, offset as int, 8),
        r matches Some(v) ==> v as int == le_value(bytes@, offset as int, 8),
{
    if offset > bytes.len() || bytes.len() - offset < 8 {
        return None;
    }
    let lo = read_le_u32(bytes, offset).unwrap() as u64;
    let hi = read_le_u32(bytes, offset + 4).unwrap() as u64;
    proof {
        lemma_le_value_split(bytes@, offset as int, 4, 4);
        reveal_with_fuel(pow256, 5);
        assert(pow256(4) == 4294967296);
        assert(le_value(bytes@, offset as int, 8) == lo + 4294967296 * hi);
    }
    Some(lo + hi * 4294967296)
}

/// Read a big-endian `u32`; `None` when the field is truncated.
pub fn read_be_u32(bytes: &[u8], offset: usize) -> (r: Option<u32>)
    ensures
        r is Some <==> field_fits(bytes@, offset as int, 4),
        r matches Some(v) ==> v as int == be_value(bytes@, offset as int, 4),
{
    if offset > bytes.len() || bytes.len() - offset < 4 {
        return None;
    }
    proof {
        reveal_with_fuel(be_value, 5);
    }
    let b0 = bytes[offset] as u32;
    let b1 = bytes[offset + 1] as u32;
    let b2 = bytes[offset + 2] as u32;
    let b3 = bytes[offset + 3] as u32;
    Some(b0 * 16777216 + b1 * 65536 + b2 * 256 + b3)
}

/// Read a big-endian `u64`; `None` when the field is truncated.
pub fn read_be_u64(bytes: &[u8], offset: usize) -> (r: Option<u64>)
    ensures
        r is Some <==> field_fits(bytes@, offset as int, 8),
        r matches Some(v) ==> v as int == be_value(bytes@, offset as int, 8),
{
    if offset > bytes.len() || bytes.len() - offset < 8 {
        return None;
    }
    let hi = read_be_u32(bytes, offset).unwrap() as u64;
    let lo = read_be_u32(bytes, offset + 4).unwrap() as u64;
    proof {
        lemma_be_value_split(bytes@, offset as int, 4, 4);
        reveal_with_fuel(pow256, 5);
    }
    Some(hi * 4294967296 + lo)
}

/// Bounds of a little-endian value.
pub proof fn lemma_le_value_bounds(s: Seq<u8>, off: int, len: nat)
    ensures
        0 <= le_value(s, off, len) < pow256(len),
    decreases len,
{
    if len > 0 {
        lemma_le_value_bounds(s, off + 1, (len - 1) as nat);
    }
}

/// `256^n`.
pub open spec fn pow256(n: nat) -> int
    decreases n,
{
    if n == 0 {
        1
    } else {
        256 * pow256((n - 1) as nat)
    }
}

/// A little-endian field splits into a low part and a high part.
pub proof fn lemma_le_value_split(s: Seq<u8>, off: int, a: nat, b: nat)
    ensures
        le_value(s, off, a + b) == le_value(s, off, a) + pow256(a) * le_value(s, off + a, b),
    decreases a,
{
    if a > 0 {
        lemma_le_value_split(s, off + 1, (a - 1) as nat, b);
        assert((a - 1) as nat + b == (a + b - 1) as nat);
        assert(256 * (le_value(s, off + 1, (a - 1) as nat) + pow256((a - 1) as nat) * le_value(
            s,
            off + 1 + (a - 1),
            b,
        )) == 256 * le_value(s, off + 1, (a - 1) as nat) + 256 * pow256((a - 1) as nat)
            * le_value(s, off + a, b)) by (nonlinear_arith);
    }
}

/// A big-endian field splits into a high part and a low part.
pub proof fn lemma_be_value_split(s: Seq<u8>, off: int, a: nat, b: nat)
    ensures
        be_value(s, off, a + b) == be_value(s, off, a) * pow256(b) + be_value(s, off + a, b),
    decreases b,
{
    if b > 0 {
        lemma_be_value_split(s, off, a, (b - 1) as nat);
        assert((a + b - 1) as nat == a + (b - 1) as nat);
        assert((be_value(s, off, a) * pow256((b - 1) as nat) + be_value(s, off + a, (b - 1) as nat))
            * 256 == be_value(s, off, a) * (256 * pow256((b - 1) as nat)) + be_value(
            s,
            off + a,
            (b - 1) as nat,
        ) * 256) by (nonlinear_arith);
    }
}

/// Little-endian encoding of `v` as `len` bytes.
pub open spec fn le_bytes(v: int, len: nat) -> Seq<u8>
    decreases len,
{
    if len == 0 {
        Seq::empty()
    } else {
        seq![(v % 256) as u8] + le_bytes(v / 256, (len - 1) as nat)
    }
}

/// Append a little-endian `u16`.
pub fn push_le_u16(output: &mut Vec<u8>, value: u16)
    ensures
        final(output)@ == old(output)@ + le_bytes(value as int, 2),
{
    proof {
        reveal_with_fuel(le_bytes, 3);
    }
    output.push((value % 256) as u8);
    output.push((value / 256) as u8);
    assert(final(output)@ =~= old(output)@ + le_bytes(value as int, 2));
}

/// Append a little-endian `u32`.
pub fn push_le_u32(output: &mut Vec<u8>, value: u32)
    ensures
        final(output)@ == old(output)@ + le_bytes(value as int, 4),
{
    proof {
        reveal_with_fuel(le_bytes, 5);
    }
    output.push((value % 256) as u8);
    output.push(((value / 256) % 256) as u8);
    output.push(((value / 65536) % 256) as u8);
    output.push((value / 16777216) as u8);
    assert(value as int / 256 / 256 == value as int / 65536);
    assert(value as int / 65536 / 256 == value as int / 16777216);
    assert(final(output)@ =~= old(output)@ + le_bytes(value as int, 4));
}

/// The encoding of a `len`-byte field has `len` bytes.
pub proof fn lemma_le_bytes_len(v: int, len: nat)
    ensures
        le_bytes(v, len).len() == len,
    decreases len,
{
    if len > 0 {
        lemma_le_bytes_len(v / 256, (len - 1) as nat);
    }
}

/// Decoding a freshly encoded little-endian field gives the value back.
pub proof fn lemma_le_roundtrip(s: Seq<u8>, off: int, v: int, len: nat)
    requires
        0 <= v < pow256(len),
        0 <= off,
        off + len <= s.len(),
        s.subrange(off, off + len) == le_bytes(v, len),
    ensures
        le_value(s, off, len) == v,
    decreases len,
{
    if len > 0 {
        lemma_le_bytes_len(v / 256, (len - 1) as nat);
        assert(s[off] == le_bytes(v, len)[0]);
        assert(s.subrange(off + 1, off + len) =~= s.subrange(off, off + len).subrange(1, len as int));
        assert(le_bytes(v, len).subrange(1, len as int) =~= le_bytes(v / 256, (len - 1) as nat));
        lemma_le_roundtrip(s, off + 1, v / 256, (len - 1) as nat);
    }
}

/// One reflected CRC-32 shift step with the IEEE polynomial.
pub open spec fn crc_shift(c: u32) -> u32 {
    if c & 1 == 1 {
        (c >> 1u32) ^ 0xedb8_8320u32
    } else {
        c >> 1u32
    }
}

/// `n` successive CRC shift steps.
pub open spec fn crc_bits(c: u32, n: nat) -> u32
    decreases n,
{
    if n == 0 {
        c
    } else {
        crc_bits(crc_shift(c), (n - 1) as nat)
    }
}

/// The CRC-32 register after absorbing `s`, starting from all ones.
pub open spec fn crc_register(s: Seq<u8>) -> u32
    decreases s.len(),
{
    if s.len() == 0 {
        0xffff_ffffu32
    } else {
        crc_bits(crc_register(s.drop_last()) ^ (s.last() as u32), 8)
    }
}

/// IEEE CRC-32 (as used by zlib, GPT and Android sparse images) of `s`.
pub open spec fn crc32_of(s: Seq<u8>) -> u32 {
    !crc_register(s)
}

/// Compute the IEEE CRC-32 of `bytes`.
pub fn crc32(bytes: &[u8]) -> (r: u32)
    ensures
        r == crc32_of(bytes@),
{
    let mut crc: u32 = 0xffff_ffff;
    let len = bytes.len();
    assert(bytes@.take(0) =~= Seq::<u8>::empty());
    for i in 0..len
        invariant
            len == bytes@.len(),
            crc == crc_register(bytes@.take(i as int)),
    {
        let ghost prefix = bytes@.take(i as int + 1);
        assert(prefix.drop_last() =~= bytes@.take(i as int));
        let start = crc ^ (bytes[i] as u32);
        crc = start;
        let mut k: u32 = 0;
        while k < 8
            invariant
                k <= 8,
                crc_bits(crc, (8 - k) as nat) == crc_bits(start, 8),
            decreases 8 - k,
        {
            if crc & 1 == 1 {
                crc = (crc >> 1) ^ 0xedb8_8320;
            } else {
                crc = crc >> 1;
            }
            k = k + 1;
        }
    }
    assert(bytes@.take(len as int) =~= bytes@);
    !crc
}

} // verus!
