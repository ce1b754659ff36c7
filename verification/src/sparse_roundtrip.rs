//! The Android sparse encoding of a normalized image decodes back to the same bytes and the same
//! source coverage.
use vstd::prelude::*;
use crate::bytes::{crc32_of, le_bytes, le_value, lemma_le_bytes_len, lemma_le_roundtrip, pow256};
use crate::digest::sha256_hex_of;
use crate::disk_image::{
    adjacent_ok, coverage_misaligned, coverage_raw_too_long, encode_fault, encode_spec, image_wf,
    normalize_spec, push_coverage_spec, range_zero, sparse_chunk_bytes, sparse_chunk_spec,
    sparse_chunks_bytes, sparse_chunks_spec, sparse_decode_spec, sparse_file_header_bytes,
    sparse_header_fault, sparse_header_spec, zeros, C01Error, DiskImageFormat, DiskImageLimits,
    DiskImageView, SourceCoverageKind, SourceCoverageRange, SparseHeader, ANDROID_SPARSE_MAGIC,
    SPARSE_CHUNK_DONT_CARE, SPARSE_CHUNK_RAW,
};

verus! {

/// Reading a little-endian field out of a known block embedded in a larger sequence.
proof fn lemma_field(e: Seq<u8>, off: int, s: Seq<u8>, pos: int, v: int, len: nat)
    requires
        0 <= off,
        off + s.len() <= e.len(),
        e.subrange(off, off + s.len()) == s,
        0 <= pos,
        pos + len <= s.len(),
        s.subrange(pos, pos + len) == le_bytes(v, len),
        0 <= v < pow256(len),
    ensures
        le_value(e, off + pos, len) == v,
{
    assert(e.subrange(off + pos, off + pos + len) =~= s.subrange(pos, pos + len));
    lemma_le_roundtrip(e, off + pos, v, len);
}

/// Splitting a block-aligned interval into whole blocks.
proof fn lemma_aligned_interval(s: int, e: int, b: int)
    requires
        0 <= s <= e,
        b > 0,
        s % b == 0,
        e % b == 0,
    ensures
        (e - s) % b == 0,
        ((e - s) / b) * b == e - s,
        s / b + (e - s) / b == e / b,
        e > s ==> (e - s) / b >= 1,
{
    vstd::arithmetic::div_mod::lemma_fundamental_div_mod(s, b);
    vstd::arithmetic::div_mod::lemma_fundamental_div_mod(e, b);
    let qs = s / b;
    let qe = e / b;
    assert(e - s == b * (qe - qs)) by (nonlinear_arith)
        requires
            s == b * qs,
            e == b * qe,
    ;
    vstd::arithmetic::div_mod::lemma_div_multiples_vanish(qe - qs, b);
    vstd::arithmetic::div_mod::lemma_fundamental_div_mod(e - s, b);
    assert(((e - s) / b) * b == e - s) by (nonlinear_arith)
        requires
            (e - s) / b == qe - qs,
            e - s == b * (qe - qs),
    ;
    assert(e > s ==> qe - qs >= 1) by (nonlinear_arith)
        requires
            e - s == b * (qe - qs),
            b > 0,
    ;
}

/// Layout of one encoded chunk: type, reserved, block count, total size, then any payload.
proof fn lemma_chunk_layout(bytes: Seq<u8>, r: SourceCoverageRange, b: int)
    requires
        r.byte_start <= r.byte_end_exclusive <= bytes.len(),
        b > 0,
    ensures
        ({
            let c = sparse_chunk_bytes(bytes, r, b);
            let len = r.byte_end_exclusive - r.byte_start;
            let defined = r.kind == SourceCoverageKind::Defined;
            &&& c.len() == (if defined { 12 + len } else { 12 })
            &&& c.subrange(0, 2) == le_bytes(
                if defined { SPARSE_CHUNK_RAW as int } else { SPARSE_CHUNK_DONT_CARE as int },
                2,
            )
            &&& c.subrange(4, 8) == le_bytes(len / b, 4)
            &&& c.subrange(8, 12) == le_bytes(if defined { 12 + len } else { 12 }, 4)
            &&& defined ==> c.subrange(12, 12 + len) == bytes.subrange(
                r.byte_start as int,
                r.byte_end_exclusive as int,
            )
        }),
{
    let len = r.byte_end_exclusive - r.byte_start;
    lemma_le_bytes_len(SPARSE_CHUNK_RAW as int, 2);
    lemma_le_bytes_len(SPARSE_CHUNK_DONT_CARE as int, 2);
    lemma_le_bytes_len(0, 2);
    lemma_le_bytes_len(len / b, 4);
    lemma_le_bytes_len(12 + len, 4);
    lemma_le_bytes_len(12, 4);
    let c = sparse_chunk_bytes(bytes, r, b);
    match r.kind {
        SourceCoverageKind::Defined => {
            let p = bytes.subrange(r.byte_start as int, r.byte_end_exclusive as int);
            assert(c == le_bytes(SPARSE_CHUNK_RAW as int, 2) + le_bytes(0, 2) + le_bytes(len / b, 4)
                + le_bytes(12 + len, 4) + p);
            assert(c.subrange(0, 2) =~= le_bytes(SPARSE_CHUNK_RAW as int, 2));
            assert(c.subrange(4, 8) =~= le_bytes(len / b, 4));
            assert(c.subrange(8, 12) =~= le_bytes(12 + len, 4));
            assert(c.subrange(12, 12 + len) =~= p);
        },
        SourceCoverageKind::Unspecified => {
            assert(c == le_bytes(SPARSE_CHUNK_DONT_CARE as int, 2) + le_bytes(0, 2) + le_bytes(
                len / b,
                4,
            ) + le_bytes(12, 4));
            assert(c.subrange(0, 2) =~= le_bytes(SPARSE_CHUNK_DONT_CARE as int, 2));
            assert(c.subrange(4, 8) =~= le_bytes(len / b, 4));
            assert(c.subrange(8, 12) =~= le_bytes(12, 4));
        },
    }
}

/// The chunks of a coverage prefix are a prefix of the chunks of the whole coverage.
proof fn lemma_chunks_prefix(bytes: Seq<u8>, cov: Seq<SourceCoverageRange>, b: int, j: int)
    requires
        0 <= j <= cov.len(),
    ensures
        sparse_chunks_bytes(bytes, cov.take(j), b).len() <= sparse_chunks_bytes(bytes, cov, b).len(),
        sparse_chunks_bytes(bytes, cov, b).subrange(
            0,
            sparse_chunks_bytes(bytes, cov.take(j), b).len() as int,
        ) == sparse_chunks_bytes(bytes, cov.take(j), b),
    decreases cov.len(),
{
    if j == cov.len() {
        assert(cov.take(j) =~= cov);
        let all = sparse_chunks_bytes(bytes, cov, b);
        assert(all.subrange(0, all.len() as int) =~= all);
    } else {
        lemma_chunks_prefix(bytes, cov.drop_last(), b, j);
        assert(cov.drop_last().take(j) =~= cov.take(j));
        let a = sparse_chunks_bytes(bytes, cov.drop_last(), b);
        let p = sparse_chunks_bytes(bytes, cov.take(j), b);
        let all = a + sparse_chunk_bytes(bytes, cov.last(), b);
        assert(sparse_chunks_bytes(bytes, cov, b) == all);
        assert(all.subrange(0, p.len() as int) =~= a.subrange(0, p.len() as int));
    }
}

/// Adding one range to a coverage prefix adds its chunk.
proof fn lemma_chunks_step(bytes: Seq<u8>, cov: Seq<SourceCoverageRange>, b: int, k: int)
    requires
        0 <= k < cov.len(),
    ensures
        sparse_chunks_bytes(bytes, cov.take(k + 1), b) == sparse_chunks_bytes(bytes, cov.take(k), b)
            + sparse_chunk_bytes(bytes, cov[k], b),
{
    assert(cov.take(k + 1).drop_last() =~= cov.take(k));
    assert(cov.take(k + 1).last() == cov[k]);
}

/// Offset of the `k`-th chunk header inside the encoding.
spec fn chunk_offset(v: DiskImageView, b: int, k: int) -> int {
    28 + sparse_chunks_bytes(v.bytes, v.coverage.take(k), b).len() as int
}

/// Normalized offset at which the `k`-th range starts.
spec fn start_at(cov: Seq<SourceCoverageRange>, k: int) -> int {
    if k == 0 {
        0
    } else {
        cov[k - 1].byte_end_exclusive as int
    }
}

/// Everything the decoding of an encoded image relies on.
spec fn roundtrip_pre(v: DiskImageView, block: u32, limits: DiskImageLimits) -> bool {
    &&& image_wf(v)
    &&& encode_fault(v, block, limits) is None
    &&& v.bytes.len() <= limits.max_output_bytes
    &&& v.bytes.len() <= usize::MAX
    &&& encode_spec(v, block).len() <= usize::MAX
}

/// The header an encoding starts with.
spec fn encoded_header(v: DiskImageView, block: u32) -> Seq<u8> {
    sparse_file_header_bytes(
        block as int,
        (v.bytes.len() as int) / (block as int),
        v.coverage.len() as int,
        crc32_of(v.bytes) as int,
    )
}

/// The parsed header of an encoding holds exactly the values the encoder wrote.
proof fn lemma_header(v: DiskImageView, block: u32, limits: DiskImageLimits)
    requires
        roundtrip_pre(v, block, limits),
    ensures
        ({
            let e = encode_spec(v, block);
            &&& e.len() >= 28
            &&& encoded_header(v, block).len() == 28
            &&& le_value(e, 0, 4) == ANDROID_SPARSE_MAGIC
            &&& sparse_header_spec(e) == SparseHeader {
                major: 1,
                file_header_size: 28,
                chunk_header_size: 12,
                block_size: block as u64,
                total_blocks: ((v.bytes.len() as int) / (block as int)) as u64,
                total_chunks: v.coverage.len() as u64,
                image_checksum: crc32_of(v.bytes) as u64,
            }
        }),
{
    let e = encode_spec(v, block);
    let h = encoded_header(v, block);
    let tb = (v.bytes.len() as int) / (block as int);
    let n = v.coverage.len() as int;
    let crc = crc32_of(v.bytes) as int;
    lemma_le_bytes_len(ANDROID_SPARSE_MAGIC as int, 4);
    lemma_le_bytes_len(1, 2);
    lemma_le_bytes_len(0, 2);
    lemma_le_bytes_len(28, 2);
    lemma_le_bytes_len(12, 2);
    lemma_le_bytes_len(block as int, 4);
    lemma_le_bytes_len(tb, 4);
    lemma_le_bytes_len(n, 4);
    lemma_le_bytes_len(crc, 4);
    reveal_with_fuel(pow256, 5);
    assert(h.len() == 28);
    assert(e.subrange(0, 28) =~= h);
    assert(h.subrange(0, 4) =~= le_bytes(ANDROID_SPARSE_MAGIC as int, 4));
    assert(h.subrange(4, 6) =~= le_bytes(1, 2));
    assert(h.subrange(8, 10) =~= le_bytes(28, 2));
    assert(h.subrange(10, 12) =~= le_bytes(12, 2));
    assert(h.subrange(12, 16) =~= le_bytes(block as int, 4));
    assert(h.subrange(16, 20) =~= le_bytes(tb, 4));
    assert(h.subrange(20, 24) =~= le_bytes(n, 4));
    assert(h.subrange(24, 28) =~= le_bytes(crc, 4));
    lemma_field(e, 0, h, 0, ANDROID_SPARSE_MAGIC as int, 4);
    lemma_field(e, 0, h, 4, 1, 2);
    lemma_field(e, 0, h, 8, 28, 2);
    lemma_field(e, 0, h, 10, 12, 2);
    lemma_field(e, 0, h, 12, block as int, 4);
    lemma_field(e, 0, h, 16, tb, 4);
    lemma_field(e, 0, h, 20, n, 4);
    lemma_field(e, 0, h, 24, crc, 4);
}

/// The `k`-th encoded chunk sits at `chunk_offset(k)` and ends where the next one starts.
proof fn lemma_chunk_position(v: DiskImageView, block: u32, limits: DiskImageLimits, k: int)
    requires
        roundtrip_pre(v, block, limits),
        0 <= k < v.coverage.len(),
    ensures
        ({
            let e = encode_spec(v, block);
            let c = sparse_chunk_bytes(v.bytes, v.coverage[k], block as int);
            let off = chunk_offset(v, block as int, k);
            &&& chunk_offset(v, block as int, k + 1) == off + c.len()
            &&& off + c.len() <= e.len()
            &&& e.subrange(off, off + c.len()) == c
        }),
{
    let b = block as int;
    let e = encode_spec(v, block);
    let h = encoded_header(v, block);
    lemma_header(v, block, limits);
    let all = sparse_chunks_bytes(v.bytes, v.coverage, b);
    assert(e == h + all);
    lemma_chunks_prefix(v.bytes, v.coverage, b, k + 1);
    lemma_chunks_step(v.bytes, v.coverage, b, k);
    let p = sparse_chunks_bytes(v.bytes, v.coverage.take(k), b);
    let c = sparse_chunk_bytes(v.bytes, v.coverage[k], b);
    let p1 = sparse_chunks_bytes(v.bytes, v.coverage.take(k + 1), b);
    assert(p1 == p + c);
    assert(all.subrange(0, p1.len() as int) == p1);
    assert(e.subrange(28 + p.len() as int, 28 + p.len() + c.len() as int) =~= p1.subrange(
        p.len() as int,
        p1.len() as int,
    ));
    assert(p1.subrange(p.len() as int, p1.len() as int) =~= c);
}

/// Facts about range `k` of a well-formed, encodable coverage.
proof fn lemma_range_facts(v: DiskImageView, block: u32, limits: DiskImageLimits, k: int)
    requires
        roundtrip_pre(v, block, limits),
        0 <= k < v.coverage.len(),
    ensures
        ({
            let r = v.coverage[k];
            let b = block as int;
            let len = r.byte_end_exclusive - r.byte_start;
            &&& start_at(v.coverage, k) == r.byte_start
            &&& r.byte_start < r.byte_end_exclusive <= v.bytes.len()
            &&& (r.byte_start as int) % b == 0
            &&& (r.byte_end_exclusive as int) % b == 0
            &&& (len / b) * b == len
            &&& (r.byte_start as int) / b + len / b == (r.byte_end_exclusive as int) / b
            &&& 1 <= len / b <= u32::MAX
            &&& r.kind == SourceCoverageKind::Defined ==> 12 + len <= u32::MAX
            &&& k > 0 ==> v.coverage[k - 1].kind != r.kind
        }),
{
    let cov = v.coverage;
    let r = cov[k];
    let b = block as int;
    if k > 0 {
        assert(adjacent_ok(cov, k - 1));
    }
    assert(r.byte_start < r.byte_end_exclusive <= v.bytes.len());
    if (r.byte_start as int) % b != 0 || (r.byte_end_exclusive as int) % b != 0 {
        assert(coverage_misaligned(cov, b));
    }
    if r.kind == SourceCoverageKind::Defined && r.byte_end_exclusive - r.byte_start + 12 > u32::MAX {
        assert(coverage_raw_too_long(cov));
    }
    let len = r.byte_end_exclusive - r.byte_start;
    lemma_aligned_interval(r.byte_start as int, r.byte_end_exclusive as int, b);
    assert(len / b <= (v.bytes.len() as int) / b) by (nonlinear_arith)
        requires
            0 <= len <= v.bytes.len(),
            b > 0,
    ;
}

/// Decoding the `k`-th chunk of an encoding extends the decoded prefix by exactly range `k`.
#[verifier::rlimit(40)]
proof fn lemma_chunk_decodes(v: DiskImageView, block: u32, limits: DiskImageLimits, k: int)
    requires
        roundtrip_pre(v, block, limits),
        0 <= k < v.coverage.len(),
    ensures
        ({
            let e = encode_spec(v, block);
            let b = block as int;
            let s = start_at(v.coverage, k);
            let t = start_at(v.coverage, k + 1);
            sparse_chunk_spec(
                e,
                sparse_header_spec(e),
                limits,
                chunk_offset(v, b, k),
                v.bytes.subrange(0, s),
                v.coverage.take(k),
                s / b,
            ) == Ok::<(int, Seq<u8>, Seq<SourceCoverageRange>, int), C01Error>(
                (chunk_offset(v, b, k + 1), v.bytes.subrange(0, t), v.coverage.take(k + 1), t / b),
            )
        }),
{
    let e = encode_spec(v, block);
    let b = block as int;
    let cov = v.coverage;
    let r = cov[k];
    let s = start_at(cov, k);
    let t = start_at(cov, k + 1);
    let len = r.byte_end_exclusive - r.byte_start;
    let off = chunk_offset(v, b, k);
    let c = sparse_chunk_bytes(v.bytes, r, b);
    lemma_header(v, block, limits);
    lemma_range_facts(v, block, limits, k);
    lemma_chunk_position(v, block, limits, k);
    lemma_chunk_layout(v.bytes, r, b);
    reveal_with_fuel(pow256, 5);
    let defined = r.kind == SourceCoverageKind::Defined;
    let ty = if defined { SPARSE_CHUNK_RAW as int } else { SPARSE_CHUNK_DONT_CARE as int };
    let total = if defined { 12 + len } else { 12 };
    lemma_field(e, off, c, 0, ty, 2);
    lemma_field(e, off, c, 4, len / b, 4);
    lemma_field(e, off, c, 8, total, 4);
    let h = sparse_header_spec(e);
    assert(h.chunk_header_size == 12 && h.block_size == b);
    let out = v.bytes.subrange(0, s);
    let out2 = v.bytes.subrange(0, t);
    assert(t == r.byte_end_exclusive);
    let pushed = push_coverage_spec(cov.take(k), s as u64, t as u64, r.kind);
    assert(pushed =~= cov.take(k + 1)) by {
        if k > 0 {
            assert(cov.take(k).last() == cov[k - 1]);
        }
        assert(cov.take(k).push(SourceCoverageRange { byte_start: s as u64, byte_end_exclusive: t as u64, kind: r.kind }) =~= cov.take(k + 1));
    }
    if defined {
        assert(e.subrange(off + 12, off + 12 + len) =~= c.subrange(12, 12 + len));
        assert(out + e.subrange(off + 12, off + 12 + len) =~= out2);
    } else {
        assert(range_zero(v.bytes, cov[k]));
        assert(out + zeros(len as nat) =~= out2);
    }
}

/// Decoding the remaining chunks from the `k`-th onwards gives back the whole image.
proof fn lemma_chunks_decode(v: DiskImageView, block: u32, limits: DiskImageLimits, k: int)
    requires
        roundtrip_pre(v, block, limits),
        0 <= k <= v.coverage.len(),
    ensures
        ({
            let e = encode_spec(v, block);
            let b = block as int;
            let s = start_at(v.coverage, k);
            sparse_chunks_spec(
                e,
                sparse_header_spec(e),
                limits,
                chunk_offset(v, b, k),
                (v.coverage.len() - k) as nat,
                v.bytes.subrange(0, s),
                v.coverage.take(k),
                s / b,
            ) == Ok::<(Seq<u8>, Seq<SourceCoverageRange>), C01Error>((v.bytes, v.coverage))
        }),
    decreases v.coverage.len() - k,
{
    let e = encode_spec(v, block);
    let b = block as int;
    let n = v.coverage.len() as int;
    lemma_header(v, block, limits);
    if k == n {
        let len = v.bytes.len() as int;
        assert(v.coverage.take(n) =~= v.coverage);
        assert(e == encoded_header(v, block) + sparse_chunks_bytes(v.bytes, v.coverage, b));
        assert(start_at(v.coverage, n) == len) by {
            if n > 0 {
                assert(v.coverage.last() == v.coverage[n - 1]);
            }
        }
        assert(v.bytes.subrange(0, len) =~= v.bytes);
        assert(len % b == 0);
        vstd::arithmetic::div_mod::lemma_fundamental_div_mod(len, b);
        assert((len / b) * b == len) by (nonlinear_arith)
            requires
                len == b * (len / b) + len % b,
                len % b == 0,
        ;
    } else {
        lemma_chunk_decodes(v, block, limits, k);
        lemma_chunks_decode(v, block, limits, k + 1);
    }
}

/// Encoding a normalized image as an Android sparse image and normalizing the result gives back
/// the same normalized bytes and the same source coverage: defined ranges stay defined,
/// unspecified ranges stay unspecified, and nothing merges or moves.
///
/// This holds whenever the encoding succeeds, the image fits the decoder's output bound, and the
/// encoding fits in memory.
pub proof fn lemma_sparse_roundtrip(v: DiskImageView, block: u32, limits: DiskImageLimits)
    requires
        image_wf(v),
        encode_fault(v, block, limits) is None,
        v.bytes.len() <= limits.max_output_bytes,
        v.bytes.len() <= usize::MAX,
        encode_spec(v, block).len() <= usize::MAX,
    ensures
        sparse_decode_spec(encode_spec(v, block), limits) == Ok::<
            (Seq<u8>, Seq<SourceCoverageRange>),
            C01Error,
        >((v.bytes, v.coverage)),
        normalize_spec(encode_spec(v, block), limits) == Ok::<DiskImageView, C01Error>(
            DiskImageView {
                source_sha256: sha256_hex_of(encode_spec(v, block)),
                normalized_sha256: sha256_hex_of(v.bytes),
                source_format: DiskImageFormat::AndroidSparse,
                bytes: v.bytes,
                coverage: v.coverage,
            },
        ),
{
    let e = encode_spec(v, block);
    let b = block as int;
    let len = v.bytes.len() as int;
    lemma_header(v, block, limits);
    assert(len % b == 0);
    vstd::arithmetic::div_mod::lemma_fundamental_div_mod(len, b);
    assert((len / b) * b == len) by (nonlinear_arith)
        requires
            len == b * (len / b) + len % b,
            len % b == 0,
    ;
    assert(sparse_header_fault(e, limits) is None);
    assert(v.bytes.subrange(0, 0) =~= Seq::<u8>::empty());
    assert(v.coverage.take(0) =~= Seq::<SourceCoverageRange>::empty());
    assert(sparse_chunks_bytes(v.bytes, v.coverage.take(0), b) =~= Seq::<u8>::empty());
    lemma_chunks_decode(v, block, limits, 0);
}

proof fn lemma_chunks_len(
    src: Seq<u8>,
    h: crate::disk_image::SparseHeader,
    limits: DiskImageLimits,
    cursor: int,
    remaining: nat,
    out: Seq<u8>,
    cov: Seq<SourceCoverageRange>,
    produced: int,
)
    ensures
        crate::disk_image::sparse_chunks_spec(src, h, limits, cursor, remaining, out, cov, produced) matches Ok(d)
            ==> d.0.len() == h.total_blocks * h.block_size,
    decreases remaining,
{
    if remaining > 0 {
        match crate::disk_image::sparse_chunk_spec(src, h, limits, cursor, out, cov, produced) {
            Err(_) => {},
            Ok(st) => {
                lemma_chunks_len(src, h, limits, st.0, (remaining - 1) as nat, st.1, st.2, st.3);
            },
        }
    }
}

/// A successful normalization never yields more bytes than the configured output bound, so its
/// result meets that requirement of `lemma_sparse_roundtrip`.
pub proof fn lemma_normalized_within_limit(src: Seq<u8>, limits: DiskImageLimits)
    ensures
        normalize_spec(src, limits) matches Ok(v) ==> v.bytes.len() <= limits.max_output_bytes,
{
    if crate::disk_image::limits_valid(limits) && crate::disk_image::has_sparse_magic(src)
        && crate::disk_image::sparse_header_fault(src, limits) is None {
        let h = crate::disk_image::sparse_header_spec(src);
        lemma_chunks_len(src, h, limits, h.file_header_size as int, h.total_chunks as nat, Seq::empty(), Seq::empty(), 0);
    }
}

} // verus!
