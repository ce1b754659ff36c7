//! liblp dynamic-partition metadata of Android super images: geometry, metadata slots, tables,
//! groups, block devices, extents and logical partitions.
use vstd::prelude::*;
use crate::android::{
    component_views, components_backed_by, lemma_push_backed, push_component, push_spec, AndroidComponent, AndroidComponentKind,
    AndroidComponentView, bytes_equal, device_views, group_views, le32, le64, lemma_run_steps_err, partition_views,
    rd_le32, rd_le64, run_steps, AndroidBlockDevice, AndroidDynamicExtent, AndroidDynamicGroup,
    AndroidDynamicPartition, AndroidLimits, BlockDeviceView, C03Error, DynamicExtentTarget,
    DynamicGroupView, DynamicPartitionView,
};
use crate::bytes::{le_value, read_le_u32};
use crate::digest::{sha256_digest, sha256_of};
use crate::partition_map::{push_string, string_views};
use crate::text::{decimal, numbered_message, owned, push_char};

verus! {

/// liblp geometry magic.
pub const LP_GEOMETRY_MAGIC: u32 = 0x616c_4467;
/// liblp metadata header magic.
pub const LP_HEADER_MAGIC: u32 = 0x414c_5030;
/// Bytes reserved before the primary geometry.
pub const LP_RESERVED_BYTES: u64 = 4096;
/// Bytes of one geometry copy.
pub const LP_GEOMETRY_SIZE: u64 = 4096;
/// liblp sector size.
pub const LP_SECTOR_SIZE: u64 = 512;
/// Size of the geometry structure.
pub const LP_GEOMETRY_STRUCT_SIZE: usize = 52;
/// Size of a v10.0 metadata header.
pub const LP_HEADER_V1_0_SIZE: usize = 128;
/// Size of a v10.2 metadata header.
pub const LP_HEADER_V1_2_SIZE: usize = 256;

/// Validated liblp geometry fields.
#[derive(Debug, Clone, Copy, PartialEq, Eq, Structural)]
pub struct LpGeometry {
    /// Maximum bytes of one metadata copy.
    pub metadata_max_size: u32,
    /// Number of metadata slots.
    pub metadata_slot_count: u32,
    /// Logical block size.
    pub logical_block_size: u32,
}

/// `s` with bytes `[a, b)` replaced by zeros.
pub open spec fn with_zeroed(s: Seq<u8>, a: int, b: int) -> Seq<u8> {
    Seq::new(s.len(), |i: int| if a <= i < b { 0u8 } else { s[i] })
}

/// The geometry stored at `offset`, or why it is rejected.
pub open spec fn geometry_spec(src: Seq<u8>, offset: int) -> Result<LpGeometry, C03Error> {
    if offset > usize::MAX || offset + 52 > usize::MAX {
        Err(C03Error::AccountingOverflow)
    } else if offset + 52 > src.len() {
        Err(C03Error::Malformed("liblp geometry is truncated"))
    } else {
        let g = src.subrange(offset, offset + 52);
        if le_value(g, 0, 4) != LP_GEOMETRY_MAGIC || le_value(g, 4, 4) != 52 {
            Err(C03Error::Malformed("invalid liblp geometry magic/size"))
        } else if sha256_of(with_zeroed(g, 8, 40)) != g.subrange(8, 40) {
            Err(C03Error::Malformed("liblp geometry checksum mismatch"))
        } else {
            let m = le_value(g, 40, 4);
            let c = le_value(g, 44, 4);
            let l = le_value(g, 48, 4);
            if m == 0 || m % 512 != 0 || c == 0 || l == 0 || l % 512 != 0 {
                Err(C03Error::Malformed("invalid liblp geometry fields"))
            } else {
                Ok(LpGeometry { metadata_max_size: m as u32, metadata_slot_count: c as u32, logical_block_size: l as u32 })
            }
        }
    }
}

/// A copy of `bytes` with `[a, b)` zeroed.
fn zeroed_copy(bytes: &[u8], a: usize, b: usize) -> (r: Vec<u8>)
    requires
        a <= b <= bytes@.len(),
    ensures
        r@ == with_zeroed(bytes@, a as int, b as int),
{
    let mut out: Vec<u8> = Vec::new();
    let mut i: usize = 0;
    while i < bytes.len()
        invariant
            i <= bytes@.len(),
            out@.len() == i,
            forall|j: int| 0 <= j < i ==> out@[j] == with_zeroed(bytes@, a as int, b as int)[j],
        decreases bytes.len() - i,
    {
        if a <= i && i < b {
            out.push(0);
        } else {
            out.push(bytes[i]);
        }
        i = i + 1;
    }
    assert(out@ =~= with_zeroed(bytes@, a as int, b as int));
    out
}

/// Whether the SHA-256 of `bytes` with `[a, a + 32)` zeroed equals the 32 bytes stored at
/// `expected_at`.
fn checksum_matches(bytes: &[u8], a: usize, expected_at: usize) -> (r: bool)
    requires
        a + 32 <= bytes@.len(),
        expected_at + 32 <= bytes@.len(),
    ensures
        r == (sha256_of(with_zeroed(bytes@, a as int, a + 32)) == bytes@.subrange(
            expected_at as int,
            expected_at + 32,
        )),
{
    let n = bytes.len();
    let zeroed = zeroed_copy(bytes, a, a + 32);
    let digest = sha256_digest(zeroed.as_slice());
    let expected = vstd::slice::slice_subrange(bytes, expected_at, expected_at + 32);
    bytes_equal(digest.as_slice(), expected)
}

/// Parse and validate the geometry copy at `offset`.
pub fn parse_geometry(source: &[u8], offset: u64) -> (r: Result<LpGeometry, C03Error>)
    ensures
        r matches Ok(g) ==> geometry_spec(source@, offset as int) == Ok::<LpGeometry, C03Error>(g),
        r matches Err(e) ==> geometry_spec(source@, offset as int) == Err::<LpGeometry, C03Error>(e),
{
    if offset > usize::MAX as u64 {
        return Err(C03Error::AccountingOverflow);
    }
    let off = offset as usize;
    if off > usize::MAX - 52 {
        return Err(C03Error::AccountingOverflow);
    }
    if off + 52 > source.len() {
        return Err(C03Error::Malformed("liblp geometry is truncated"));
    }
    let g = vstd::slice::slice_subrange(source, off, off + 52);
    if read_le_u32(g, 0).unwrap() != LP_GEOMETRY_MAGIC || read_le_u32(g, 4).unwrap() != 52 {
        return Err(C03Error::Malformed("invalid liblp geometry magic/size"));
    }
    if !checksum_matches(g, 8, 8) {
        return Err(C03Error::Malformed("liblp geometry checksum mismatch"));
    }
    let m = read_le_u32(g, 40).unwrap();
    let c = read_le_u32(g, 44).unwrap();
    let l = read_le_u32(g, 48).unwrap();
    if m == 0 || m % 512 != 0 || c == 0 || l == 0 || l % 512 != 0 {
        return Err(C03Error::Malformed("invalid liblp geometry fields"));
    }
    Ok(LpGeometry { metadata_max_size: m, metadata_slot_count: c, logical_block_size: l })
}

/// One liblp table descriptor.
#[derive(Debug, Clone, Copy, PartialEq, Eq, Structural)]
pub struct TableDescriptor {
    /// Byte offset of the table inside the tables block.
    pub offset: u32,
    /// Number of entries.
    pub num_entries: u32,
    /// Size of one entry.
    pub entry_size: u32,
}

/// The descriptor stored at `off` of a metadata header.
pub open spec fn descriptor_at(h: Seq<u8>, off: int) -> TableDescriptor {
    TableDescriptor {
        offset: le_value(h, off, 4) as u32,
        num_entries: le_value(h, off + 4, 4) as u32,
        entry_size: le_value(h, off + 8, 4) as u32,
    }
}

/// Read the descriptor at `off` of a header of at least `off + 12` bytes.
pub fn parse_descriptor(header: &[u8], off: usize) -> (d: TableDescriptor)
    requires
        off + 12 <= header@.len(),
    ensures
        d == descriptor_at(header@, off as int),
{
    let n = header.len();
    TableDescriptor {
        offset: read_le_u32(header, off).unwrap(),
        num_entries: read_le_u32(header, off + 4).unwrap(),
        entry_size: read_le_u32(header, off + 8).unwrap(),
    }
}

/// Record the byte range of descriptor `i` when it is non-empty, after bounds checks.
pub open spec fn range_step(ds: Seq<TableDescriptor>, size: int, acc: Seq<(usize, usize)>, i: int) -> Result<
    Seq<(usize, usize)>,
    C03Error,
> {
    let d = ds[i];
    let start = d.offset as int;
    let len = d.num_entries * d.entry_size;
    if len > usize::MAX || start + len > usize::MAX {
        Err(C03Error::AccountingOverflow)
    } else if start + len > size {
        Err(C03Error::Malformed("liblp table descriptor exceeds tables block"))
    } else if len > 0 {
        Ok(acc.push((start as usize, (start + len) as usize)))
    } else {
        Ok(acc)
    }
}

/// The range-recording step over `ds`.
pub open spec fn range_stepper(ds: Seq<TableDescriptor>, size: int) -> spec_fn(Seq<(usize, usize)>, int) -> Result<
    Seq<(usize, usize)>,
    C03Error,
> {
    |acc: Seq<(usize, usize)>, i: int| range_step(ds, size, acc, i)
}

/// Lexicographic order of byte ranges.
pub open spec fn pair_before(a: (usize, usize), b: (usize, usize)) -> bool {
    a.0 < b.0 || (a.0 == b.0 && a.1 < b.1)
}

/// Insert `x` before the first range it sorts before.
pub open spec fn insert_pair(s: Seq<(usize, usize)>, x: (usize, usize)) -> Seq<(usize, usize)>
    decreases s.len(),
{
    if s.len() == 0 {
        seq![x]
    } else if pair_before(x, s[0]) {
        seq![x] + s
    } else {
        seq![s[0]] + insert_pair(s.drop_first(), x)
    }
}

/// Ranges in ascending order.
pub open spec fn sort_pairs(s: Seq<(usize, usize)>) -> Seq<(usize, usize)>
    decreases s.len(),
{
    if s.len() == 0 {
        Seq::empty()
    } else {
        insert_pair(sort_pairs(s.drop_last()), s.last())
    }
}

/// Sorted ranges starting at `cursor` tile exactly up to `size`.
pub open spec fn tiles_from(rs: Seq<(usize, usize)>, cursor: int, size: int) -> Result<(), C03Error>
    decreases rs.len(),
{
    if rs.len() == 0 {
        if cursor != size {
            Err(C03Error::Malformed("liblp table descriptors do not cover tables block"))
        } else {
            Ok(())
        }
    } else if rs[0].0 != cursor {
        Err(C03Error::Malformed("liblp tables contain gap/overlap"))
    } else {
        tiles_from(rs.drop_first(), rs[0].1 as int, size)
    }
}

/// The four tables lie inside the tables block and, sorted, cover it without gap or overlap.
pub open spec fn table_layout_spec(ds: Seq<TableDescriptor>, size: int) -> Result<(), C03Error> {
    match run_steps(Seq::<(usize, usize)>::empty(), range_stepper(ds, size), ds.len()) {
        Err(e) => Err(e),
        Ok(rs) => tiles_from(sort_pairs(rs), 0, size),
    }
}

proof fn lemma_insert_pair_at(s: Seq<(usize, usize)>, x: (usize, usize), p: int)
    requires
        0 <= p <= s.len(),
        forall|k: int| 0 <= k < p ==> !pair_before(x, #[trigger] s[k]),
        p < s.len() ==> pair_before(x, s[p]),
    ensures
        insert_pair(s, x) == s.insert(p, x),
    decreases s.len(),
{
    if s.len() == 0 {
        assert(s.insert(p, x) =~= seq![x]);
    } else if p == 0 {
        assert(s.insert(0, x) =~= seq![x] + s);
    } else {
        assert forall|k: int| 0 <= k < p - 1 implies !pair_before(x, #[trigger] s.drop_first()[k]) by {
            assert(s.drop_first()[k] == s[k + 1]);
        }
        lemma_insert_pair_at(s.drop_first(), x, p - 1);
        assert(s.insert(p, x) =~= seq![s[0]] + s.drop_first().insert(p - 1, x));
    }
}

fn sort_ranges(v: &Vec<(usize, usize)>) -> (r: Vec<(usize, usize)>)
    ensures
        r@ == sort_pairs(v@),
{
    let mut r: Vec<(usize, usize)> = Vec::new();
    let n = v.len();
    let mut i: usize = 0;
    assert(v@.take(0) =~= Seq::<(usize, usize)>::empty());
    while i < n
        invariant
            n == v@.len(),
            i <= n,
            r@ == sort_pairs(v@.take(i as int)),
        decreases n - i,
    {
        let x = v[i];
        let ghost sv = r@;
        let mut p: usize = 0;
        let mut found = false;
        while p < r.len() && !found
            invariant
                p <= r@.len(),
                sv == r@,
                x == v@[i as int],
                forall|k: int| 0 <= k < p ==> !pair_before(x, #[trigger] sv[k]),
                found ==> p < r@.len() && pair_before(x, sv[p as int]),
            decreases r@.len() - p + (if found { 0int } else { 1int }),
        {
            let y = r[p];
            if x.0 < y.0 || (x.0 == y.0 && x.1 < y.1) {
                found = true;
            } else {
                p = p + 1;
            }
        }
        proof {
            lemma_insert_pair_at(sv, x, p as int);
        }
        r.insert(p, x);
        assert(v@.take(i as int + 1).drop_last() =~= v@.take(i as int));
        i = i + 1;
    }
    assert(v@.take(n as int) =~= v@);
    r
}

/// Check that the four descriptors lie inside a tables block of `tables_size` bytes and cover
/// it exactly, without gaps or overlaps.
pub fn validate_table_layout(descriptors: &Vec<TableDescriptor>, tables_size: usize) -> (r: Result<(), C03Error>)
    ensures
        r == table_layout_spec(descriptors@, tables_size as int),
{
    let ghost ds = descriptors@;
    let ghost step = range_stepper(ds, tables_size as int);
    let mut ranges: Vec<(usize, usize)> = Vec::new();
    let mut i: usize = 0;
    while i < descriptors.len()
        invariant
            i <= ds.len(),
            ds == descriptors@,
            step == range_stepper(ds, tables_size as int),
            run_steps(Seq::<(usize, usize)>::empty(), step, i as nat) == Ok::<Seq<(usize, usize)>, C03Error>(ranges@),
        decreases ds.len() - i,
    {
        let d = descriptors[i];
        let start = d.offset as usize;
        let ghost acc = ranges@;
        assert(run_steps(Seq::<(usize, usize)>::empty(), step, (i + 1) as nat) == range_step(ds, tables_size as int, acc, i as int));
        assert((d.num_entries as u64) * (d.entry_size as u64) <= 0xffff_ffff * 0xffff_ffff) by (nonlinear_arith)
            requires
                d.num_entries <= 0xffff_ffff,
                d.entry_size <= 0xffff_ffff,
        ;
        let prod = (d.num_entries as u64) * (d.entry_size as u64);
        if prod > usize::MAX as u64 {
            proof { lemma_run_steps_err(Seq::<(usize, usize)>::empty(), step, (i + 1) as nat, ds.len()); }
            return Err(C03Error::AccountingOverflow);
        }
        let length = prod as usize;
        if start > usize::MAX - length {
            proof { lemma_run_steps_err(Seq::<(usize, usize)>::empty(), step, (i + 1) as nat, ds.len()); }
            return Err(C03Error::AccountingOverflow);
        }
        let end = start + length;
        if end > tables_size {
            proof { lemma_run_steps_err(Seq::<(usize, usize)>::empty(), step, (i + 1) as nat, ds.len()); }
            return Err(C03Error::Malformed("liblp table descriptor exceeds tables block"));
        }
        if length > 0 {
            ranges.push((start, end));
        }
        i = i + 1;
    }
    let sorted = sort_ranges(&ranges);
    let ghost all = sorted@;
    let mut cursor: usize = 0;
    let mut k: usize = 0;
    assert(all.skip(0) =~= all);
    while k < sorted.len()
        invariant
            k <= all.len(),
            all == sorted@,
            ds == descriptors@,
            table_layout_spec(ds, tables_size as int) == tiles_from(all.skip(k as int), cursor as int, tables_size as int),
        decreases all.len() - k,
    {
        let pair = sorted[k];
        let s = pair.0;
        let e = pair.1;
        assert(all.skip(k as int).len() > 0);
        assert(all.skip(k as int)[0] == pair);
        if s != cursor {
            return Err(C03Error::Malformed("liblp tables contain gap/overlap"));
        }
        assert(all.skip(k as int).drop_first() =~= all.skip(k as int + 1));
        cursor = e;
        k = k + 1;
    }
    if cursor != tables_size {
        return Err(C03Error::Malformed("liblp table descriptors do not cover tables block"));
    }
    Ok(())
}

/// Entry `index` of a table, or why it cannot be cut from the tables block.
pub open spec fn table_entry_spec(tables: Seq<u8>, d: TableDescriptor, index: int) -> Result<Seq<u8>, C03Error> {
    let start = d.offset + index * d.entry_size;
    let end = start + d.entry_size;
    if index * d.entry_size > usize::MAX || start > usize::MAX || end > usize::MAX {
        Err(C03Error::AccountingOverflow)
    } else if end > tables.len() {
        Err(C03Error::Malformed("liblp table entry exceeds table block"))
    } else {
        Ok(tables.subrange(start, end))
    }
}

/// Cut entry `index` of the table described by `d` out of the tables block.
pub fn table_entry(tables: &[u8], d: TableDescriptor, index: usize) -> (r: Result<&[u8], C03Error>)
    ensures
        r matches Ok(e) ==> table_entry_spec(tables@, d, index as int) == Ok::<Seq<u8>, C03Error>(e@),
        r matches Err(x) ==> table_entry_spec(tables@, d, index as int) == Err::<Seq<u8>, C03Error>(x),
{
    let es = d.entry_size as usize;
    let off = d.offset as usize;
    if index > 0 && es > usize::MAX / index {
        assert(index * es > usize::MAX) by (nonlinear_arith)
            requires
                index > 0,
                es > usize::MAX / index,
        ;
        return Err(C03Error::AccountingOverflow);
    }
    assert(index * es <= usize::MAX) by (nonlinear_arith)
        requires
            index == 0 || es <= usize::MAX / index,
    ;
    let rel = index * es;
    if off > usize::MAX - rel {
        return Err(C03Error::AccountingOverflow);
    }
    let start = off + rel;
    if start > usize::MAX - es {
        return Err(C03Error::AccountingOverflow);
    }
    let end = start + es;
    if end > tables.len() {
        return Err(C03Error::Malformed("liblp table entry exceeds table block"));
    }
    Ok(vstd::slice::slice_subrange(tables, start, end))
}

/// A character allowed in liblp names: ASCII letter, digit or underscore.
pub open spec fn lp_name_byte_ok(b: u8) -> bool {
    (48 <= b <= 57) || (65 <= b <= 90) || (97 <= b <= 122) || b == 95
}

/// `e` is where the name in `b` ends: the first zero byte, or the end of the field.
pub open spec fn is_name_end(b: Seq<u8>, e: int) -> bool {
    &&& 0 <= e <= b.len()
    &&& forall|j: int| 0 <= j < e ==> #[trigger] b[j] != 0
    &&& e < b.len() ==> b[e] == 0
}

/// The name stored in a zero-padded liblp name field, or `InvalidString`.
pub open spec fn lp_name_spec(b: Seq<u8>, limits: AndroidLimits) -> Result<Seq<char>, C03Error> {
    let e = choose|e: int| is_name_end(b, e);
    if e == 0 || (exists|j: int| e <= j < b.len() && #[trigger] b[j] != 0) || (exists|j: int|
        0 <= j < e && !lp_name_byte_ok(#[trigger] b[j])) || e > limits.max_string_bytes {
        Err(C03Error::InvalidString)
    } else {
        Ok(Seq::new(e as nat, |i: int| b[i] as char))
    }
}

proof fn lemma_name_end_unique(b: Seq<u8>, e1: int, e2: int)
    requires
        is_name_end(b, e1),
        is_name_end(b, e2),
    ensures
        e1 == e2,
{
    if e1 < e2 {
        assert(b[e1] != 0);
    } else if e2 < e1 {
        assert(b[e2] != 0);
    }
}

/// Decode a zero-padded liblp name field.
pub fn parse_lp_name(bytes: &[u8], limits: AndroidLimits) -> (r: Result<String, C03Error>)
    ensures
        r matches Ok(s) ==> lp_name_spec(bytes@, limits) == Ok::<Seq<char>, C03Error>(s@),
        r matches Err(e) ==> lp_name_spec(bytes@, limits) == Err::<Seq<char>, C03Error>(e),
{
    let n = bytes.len();
    let mut end: usize = 0;
    while end < n && bytes[end] != 0
        invariant
            end <= n == bytes@.len(),
            forall|j: int| 0 <= j < end ==> #[trigger] bytes@[j] != 0,
        decreases n - end,
    {
        end = end + 1;
    }
    assert(is_name_end(bytes@, end as int));
    let ghost e = choose|e: int| is_name_end(bytes@, e);
    proof {
        lemma_name_end_unique(bytes@, e, end as int);
    }
    assert(e == end);
    if end == 0 {
        return Err(C03Error::InvalidString);
    }
    let mut j: usize = end;
    while j < n
        invariant
            end <= j <= n == bytes@.len(),
            e == end,
            e == choose|x: int| is_name_end(bytes@, x),
            end > 0,
            forall|k: int| end <= k < j ==> #[trigger] bytes@[k] == 0,
        decreases n - j,
    {
        if bytes[j] != 0 {
            assert(bytes@[j as int] != 0);
            return Err(C03Error::InvalidString);
        }
        j = j + 1;
    }
    let mut out = String::new();
    let mut k: usize = 0;
    while k < end
        invariant
            k <= end <= n == bytes@.len(),
            e == end,
            e == choose|x: int| is_name_end(bytes@, x),
            end > 0,
            forall|i: int| end <= i < n ==> #[trigger] bytes@[i] == 0,
            out@ == Seq::new(k as nat, |i: int| bytes@[i] as char),
            forall|i: int| 0 <= i < k ==> lp_name_byte_ok(#[trigger] bytes@[i]),
        decreases end - k,
    {
        let b = bytes[k];
        if !((48 <= b && b <= 57) || (65 <= b && b <= 90) || (97 <= b && b <= 122) || b == 95) {
            assert(!lp_name_byte_ok(bytes@[k as int]));
            return Err(C03Error::InvalidString);
        }
        push_char(&mut out, b as char);
        assert(out@ =~= Seq::new((k + 1) as nat, |i: int| bytes@[i] as char));
        k = k + 1;
    }
    if end > limits.max_string_bytes {
        return Err(C03Error::InvalidString);
    }
    Ok(out)
}

/// Where a metadata slot's header and tables lie, and its validated table descriptors.
pub ghost struct SlotFrame {
    /// Absolute offset of the header.
    pub start: int,
    /// Header bytes.
    pub header_size: int,
    /// Tables-block bytes.
    pub tables_size: int,
    /// Partition, extent, group and block-device descriptors, in that order.
    pub descriptors: Seq<TableDescriptor>,
}

/// The four descriptors of a metadata header.
pub open spec fn header_descriptors(h: Seq<u8>) -> Seq<TableDescriptor> {
    seq![descriptor_at(h, 80), descriptor_at(h, 92), descriptor_at(h, 104), descriptor_at(h, 116)]
}

/// Checks on the descriptors once the tables block is known to be tiled.
pub open spec fn descriptor_fault(ds: Seq<TableDescriptor>, limits: AndroidLimits) -> Option<C03Error> {
    if ds[0].entry_size < 52 || ds[1].entry_size < 24 || ds[2].entry_size < 48 || ds[3].entry_size < 64
        || ds[3].num_entries == 0 {
        Some(C03Error::Malformed("unsupported liblp table entry size"))
    } else if ds[1].num_entries > limits.max_extents {
        Some(C03Error::TooManyExtents)
    } else if ds[2].num_entries > limits.max_dynamic_groups {
        Some(C03Error::TooManyGroups)
    } else if ds[0].num_entries > limits.max_dynamic_partitions {
        Some(C03Error::TooManyPartitions)
    } else {
        None
    }
}

/// The header, checksums and table layout of the metadata copy at `offset`, or why it is rejected.
pub open spec fn slot_frame_spec(src: Seq<u8>, offset: int, g: LpGeometry, limits: AndroidLimits) -> Result<
    SlotFrame,
    C03Error,
> {
    let start = offset;
    if start > usize::MAX || start + 128 > usize::MAX {
        Err(C03Error::AccountingOverflow)
    } else if start + 128 > src.len() {
        Err(C03Error::Malformed("liblp metadata header is truncated"))
    } else if le_value(src, start, 4) != LP_HEADER_MAGIC {
        Err(C03Error::Malformed("invalid liblp metadata header magic"))
    } else if le_value(src, start + 4, 2) != 10 || le_value(src, start + 6, 2) > 2 {
        Err(C03Error::Malformed("unsupported liblp metadata version"))
    } else {
        let hs = le_value(src, start + 8, 4);
        let minimum = if le_value(src, start + 6, 2) >= 2 { 256int } else { 128int };
        if hs < minimum || hs > g.metadata_max_size {
            Err(C03Error::Malformed("invalid liblp metadata header size"))
        } else if start + hs > usize::MAX {
            Err(C03Error::AccountingOverflow)
        } else if start + hs > src.len() {
            Err(C03Error::Malformed("liblp metadata header exceeds source"))
        } else {
            let h = src.subrange(start, start + hs);
            let ts = le_value(h, 44, 4);
            if sha256_of(with_zeroed(h, 12, 44)) != h.subrange(12, 44) {
                Err(C03Error::Malformed("liblp metadata header checksum mismatch"))
            } else if hs + ts > usize::MAX {
                Err(C03Error::AccountingOverflow)
            } else if hs + ts > g.metadata_max_size {
                Err(C03Error::Malformed("liblp tables exceed metadata slot"))
            } else if start + hs + ts > usize::MAX {
                Err(C03Error::AccountingOverflow)
            } else if start + hs + ts > src.len() {
                Err(C03Error::Malformed("liblp metadata tables exceed source"))
            } else if sha256_of(src.subrange(start + hs, start + hs + ts)) != h.subrange(48, 80) {
                Err(C03Error::Malformed("liblp table checksum mismatch"))
            } else {
                let ds = header_descriptors(h);
                match table_layout_spec(ds, ts) {
                    Err(e) => Err(e),
                    Ok(_) => match descriptor_fault(ds, limits) {
                        Some(e) => Err(e),
                        None => Ok(SlotFrame { start, header_size: hs, tables_size: ts, descriptors: ds }),
                    },
                }
            }
        }
    }
}

/// Group `i` of the group table.
pub open spec fn group_step(
    t: Seq<u8>,
    d: TableDescriptor,
    slot: u32,
    limits: AndroidLimits,
    acc: Seq<DynamicGroupView>,
    i: int,
) -> Result<Seq<DynamicGroupView>, C03Error> {
    match table_entry_spec(t, d, i) {
        Err(e) => Err(e),
        Ok(en) => match lp_name_spec(en.subrange(0, 36), limits) {
            Err(e) => Err(e),
            Ok(name) => match rd_le64(en, 40) {
                Err(e) => Err(e),
                Ok(m) => Ok(acc.push(DynamicGroupView { metadata_slot: slot, name, maximum_size: m as u64 })),
            },
        },
    }
}

/// The group-table step.
pub open spec fn group_stepper(t: Seq<u8>, d: TableDescriptor, slot: u32, limits: AndroidLimits) -> spec_fn(
    Seq<DynamicGroupView>,
    int,
) -> Result<Seq<DynamicGroupView>, C03Error> {
    |acc: Seq<DynamicGroupView>, i: int| group_step(t, d, slot, limits, acc, i)
}

/// Block device `i` of the block-device table.
pub open spec fn device_step(
    t: Seq<u8>,
    d: TableDescriptor,
    slot: u32,
    limits: AndroidLimits,
    acc: Seq<BlockDeviceView>,
    i: int,
) -> Result<Seq<BlockDeviceView>, C03Error> {
    match table_entry_spec(t, d, i) {
        Err(e) => Err(e),
        Ok(en) => match lp_name_spec(en.subrange(24, 60), limits) {
            Err(e) => Err(e),
            Ok(name) => match rd_le64(en, 0) {
                Err(e) => Err(e),
                Ok(first) => match rd_le64(en, 16) {
                    Err(e) => Err(e),
                    Ok(size) => if size == 0 || size % 512 != 0 || first >= size / 512 {
                        Err(C03Error::Malformed("invalid liblp block device"))
                    } else {
                        Ok(acc.push(BlockDeviceView {
                            metadata_slot: slot,
                            name,
                            first_logical_sector: first as u64,
                            size: size as u64,
                        }))
                    },
                },
            },
        },
    }
}

/// The block-device-table step.
pub open spec fn device_stepper(t: Seq<u8>, d: TableDescriptor, slot: u32, limits: AndroidLimits) -> spec_fn(
    Seq<BlockDeviceView>,
    int,
) -> Result<Seq<BlockDeviceView>, C03Error> {
    |acc: Seq<BlockDeviceView>, i: int| device_step(t, d, slot, limits, acc, i)
}

/// The extent described by one extent-table entry, or why it is rejected.
pub open spec fn extent_of(
    src_len: int,
    devices: Seq<BlockDeviceView>,
    num: int,
    ty: int,
    data: int,
    target: int,
) -> Result<AndroidDynamicExtent, C03Error> {
    if num == 0 {
        Err(C03Error::Malformed("zero-length liblp extent"))
    } else if ty == 0 {
        if target >= devices.len() {
            Err(C03Error::Malformed("liblp extent target source is invalid"))
        } else if data + num > u64::MAX {
            Err(C03Error::AccountingOverflow)
        } else if data < devices[target].first_logical_sector || data + num > devices[target].size / 512 {
            Err(C03Error::Malformed("liblp linear extent is out of block device"))
        } else if target == 0 && (data + num) * 512 > u64::MAX {
            Err(C03Error::AccountingOverflow)
        } else if target == 0 && (data + num) * 512 > src_len {
            Err(C03Error::Malformed("liblp linear extent exceeds source image"))
        } else {
            Ok(AndroidDynamicExtent {
                num_sectors: num as u64,
                target: DynamicExtentTarget::Linear { physical_sector: data as u64, block_device_index: target as u32 },
            })
        }
    } else if ty == 1 {
        if data == 0 && target == 0 {
            Ok(AndroidDynamicExtent { num_sectors: num as u64, target: DynamicExtentTarget::Zero })
        } else {
            Err(C03Error::Malformed("invalid liblp zero extent fields"))
        }
    } else {
        Err(C03Error::Malformed("unsupported liblp extent target type"))
    }
}

/// Extent `i` of the extent table.
pub open spec fn extent_step(
    src_len: int,
    t: Seq<u8>,
    d: TableDescriptor,
    devices: Seq<BlockDeviceView>,
    acc: Seq<AndroidDynamicExtent>,
    i: int,
) -> Result<Seq<AndroidDynamicExtent>, C03Error> {
    match table_entry_spec(t, d, i) {
        Err(e) => Err(e),
        Ok(en) => match (rd_le64(en, 0), rd_le32(en, 8), rd_le64(en, 12), rd_le32(en, 20)) {
            (Ok(num), Ok(ty), Ok(data), Ok(target)) => match extent_of(src_len, devices, num, ty, data, target) {
                Err(e) => Err(e),
                Ok(x) => Ok(acc.push(x)),
            },
            (Err(e), _, _, _) => Err(e),
            (_, Err(e), _, _) => Err(e),
            (_, _, Err(e), _) => Err(e),
            (_, _, _, Err(e)) => Err(e),
        },
    }
}

/// The extent-table step.
pub open spec fn extent_stepper(src_len: int, t: Seq<u8>, d: TableDescriptor, devices: Seq<BlockDeviceView>) -> spec_fn(
    Seq<AndroidDynamicExtent>,
    int,
) -> Result<Seq<AndroidDynamicExtent>, C03Error> {
    |acc: Seq<AndroidDynamicExtent>, i: int| extent_step(src_len, t, d, devices, acc, i)
}

/// Total bytes of the first `n` extents, or `None` when some product or partial sum leaves 64 bits.
pub open spec fn extents_bytes(es: Seq<AndroidDynamicExtent>, n: nat) -> Option<int>
    decreases n,
{
    if n == 0 {
        Some(0)
    } else {
        match extents_bytes(es, (n - 1) as nat) {
            None => None,
            Some(t) => {
                let b = es[n - 1].num_sectors * 512;
                if b > u64::MAX || t + b > u64::MAX {
                    None
                } else {
                    Some(t + b)
                }
            },
        }
    }
}

/// Some partition already accepted has name `name`.
pub open spec fn name_taken(parts: Seq<DynamicPartitionView>, name: Seq<char>) -> bool {
    exists|j: int| 0 <= j < parts.len() && (#[trigger] parts[j]).name == name
}

/// Partition `i` of the partition table, with the running per-group byte totals.
pub open spec fn partition_step(
    t: Seq<u8>,
    d: TableDescriptor,
    slot: u32,
    limits: AndroidLimits,
    groups: Seq<DynamicGroupView>,
    extents: Seq<AndroidDynamicExtent>,
    acc: (Seq<DynamicPartitionView>, Seq<int>),
    i: int,
) -> Result<(Seq<DynamicPartitionView>, Seq<int>), C03Error> {
    match table_entry_spec(t, d, i) {
        Err(e) => Err(e),
        Ok(en) => match lp_name_spec(en.subrange(0, 36), limits) {
            Err(e) => Err(e),
            Ok(name) => if name_taken(acc.0, name) {
                Err(C03Error::Malformed("duplicate liblp partition name"))
            } else {
                let attributes = le_value(en, 36, 4);
                let first = le_value(en, 40, 4);
                let count = le_value(en, 44, 4);
                let gi = le_value(en, 48, 4);
                if count == 0 || first + count > usize::MAX || first + count > extents.len() || gi
                    >= groups.len() {
                    Err(C03Error::Malformed("invalid liblp partition extent/group index"))
                } else {
                    let owned = extents.subrange(first, first + count);
                    match extents_bytes(owned, count as nat) {
                        None => Err(C03Error::AccountingOverflow),
                        Some(size) => if acc.1[gi] + size > u64::MAX {
                            Err(C03Error::AccountingOverflow)
                        } else {
                            Ok((
                                acc.0.push(DynamicPartitionView {
                                    metadata_slot: slot,
                                    name,
                                    attributes: attributes as u32,
                                    group_name: groups[gi].name,
                                    extents: owned,
                                    logical_size: size as u64,
                                }),
                                acc.1.update(gi, acc.1[gi] + size),
                            ))
                        },
                    }
                }
            },
        },
    }
}

/// The partition-table step.
pub open spec fn partition_stepper(
    t: Seq<u8>,
    d: TableDescriptor,
    slot: u32,
    limits: AndroidLimits,
    groups: Seq<DynamicGroupView>,
    extents: Seq<AndroidDynamicExtent>,
) -> spec_fn((Seq<DynamicPartitionView>, Seq<int>), int) -> Result<(Seq<DynamicPartitionView>, Seq<int>), C03Error> {
    |acc: (Seq<DynamicPartitionView>, Seq<int>), i: int| partition_step(t, d, slot, limits, groups, extents, acc, i)
}

/// Some group with a maximum size holds more partition bytes than that maximum.
pub open spec fn group_overfull(groups: Seq<DynamicGroupView>, totals: Seq<int>) -> bool {
    exists|i: int|
        0 <= i < groups.len() && (#[trigger] groups[i]).maximum_size != 0 && totals[i] > groups[i].maximum_size
}

/// Everything one valid metadata slot holds.
pub ghost struct SlotView {
    /// Header plus tables bytes.
    pub serialized_size: u64,
    /// Number of extents in the slot.
    pub extent_count: nat,
    /// Logical partitions.
    pub partitions: Seq<DynamicPartitionView>,
    /// Groups.
    pub groups: Seq<DynamicGroupView>,
    /// Block devices.
    pub block_devices: Seq<BlockDeviceView>,
}

/// The metadata slot stored at `offset`, or why it is rejected.
pub open spec fn super_slot_spec(
    src: Seq<u8>,
    offset: int,
    slot: u32,
    g: LpGeometry,
    limits: AndroidLimits,
) -> Result<SlotView, C03Error> {
    match slot_frame_spec(src, offset, g, limits) {
        Err(e) => Err(e),
        Ok(f) => {
            let t = src.subrange(f.start + f.header_size, f.start + f.header_size + f.tables_size);
            let ds = f.descriptors;
            match run_steps(Seq::<DynamicGroupView>::empty(), group_stepper(t, ds[2], slot, limits), ds[2].num_entries as nat) {
                Err(e) => Err(e),
                Ok(groups) => match run_steps(Seq::<BlockDeviceView>::empty(), device_stepper(t, ds[3], slot, limits), ds[3].num_entries as nat) {
                    Err(e) => Err(e),
                    Ok(devices) => match run_steps(Seq::<AndroidDynamicExtent>::empty(), extent_stepper(src.len() as int, t, ds[1], devices), ds[1].num_entries as nat) {
                        Err(e) => Err(e),
                        Ok(extents) => match run_steps(
                            (Seq::<DynamicPartitionView>::empty(), Seq::new(groups.len(), |k: int| 0int)),
                            partition_stepper(t, ds[0], slot, limits, groups, extents),
                            ds[0].num_entries as nat,
                        ) {
                            Err(e) => Err(e),
                            Ok(pt) => if group_overfull(groups, pt.1) {
                                Err(C03Error::Malformed("liblp group maximum size exceeded"))
                            } else {
                                Ok(SlotView {
                                    serialized_size: (f.header_size + f.tables_size) as u64,
                                    extent_count: ds[1].num_entries as nat,
                                    partitions: pt.0,
                                    groups,
                                    block_devices: devices,
                                })
                            },
                        },
                    },
                },
            }
        },
    }
}

/// Locate and validate the header, checksums and table layout of the metadata copy at `offset`;
/// returns the header start, header size, tables size and descriptors.
#[verifier::rlimit(40)]
pub fn slot_frame(source: &[u8], offset: u64, g: LpGeometry, limits: AndroidLimits) -> (r: Result<
    (usize, usize, usize, Vec<TableDescriptor>),
    C03Error,
>)
    ensures
        r matches Ok(f) ==> slot_frame_spec(source@, offset as int, g, limits) == Ok::<SlotFrame, C03Error>(
            SlotFrame { start: f.0 as int, header_size: f.1 as int, tables_size: f.2 as int, descriptors: f.3@ },
        ),
        r matches Err(e) ==> slot_frame_spec(source@, offset as int, g, limits) == Err::<SlotFrame, C03Error>(e),
{
    let n = source.len();
    if offset > usize::MAX as u64 {
        return Err(C03Error::AccountingOverflow);
    }
    let start = offset as usize;
    if start > usize::MAX - 128 {
        return Err(C03Error::AccountingOverflow);
    }
    if start + 128 > n {
        return Err(C03Error::Malformed("liblp metadata header is truncated"));
    }
    if read_le_u32(source, start).unwrap() != LP_HEADER_MAGIC {
        return Err(C03Error::Malformed("invalid liblp metadata header magic"));
    }
    let major = crate::bytes::read_le_u16(source, start + 4).unwrap();
    let minor = crate::bytes::read_le_u16(source, start + 6).unwrap();
    if major != 10 || minor > 2 {
        return Err(C03Error::Malformed("unsupported liblp metadata version"));
    }
    let hs = read_le_u32(source, start + 8).unwrap() as usize;
    let minimum: usize = if minor >= 2 { LP_HEADER_V1_2_SIZE } else { LP_HEADER_V1_0_SIZE };
    if hs < minimum || hs as u64 > g.metadata_max_size as u64 {
        return Err(C03Error::Malformed("invalid liblp metadata header size"));
    }
    if start > usize::MAX - hs {
        return Err(C03Error::AccountingOverflow);
    }
    let header_end = start + hs;
    if header_end > n {
        return Err(C03Error::Malformed("liblp metadata header exceeds source"));
    }
    let header = vstd::slice::slice_subrange(source, start, header_end);
    if !checksum_matches(header, 12, 12) {
        return Err(C03Error::Malformed("liblp metadata header checksum mismatch"));
    }
    let ts = read_le_u32(header, 44).unwrap() as usize;
    if hs > usize::MAX - ts {
        return Err(C03Error::AccountingOverflow);
    }
    if (hs + ts) as u64 > g.metadata_max_size as u64 {
        return Err(C03Error::Malformed("liblp tables exceed metadata slot"));
    }
    if header_end > usize::MAX - ts {
        return Err(C03Error::AccountingOverflow);
    }
    let tables_end = header_end + ts;
    if tables_end > n {
        return Err(C03Error::Malformed("liblp metadata tables exceed source"));
    }
    let tables = vstd::slice::slice_subrange(source, header_end, tables_end);
    let digest = sha256_digest(tables);
    if !bytes_equal(digest.as_slice(), vstd::slice::slice_subrange(header, 48, 80)) {
        return Err(C03Error::Malformed("liblp table checksum mismatch"));
    }
    let descriptors: Vec<TableDescriptor> = vec![
        parse_descriptor(header, 80),
        parse_descriptor(header, 92),
        parse_descriptor(header, 104),
        parse_descriptor(header, 116),
    ];
    assert(descriptors@ =~= header_descriptors(header@));
    validate_table_layout(&descriptors, ts)?;
    let d0 = descriptors[0];
    let d1 = descriptors[1];
    let d2 = descriptors[2];
    let d3 = descriptors[3];
    if d0.entry_size < 52 || d1.entry_size < 24 || d2.entry_size < 48 || d3.entry_size < 64 || d3.num_entries == 0 {
        return Err(C03Error::Malformed("unsupported liblp table entry size"));
    }
    if d1.num_entries as usize > limits.max_extents {
        return Err(C03Error::TooManyExtents);
    }
    if d2.num_entries as usize > limits.max_dynamic_groups {
        return Err(C03Error::TooManyGroups);
    }
    if d0.num_entries as usize > limits.max_dynamic_partitions {
        return Err(C03Error::TooManyPartitions);
    }
    Ok((start, hs, ts, descriptors))
}

fn one_group(
    tables: &[u8],
    d: TableDescriptor,
    slot: u32,
    limits: AndroidLimits,
    i: usize,
    groups: &mut Vec<AndroidDynamicGroup>,
) -> (r: Result<(), C03Error>)
    requires
        d.entry_size >= 48,
    ensures
        r matches Ok(_) ==> group_step(tables@, d, slot, limits, group_views(old(groups)@), i as int)
            == Ok::<Seq<DynamicGroupView>, C03Error>(group_views(final(groups)@)),
        r matches Err(e) ==> group_step(tables@, d, slot, limits, group_views(old(groups)@), i as int)
            == Err::<Seq<DynamicGroupView>, C03Error>(e),
{
    let en = table_entry(tables, d, i)?;
    let name = parse_lp_name(vstd::slice::slice_subrange(en, 0, 36), limits)?;
    let m = le64(en, 40)?;
    let ghost before = group_views(groups@);
    groups.push(AndroidDynamicGroup { metadata_slot: slot, name, maximum_size: m });
    assert(group_views(groups@) =~= before.push(DynamicGroupView { metadata_slot: slot, name: name@, maximum_size: m }));
    Ok(())
}

/// Decode the group table.
pub fn parse_groups(tables: &[u8], d: TableDescriptor, slot: u32, limits: AndroidLimits) -> (r: Result<
    Vec<AndroidDynamicGroup>,
    C03Error,
>)
    requires
        d.entry_size >= 48,
    ensures
        r matches Ok(v) ==> run_steps(Seq::<DynamicGroupView>::empty(), group_stepper(tables@, d, slot, limits), d.num_entries as nat)
            == Ok::<Seq<DynamicGroupView>, C03Error>(group_views(v@)),
        r matches Err(e) ==> run_steps(Seq::<DynamicGroupView>::empty(), group_stepper(tables@, d, slot, limits), d.num_entries as nat)
            == Err::<Seq<DynamicGroupView>, C03Error>(e),
{
    let ghost step = group_stepper(tables@, d, slot, limits);
    let ghost init = Seq::<DynamicGroupView>::empty();
    let mut groups: Vec<AndroidDynamicGroup> = Vec::new();
    assert(group_views(groups@) =~= init);
    let n = d.num_entries as usize;
    let mut i: usize = 0;
    while i < n
        invariant
            i <= n == d.num_entries,
            d.entry_size >= 48,
            step == group_stepper(tables@, d, slot, limits),
            init == Seq::<DynamicGroupView>::empty(),
            run_steps(init, step, i as nat) == Ok::<Seq<DynamicGroupView>, C03Error>(group_views(groups@)),
        decreases n - i,
    {
        let ghost before = group_views(groups@);
        match one_group(tables, d, slot, limits, i, &mut groups) {
            Ok(_) => {},
            Err(e) => {
                assert(run_steps(init, step, (i + 1) as nat) == group_step(tables@, d, slot, limits, before, i as int));
                proof { lemma_run_steps_err(init, step, (i + 1) as nat, n as nat); }
                return Err(e);
            },
        }
        i = i + 1;
    }
    Ok(groups)
}

fn one_device(
    tables: &[u8],
    d: TableDescriptor,
    slot: u32,
    limits: AndroidLimits,
    i: usize,
    devices: &mut Vec<AndroidBlockDevice>,
) -> (r: Result<(), C03Error>)
    requires
        d.entry_size >= 64,
    ensures
        r matches Ok(_) ==> device_step(tables@, d, slot, limits, device_views(old(devices)@), i as int)
            == Ok::<Seq<BlockDeviceView>, C03Error>(device_views(final(devices)@)),
        r matches Err(e) ==> device_step(tables@, d, slot, limits, device_views(old(devices)@), i as int)
            == Err::<Seq<BlockDeviceView>, C03Error>(e),
{
    let en = table_entry(tables, d, i)?;
    let name = parse_lp_name(vstd::slice::slice_subrange(en, 24, 60), limits)?;
    let first = le64(en, 0)?;
    let size = le64(en, 16)?;
    if size == 0 || size % 512 != 0 || first >= size / 512 {
        return Err(C03Error::Malformed("invalid liblp block device"));
    }
    let ghost before = device_views(devices@);
    devices.push(AndroidBlockDevice { metadata_slot: slot, name, first_logical_sector: first, size });
    assert(device_views(devices@) =~= before.push(BlockDeviceView {
        metadata_slot: slot,
        name: name@,
        first_logical_sector: first,
        size,
    }));
    Ok(())
}

/// Decode the block-device table.
pub fn parse_block_devices(tables: &[u8], d: TableDescriptor, slot: u32, limits: AndroidLimits) -> (r: Result<
    Vec<AndroidBlockDevice>,
    C03Error,
>)
    requires
        d.entry_size >= 64,
    ensures
        r matches Ok(v) ==> run_steps(Seq::<BlockDeviceView>::empty(), device_stepper(tables@, d, slot, limits), d.num_entries as nat)
            == Ok::<Seq<BlockDeviceView>, C03Error>(device_views(v@)),
        r matches Err(e) ==> run_steps(Seq::<BlockDeviceView>::empty(), device_stepper(tables@, d, slot, limits), d.num_entries as nat)
            == Err::<Seq<BlockDeviceView>, C03Error>(e),
{
    let ghost step = device_stepper(tables@, d, slot, limits);
    let ghost init = Seq::<BlockDeviceView>::empty();
    let mut devices: Vec<AndroidBlockDevice> = Vec::new();
    assert(device_views(devices@) =~= init);
    let n = d.num_entries as usize;
    let mut i: usize = 0;
    while i < n
        invariant
            i <= n == d.num_entries,
            d.entry_size >= 64,
            step == device_stepper(tables@, d, slot, limits),
            init == Seq::<BlockDeviceView>::empty(),
            run_steps(init, step, i as nat) == Ok::<Seq<BlockDeviceView>, C03Error>(device_views(devices@)),
        decreases n - i,
    {
        let ghost before = device_views(devices@);
        match one_device(tables, d, slot, limits, i, &mut devices) {
            Ok(_) => {},
            Err(e) => {
                assert(run_steps(init, step, (i + 1) as nat) == device_step(tables@, d, slot, limits, before, i as int));
                proof { lemma_run_steps_err(init, step, (i + 1) as nat, n as nat); }
                return Err(e);
            },
        }
        i = i + 1;
    }
    Ok(devices)
}

fn make_extent(
    src_len: usize,
    devices: &Vec<AndroidBlockDevice>,
    num: u64,
    ty: u32,
    data: u64,
    target: u32,
) -> (r: Result<AndroidDynamicExtent, C03Error>)
    ensures
        r matches Ok(x) ==> extent_of(src_len as int, device_views(devices@), num as int, ty as int, data as int, target as int)
            == Ok::<AndroidDynamicExtent, C03Error>(x),
        r matches Err(e) ==> extent_of(src_len as int, device_views(devices@), num as int, ty as int, data as int, target as int)
            == Err::<AndroidDynamicExtent, C03Error>(e),
{
    if num == 0 {
        return Err(C03Error::Malformed("zero-length liblp extent"));
    }
    if ty == 0 {
        if target as usize >= devices.len() {
            return Err(C03Error::Malformed("liblp extent target source is invalid"));
        }
        let block = &devices[target as usize];
        assert(device_views(devices@)[target as int] == block@);
        if data > u64::MAX - num {
            return Err(C03Error::AccountingOverflow);
        }
        let end_sector = data + num;
        if data < block.first_logical_sector || end_sector > block.size / 512 {
            return Err(C03Error::Malformed("liblp linear extent is out of block device"));
        }
        if target == 0 {
            if end_sector > u64::MAX / 512 {
                assert(end_sector * 512 > u64::MAX) by (nonlinear_arith)
                    requires
                        end_sector > u64::MAX / 512,
                ;
                return Err(C03Error::AccountingOverflow);
            }
            assert(end_sector * 512 <= u64::MAX) by (nonlinear_arith)
                requires
                    end_sector <= u64::MAX / 512,
            ;
            if end_sector * 512 > src_len as u64 {
                return Err(C03Error::Malformed("liblp linear extent exceeds source image"));
            }
        }
        Ok(AndroidDynamicExtent {
            num_sectors: num,
            target: DynamicExtentTarget::Linear { physical_sector: data, block_device_index: target },
        })
    } else if ty == 1 {
        if data == 0 && target == 0 {
            Ok(AndroidDynamicExtent { num_sectors: num, target: DynamicExtentTarget::Zero })
        } else {
            Err(C03Error::Malformed("invalid liblp zero extent fields"))
        }
    } else {
        Err(C03Error::Malformed("unsupported liblp extent target type"))
    }
}

fn one_extent(
    src_len: usize,
    tables: &[u8],
    d: TableDescriptor,
    devices: &Vec<AndroidBlockDevice>,
    i: usize,
    extents: &mut Vec<AndroidDynamicExtent>,
) -> (r: Result<(), C03Error>)
    ensures
        r matches Ok(_) ==> extent_step(src_len as int, tables@, d, device_views(devices@), old(extents)@, i as int)
            == Ok::<Seq<AndroidDynamicExtent>, C03Error>(final(extents)@),
        r matches Err(e) ==> extent_step(src_len as int, tables@, d, device_views(devices@), old(extents)@, i as int)
            == Err::<Seq<AndroidDynamicExtent>, C03Error>(e),
{
    let en = table_entry(tables, d, i)?;
    let num = le64(en, 0)?;
    let ty = le32(en, 8)?;
    let data = le64(en, 12)?;
    let target = le32(en, 20)?;
    let x = make_extent(src_len, devices, num, ty, data, target)?;
    extents.push(x);
    Ok(())
}

/// Decode the extent table against the block devices of the same slot.
pub fn parse_extents(src_len: usize, tables: &[u8], d: TableDescriptor, devices: &Vec<AndroidBlockDevice>) -> (r: Result<
    Vec<AndroidDynamicExtent>,
    C03Error,
>)
    ensures
        r matches Ok(v) ==> run_steps(Seq::<AndroidDynamicExtent>::empty(), extent_stepper(src_len as int, tables@, d, device_views(devices@)), d.num_entries as nat)
            == Ok::<Seq<AndroidDynamicExtent>, C03Error>(v@),
        r matches Err(e) ==> run_steps(Seq::<AndroidDynamicExtent>::empty(), extent_stepper(src_len as int, tables@, d, device_views(devices@)), d.num_entries as nat)
            == Err::<Seq<AndroidDynamicExtent>, C03Error>(e),
{
    let ghost step = extent_stepper(src_len as int, tables@, d, device_views(devices@));
    let ghost init = Seq::<AndroidDynamicExtent>::empty();
    let mut extents: Vec<AndroidDynamicExtent> = Vec::new();
    let n = d.num_entries as usize;
    let mut i: usize = 0;
    while i < n
        invariant
            i <= n == d.num_entries,
            step == extent_stepper(src_len as int, tables@, d, device_views(devices@)),
            init == Seq::<AndroidDynamicExtent>::empty(),
            run_steps(init, step, i as nat) == Ok::<Seq<AndroidDynamicExtent>, C03Error>(extents@),
        decreases n - i,
    {
        let ghost before = extents@;
        match one_extent(src_len, tables, d, devices, i, &mut extents) {
            Ok(_) => {},
            Err(e) => {
                assert(run_steps(init, step, (i + 1) as nat) == extent_step(src_len as int, tables@, d, device_views(devices@), before, i as int));
                proof { lemma_run_steps_err(init, step, (i + 1) as nat, n as nat); }
                return Err(e);
            },
        }
        i = i + 1;
    }
    Ok(extents)
}

/// Running per-group totals as integers.
pub open spec fn totals_view(s: Seq<u64>) -> Seq<int> {
    s.map_values(|x: u64| x as int)
}

fn name_in_use(parts: &Vec<AndroidDynamicPartition>, name: &String) -> (r: bool)
    ensures
        r == name_taken(partition_views(parts@), name@),
{
    let ghost pv = partition_views(parts@);
    let mut j: usize = 0;
    while j < parts.len()
        invariant
            j <= parts@.len(),
            pv == partition_views(parts@),
            forall|k: int| 0 <= k < j ==> (#[trigger] pv[k]).name != name@,
        decreases parts.len() - j,
    {
        assert(pv[j as int] == parts@[j as int]@);
        if parts[j].name == *name {
            return true;
        }
        j = j + 1;
    }
    false
}

fn copy_extents(extents: &Vec<AndroidDynamicExtent>, first: usize, end: usize) -> (r: Vec<AndroidDynamicExtent>)
    requires
        first <= end <= extents@.len(),
    ensures
        r@ == extents@.subrange(first as int, end as int),
{
    let mut out: Vec<AndroidDynamicExtent> = Vec::new();
    let mut k = first;
    while k < end
        invariant
            first <= k <= end <= extents@.len(),
            out@ == extents@.subrange(first as int, k as int),
        decreases end - k,
    {
        out.push(extents[k]);
        assert(out@ =~= extents@.subrange(first as int, k as int + 1));
        k = k + 1;
    }
    out
}

fn extents_total(es: &Vec<AndroidDynamicExtent>) -> (r: Option<u64>)
    ensures
        r is None <==> extents_bytes(es@, es@.len()) is None,
        r matches Some(t) ==> extents_bytes(es@, es@.len()) == Some(t as int),
{
    let mut total: u64 = 0;
    let mut k: usize = 0;
    while k < es.len()
        invariant
            k <= es@.len(),
            extents_bytes(es@, k as nat) == Some(total as int),
        decreases es.len() - k,
    {
        let num = es[k].num_sectors;
        if num > u64::MAX / 512 {
            assert(num * 512 > u64::MAX) by (nonlinear_arith)
                requires
                    num > u64::MAX / 512,
            ;
            proof { lemma_bytes_none(es@, (k + 1) as nat, es@.len()); }
            return None;
        }
        assert(num * 512 <= u64::MAX) by (nonlinear_arith)
            requires
                num <= u64::MAX / 512,
        ;
        let b = num * 512;
        if total > u64::MAX - b {
            proof { lemma_bytes_none(es@, (k + 1) as nat, es@.len()); }
            return None;
        }
        total = total + b;
        k = k + 1;
    }
    Some(total)
}

proof fn lemma_bytes_none(es: Seq<AndroidDynamicExtent>, n: nat, m: nat)
    requires
        n <= m,
        extents_bytes(es, n) is None,
    ensures
        extents_bytes(es, m) is None,
    decreases m - n,
{
    if n < m {
        lemma_bytes_none(es, n, (m - 1) as nat);
    }
}

#[verifier::rlimit(30)]
fn one_partition(
    tables: &[u8],
    d: TableDescriptor,
    slot: u32,
    limits: AndroidLimits,
    groups: &Vec<AndroidDynamicGroup>,
    extents: &Vec<AndroidDynamicExtent>,
    i: usize,
    parts: &mut Vec<AndroidDynamicPartition>,
    totals: &mut Vec<u64>,
) -> (r: Result<(), C03Error>)
    requires
        d.entry_size >= 52,
        old(totals)@.len() == groups@.len(),
    ensures
        final(totals)@.len() == groups@.len(),
        r matches Ok(_) ==> partition_step(tables@, d, slot, limits, group_views(groups@), extents@,
            (partition_views(old(parts)@), totals_view(old(totals)@)), i as int)
            == Ok::<(Seq<DynamicPartitionView>, Seq<int>), C03Error>((partition_views(final(parts)@), totals_view(final(totals)@))),
        r matches Err(e) ==> partition_step(tables@, d, slot, limits, group_views(groups@), extents@,
            (partition_views(old(parts)@), totals_view(old(totals)@)), i as int)
            == Err::<(Seq<DynamicPartitionView>, Seq<int>), C03Error>(e),
{
    let en = table_entry(tables, d, i)?;
    let name = parse_lp_name(vstd::slice::slice_subrange(en, 0, 36), limits)?;
    if name_in_use(parts, &name) {
        return Err(C03Error::Malformed("duplicate liblp partition name"));
    }
    let attributes = read_le_u32(en, 36).unwrap();
    let first = read_le_u32(en, 40).unwrap() as usize;
    let count = read_le_u32(en, 44).unwrap() as usize;
    let gi = read_le_u32(en, 48).unwrap() as usize;
    if count == 0 || first > usize::MAX - count || first + count > extents.len() || gi >= groups.len() {
        return Err(C03Error::Malformed("invalid liblp partition extent/group index"));
    }
    let owned = copy_extents(extents, first, first + count);
    let size = match extents_total(&owned) {
        None => {
            return Err(C03Error::AccountingOverflow);
        },
        Some(t) => t,
    };
    let old_total = totals[gi];
    assert(totals_view(totals@)[gi as int] == old_total);
    if old_total > u64::MAX - size {
        return Err(C03Error::AccountingOverflow);
    }
    let ghost tv = totals_view(totals@);
    totals.set(gi, old_total + size);
    assert(totals_view(totals@) =~= tv.update(gi as int, old_total + size));
    let ghost before = partition_views(parts@);
    let group_name = groups[gi].name.clone();
    assert(group_views(groups@)[gi as int] == groups@[gi as int]@);
    parts.push(AndroidDynamicPartition {
        metadata_slot: slot,
        name,
        attributes,
        group_name,
        extents: owned,
        logical_size: size,
    });
    assert(partition_views(parts@) =~= before.push(parts@[parts@.len() - 1]@));
    Ok(())
}

fn zero_totals(n: usize) -> (r: Vec<u64>)
    ensures
        r@.len() == n,
        totals_view(r@) == Seq::new(n as nat, |k: int| 0int),
{
    let mut v: Vec<u64> = Vec::new();
    let mut k: usize = 0;
    while k < n
        invariant
            k <= n,
            v@.len() == k,
            forall|j: int| 0 <= j < k ==> v@[j] == 0,
        decreases n - k,
    {
        v.push(0);
        k = k + 1;
    }
    assert(totals_view(v@) =~= Seq::new(n as nat, |k: int| 0int));
    v
}

/// Decode the partition table against the groups and extents of the same slot; also returns the
/// per-group byte totals.
pub fn parse_partitions(
    tables: &[u8],
    d: TableDescriptor,
    slot: u32,
    limits: AndroidLimits,
    groups: &Vec<AndroidDynamicGroup>,
    extents: &Vec<AndroidDynamicExtent>,
) -> (r: Result<(Vec<AndroidDynamicPartition>, Vec<u64>), C03Error>)
    requires
        d.entry_size >= 52,
    ensures
        r matches Ok(v) ==> v.1@.len() == groups@.len() && run_steps(
            (Seq::<DynamicPartitionView>::empty(), Seq::new(groups@.len(), |k: int| 0int)),
            partition_stepper(tables@, d, slot, limits, group_views(groups@), extents@),
            d.num_entries as nat,
        ) == Ok::<(Seq<DynamicPartitionView>, Seq<int>), C03Error>((partition_views(v.0@), totals_view(v.1@))),
        r matches Err(e) ==> run_steps(
            (Seq::<DynamicPartitionView>::empty(), Seq::new(groups@.len(), |k: int| 0int)),
            partition_stepper(tables@, d, slot, limits, group_views(groups@), extents@),
            d.num_entries as nat,
        ) == Err::<(Seq<DynamicPartitionView>, Seq<int>), C03Error>(e),
{
    let ghost step = partition_stepper(tables@, d, slot, limits, group_views(groups@), extents@);
    let ghost init = (Seq::<DynamicPartitionView>::empty(), Seq::new(groups@.len(), |k: int| 0int));
    let mut parts: Vec<AndroidDynamicPartition> = Vec::new();
    let mut totals = zero_totals(groups.len());
    assert(partition_views(parts@) =~= Seq::<DynamicPartitionView>::empty());
    let n = d.num_entries as usize;
    let mut i: usize = 0;
    while i < n
        invariant
            i <= n == d.num_entries,
            d.entry_size >= 52,
            totals@.len() == groups@.len(),
            step == partition_stepper(tables@, d, slot, limits, group_views(groups@), extents@),
            init == (Seq::<DynamicPartitionView>::empty(), Seq::new(groups@.len(), |k: int| 0int)),
            run_steps(init, step, i as nat) == Ok::<(Seq<DynamicPartitionView>, Seq<int>), C03Error>(
                (partition_views(parts@), totals_view(totals@)),
            ),
        decreases n - i,
    {
        let ghost before = (partition_views(parts@), totals_view(totals@));
        match one_partition(tables, d, slot, limits, groups, extents, i, &mut parts, &mut totals) {
            Ok(_) => {},
            Err(e) => {
                assert(run_steps(init, step, (i + 1) as nat) == partition_step(tables@, d, slot, limits,
                    group_views(groups@), extents@, before, i as int));
                proof { lemma_run_steps_err(init, step, (i + 1) as nat, n as nat); }
                return Err(e);
            },
        }
        i = i + 1;
    }
    Ok((parts, totals))
}

fn any_group_overfull(groups: &Vec<AndroidDynamicGroup>, totals: &Vec<u64>) -> (r: bool)
    requires
        totals@.len() == groups@.len(),
    ensures
        r == group_overfull(group_views(groups@), totals_view(totals@)),
{
    let ghost gv = group_views(groups@);
    let ghost tv = totals_view(totals@);
    let mut i: usize = 0;
    while i < groups.len()
        invariant
            i <= groups@.len() == totals@.len(),
            gv == group_views(groups@),
            tv == totals_view(totals@),
            forall|k: int| 0 <= k < i ==> !((#[trigger] gv[k]).maximum_size != 0 && tv[k] > gv[k].maximum_size),
        decreases groups.len() - i,
    {
        let m = groups[i].maximum_size;
        assert(gv[i as int] == groups@[i as int]@);
        assert(tv[i as int] == totals@[i as int]);
        if m != 0 && totals[i] > m {
            return true;
        }
        i = i + 1;
    }
    false
}

/// One valid metadata slot.
#[derive(Debug)]
pub struct ParsedSuperSlot {
    /// Header plus tables bytes.
    pub serialized_size: u64,
    /// Number of extents.
    pub extent_count: usize,
    /// Logical partitions.
    pub partitions: Vec<AndroidDynamicPartition>,
    /// Groups.
    pub groups: Vec<AndroidDynamicGroup>,
    /// Block devices.
    pub block_devices: Vec<AndroidBlockDevice>,
}

impl View for ParsedSuperSlot {
    type V = SlotView;

    open spec fn view(&self) -> SlotView {
        SlotView {
            serialized_size: self.serialized_size,
            extent_count: self.extent_count as nat,
            partitions: partition_views(self.partitions@),
            groups: group_views(self.groups@),
            block_devices: device_views(self.block_devices@),
        }
    }
}

/// Parse and validate the metadata copy of slot `slot` stored at `offset`.
#[verifier::rlimit(40)]
pub fn parse_super_slot(source: &[u8], offset: u64, slot: u32, geometry: LpGeometry, limits: AndroidLimits) -> (r:
    Result<ParsedSuperSlot, C03Error>)
    ensures
        r matches Ok(p) ==> super_slot_spec(source@, offset as int, slot, geometry, limits) == Ok::<SlotView, C03Error>(p@),
        r matches Err(e) ==> super_slot_spec(source@, offset as int, slot, geometry, limits) == Err::<SlotView, C03Error>(e),
{
    let (start, hs, ts, ds) = slot_frame(source, offset, geometry, limits)?;
    let n = source.len();
    let tables = vstd::slice::slice_subrange(source, start + hs, start + hs + ts);
    let groups = parse_groups(tables, ds[2], slot, limits)?;
    let devices = parse_block_devices(tables, ds[3], slot, limits)?;
    let extents = parse_extents(n, tables, ds[1], &devices)?;
    let (partitions, totals) = parse_partitions(tables, ds[0], slot, limits, &groups, &extents)?;
    if any_group_overfull(&groups, &totals) {
        return Err(C03Error::Malformed("liblp group maximum size exceeded"));
    }
    assert(group_views(groups@).len() == groups@.len());
    Ok(ParsedSuperSlot {
        serialized_size: (hs + ts) as u64,
        extent_count: ds[1].num_entries as usize,
        partitions,
        groups,
        block_devices: devices,
    })
}

/// Decoder state across metadata slots.
pub ghost struct SuperState {
    /// Components so far.
    pub components: Seq<AndroidComponentView>,
    /// Logical partitions so far.
    pub partitions: Seq<DynamicPartitionView>,
    /// Groups so far.
    pub groups: Seq<DynamicGroupView>,
    /// Block devices so far.
    pub block_devices: Seq<BlockDeviceView>,
    /// Limitations so far.
    pub limitations: Seq<Seq<char>>,
    /// Extents across accepted slots.
    pub extent_total: int,
    /// Accepted slots.
    pub valid_slots: int,
}

/// Limitation text about metadata slot `slot`.
pub open spec fn slot_note(slot: int, suffix: Seq<char>) -> Seq<char> {
    "liblp metadata slot "@ + decimal(slot as nat) + suffix
}

/// Name of the component holding slot `slot`'s selected metadata copy.
pub open spec fn slot_component_name(slot: int) -> Seq<char> {
    "super.metadata.slot."@ + decimal(slot as nat)
}

/// Accept the selected copy `sel`, stored at `off`, of metadata slot `slot`.
pub open spec fn accept_slot(
    src: Seq<u8>,
    limits: AndroidLimits,
    st: SuperState,
    slot: int,
    sel: SlotView,
    off: int,
) -> Result<SuperState, C03Error> {
    if off + sel.serialized_size > u64::MAX {
        Err(C03Error::AccountingOverflow)
    } else {
        match push_spec(
            src,
            limits,
            st.components,
            AndroidComponentKind::SuperMetadata,
            slot_component_name(slot),
            off,
            off + sel.serialized_size,
        ) {
            Err(e) => Err(e),
            Ok(c) => if st.extent_total + sel.extent_count > usize::MAX {
                Err(C03Error::AccountingOverflow)
            } else if st.extent_total + sel.extent_count > limits.max_extents {
                Err(C03Error::TooManyExtents)
            } else if st.partitions.len() + sel.partitions.len() > limits.max_dynamic_partitions {
                Err(C03Error::TooManyPartitions)
            } else if st.groups.len() + sel.groups.len() > limits.max_dynamic_groups {
                Err(C03Error::TooManyGroups)
            } else {
                Ok(SuperState {
                    components: c,
                    partitions: st.partitions + sel.partitions,
                    groups: st.groups + sel.groups,
                    block_devices: st.block_devices + sel.block_devices,
                    limitations: st.limitations,
                    extent_total: st.extent_total + sel.extent_count,
                    valid_slots: st.valid_slots + 1,
                })
            },
        }
    }
}

/// Decode metadata slot `slot` from its primary copy and its backup copy.
pub open spec fn super_slot_step(
    src: Seq<u8>,
    limits: AndroidLimits,
    g: LpGeometry,
    backup_base: int,
    st: SuperState,
    slot: int,
) -> Result<SuperState, C03Error> {
    let delta = g.metadata_max_size * slot;
    let po = 12288 + delta;
    let bo = backup_base + delta;
    if delta > u64::MAX || po > u64::MAX || bo > u64::MAX {
        Err(C03Error::AccountingOverflow)
    } else {
        let p = super_slot_spec(src, po, slot as u32, g, limits);
        let b = super_slot_spec(src, bo, slot as u32, g, limits);
        match (p, b) {
            (Ok(x), Ok(y)) => accept_slot(
                src,
                limits,
                SuperState {
                    limitations: if x != y {
                        st.limitations.push(slot_note(slot, " primary/backup copies disagree"@))
                    } else {
                        st.limitations
                    },
                    ..st
                },
                slot,
                x,
                po,
            ),
            (Ok(x), Err(_)) => accept_slot(
                src,
                limits,
                SuperState { limitations: st.limitations.push(slot_note(slot, " backup copy is invalid"@)), ..st },
                slot,
                x,
                po,
            ),
            (Err(_), Ok(y)) => accept_slot(
                src,
                limits,
                SuperState { limitations: st.limitations.push(slot_note(slot, " primary copy is invalid"@)), ..st },
                slot,
                y,
                bo,
            ),
            (Err(_), Err(_)) => Ok(
                SuperState { limitations: st.limitations.push(slot_note(slot, " has no valid copy"@)), ..st },
            ),
        }
    }
}

/// The slot step of a super image with geometry `g`.
pub open spec fn super_stepper(src: Seq<u8>, limits: AndroidLimits, g: LpGeometry, backup_base: int) -> spec_fn(
    SuperState,
    int,
) -> Result<SuperState, C03Error> {
    |st: SuperState, slot: int| super_slot_step(src, limits, g, backup_base, st, slot)
}

/// Geometry copies of a super image: the geometry in force, the first limitation, and the
/// geometry components.
pub open spec fn super_geometry_spec(src: Seq<u8>, limits: AndroidLimits) -> Result<
    (LpGeometry, Seq<Seq<char>>, Seq<AndroidComponentView>),
    C03Error,
> {
    let pg = geometry_spec(src, 4096);
    let bg = geometry_spec(src, 8192);
    if pg is Err && bg is Err {
        Err(C03Error::Malformed("both liblp geometry copies are invalid"))
    } else {
        let g = if pg is Ok { pg->Ok_0 } else { bg->Ok_0 };
        if g.metadata_slot_count > limits.max_metadata_slots {
            Err(C03Error::Malformed("liblp metadata slot count exceeds configured bound"))
        } else {
            let lim = if pg is Ok && bg is Ok {
                if pg->Ok_0 != bg->Ok_0 {
                    seq!["primary and backup liblp geometry copies disagree"@]
                } else {
                    Seq::empty()
                }
            } else {
                seq!["one liblp geometry copy is invalid"@]
            };
            match (if pg is Ok {
                push_spec(src, limits, Seq::empty(), AndroidComponentKind::SuperGeometry, "super.geometry.primary"@, 4096, 8192)
            } else {
                Ok(Seq::empty())
            }) {
                Err(e) => Err(e),
                Ok(c0) => match (if bg is Ok {
                    push_spec(src, limits, c0, AndroidComponentKind::SuperGeometry, "super.geometry.backup"@, 8192, 12288)
                } else {
                    Ok(c0)
                }) {
                    Err(e) => Err(e),
                    Ok(c1) => Ok((g, lim, c1)),
                },
            }
        }
    }
}

/// Components, dynamic partitions, groups, block devices and limitations of a super image.
pub open spec fn super_spec(src: Seq<u8>, limits: AndroidLimits) -> Result<SuperState, C03Error> {
    match super_geometry_spec(src, limits) {
        Err(e) => Err(e),
        Ok((g, lim, comps)) => {
            let backup_base = 12288 + g.metadata_max_size * g.metadata_slot_count;
            if backup_base > u64::MAX {
                Err(C03Error::AccountingOverflow)
            } else {
                let init = SuperState {
                    components: comps,
                    partitions: Seq::empty(),
                    groups: Seq::empty(),
                    block_devices: Seq::empty(),
                    limitations: lim,
                    extent_total: 0,
                    valid_slots: 0,
                };
                match run_steps(init, super_stepper(src, limits, g, backup_base), g.metadata_slot_count as nat) {
                    Err(e) => Err(e),
                    Ok(st) => if st.valid_slots == 0 {
                        Err(C03Error::Malformed("no valid liblp metadata slot"))
                    } else {
                        Ok(st)
                    },
                }
            }
        },
    }
}

proof fn lemma_slot_step_backed(
    src: Seq<u8>,
    limits: AndroidLimits,
    g: LpGeometry,
    backup_base: int,
    st: SuperState,
    slot: int,
)
    requires
        src.len() <= u64::MAX,
        components_backed_by(src, st.components),
    ensures
        super_slot_step(src, limits, g, backup_base, st, slot) matches Ok(s2) ==> components_backed_by(
            src,
            s2.components,
        ),
{
    broadcast use lemma_push_backed;

}

proof fn lemma_super_steps_backed(
    src: Seq<u8>,
    limits: AndroidLimits,
    g: LpGeometry,
    backup_base: int,
    init: SuperState,
    n: nat,
)
    requires
        src.len() <= u64::MAX,
        components_backed_by(src, init.components),
    ensures
        run_steps(init, super_stepper(src, limits, g, backup_base), n) matches Ok(st) ==> components_backed_by(
            src,
            st.components,
        ),
    decreases n,
{
    if n > 0 {
        lemma_super_steps_backed(src, limits, g, backup_base, init, (n - 1) as nat);
        if let Ok(st) = run_steps(init, super_stepper(src, limits, g, backup_base), (n - 1) as nat) {
            lemma_slot_step_backed(src, limits, g, backup_base, st, n - 1);
        }
    }
}

/// Every component of a super layout is backed by the source.
pub proof fn lemma_super_backed(src: Seq<u8>, limits: AndroidLimits)
    requires
        src.len() <= u64::MAX,
    ensures
        super_spec(src, limits) matches Ok(st) ==> components_backed_by(src, st.components),
{
    broadcast use lemma_push_backed;

    assert(components_backed_by(src, Seq::<AndroidComponentView>::empty()));
    if let Ok((g, lim, comps)) = super_geometry_spec(src, limits) {
        let backup_base = 12288 + g.metadata_max_size * g.metadata_slot_count;
        let init = SuperState {
            components: comps,
            partitions: Seq::empty(),
            groups: Seq::empty(),
            block_devices: Seq::empty(),
            limitations: lim,
            extent_total: 0,
            valid_slots: 0,
        };
        lemma_super_steps_backed(src, limits, g, backup_base, init, g.metadata_slot_count as nat);
    }
}

pub(crate) fn extents_equal(a: &Vec<AndroidDynamicExtent>, b: &Vec<AndroidDynamicExtent>) -> (r: bool)
    ensures
        r == (a@ == b@),
{
    if a.len() != b.len() {
        return false;
    }
    let mut i: usize = 0;
    while i < a.len()
        invariant
            i <= a@.len() == b@.len(),
            forall|j: int| 0 <= j < i ==> a@[j] == b@[j],
        decreases a.len() - i,
    {
        if a[i] != b[i] {
            return false;
        }
        i = i + 1;
    }
    assert(a@ =~= b@);
    true
}

pub(crate) fn partitions_equal(a: &Vec<AndroidDynamicPartition>, b: &Vec<AndroidDynamicPartition>) -> (r: bool)
    ensures
        r == (partition_views(a@) == partition_views(b@)),
{
    if a.len() != b.len() {
        assert(partition_views(a@).len() != partition_views(b@).len());
        return false;
    }
    let mut i: usize = 0;
    while i < a.len()
        invariant
            i <= a@.len() == b@.len(),
            forall|j: int| 0 <= j < i ==> partition_views(a@)[j] == partition_views(b@)[j],
        decreases a.len() - i,
    {
        let x = &a[i];
        let y = &b[i];
        if !(x.metadata_slot == y.metadata_slot && x.name == y.name && x.attributes == y.attributes
            && x.group_name == y.group_name && extents_equal(&x.extents, &y.extents) && x.logical_size
            == y.logical_size) {
            assert(partition_views(a@)[i as int] != partition_views(b@)[i as int]);
            return false;
        }
        i = i + 1;
    }
    assert(partition_views(a@) =~= partition_views(b@));
    true
}

pub(crate) fn groups_equal(a: &Vec<AndroidDynamicGroup>, b: &Vec<AndroidDynamicGroup>) -> (r: bool)
    ensures
        r == (group_views(a@) == group_views(b@)),
{
    if a.len() != b.len() {
        assert(group_views(a@).len() != group_views(b@).len());
        return false;
    }
    let mut i: usize = 0;
    while i < a.len()
        invariant
            i <= a@.len() == b@.len(),
            forall|j: int| 0 <= j < i ==> group_views(a@)[j] == group_views(b@)[j],
        decreases a.len() - i,
    {
        let x = &a[i];
        let y = &b[i];
        if !(x.metadata_slot == y.metadata_slot && x.name == y.name && x.maximum_size == y.maximum_size) {
            assert(group_views(a@)[i as int] != group_views(b@)[i as int]);
            return false;
        }
        i = i + 1;
    }
    assert(group_views(a@) =~= group_views(b@));
    true
}

pub(crate) fn devices_equal(a: &Vec<AndroidBlockDevice>, b: &Vec<AndroidBlockDevice>) -> (r: bool)
    ensures
        r == (device_views(a@) == device_views(b@)),
{
    if a.len() != b.len() {
        assert(device_views(a@).len() != device_views(b@).len());
        return false;
    }
    let mut i: usize = 0;
    while i < a.len()
        invariant
            i <= a@.len() == b@.len(),
            forall|j: int| 0 <= j < i ==> device_views(a@)[j] == device_views(b@)[j],
        decreases a.len() - i,
    {
        let x = &a[i];
        let y = &b[i];
        if !(x.metadata_slot == y.metadata_slot && x.name == y.name && x.first_logical_sector
            == y.first_logical_sector && x.size == y.size) {
            assert(device_views(a@)[i as int] != device_views(b@)[i as int]);
            return false;
        }
        i = i + 1;
    }
    assert(device_views(a@) =~= device_views(b@));
    true
}

fn slots_equal(a: &ParsedSuperSlot, b: &ParsedSuperSlot) -> (r: bool)
    ensures
        r == (a@ == b@),
{
    a.serialized_size == b.serialized_size && a.extent_count == b.extent_count && partitions_equal(
        &a.partitions,
        &b.partitions,
    ) && groups_equal(&a.groups, &b.groups) && devices_equal(&a.block_devices, &b.block_devices)
}

/// Decoded super-image layout.
#[derive(Debug)]
pub struct SuperLayout {
    /// Geometry and metadata components.
    pub components: Vec<AndroidComponent>,
    /// Logical partitions of all accepted slots.
    pub partitions: Vec<AndroidDynamicPartition>,
    /// Groups of all accepted slots.
    pub groups: Vec<AndroidDynamicGroup>,
    /// Block devices of all accepted slots.
    pub block_devices: Vec<AndroidBlockDevice>,
    /// Limitations.
    pub limitations: Vec<String>,
    /// Extents across accepted slots.
    pub extent_total: usize,
    /// Accepted slots.
    pub valid_slots: u32,
}

impl View for SuperLayout {
    type V = SuperState;

    open spec fn view(&self) -> SuperState {
        SuperState {
            components: component_views(self.components@),
            partitions: partition_views(self.partitions@),
            groups: group_views(self.groups@),
            block_devices: device_views(self.block_devices@),
            limitations: string_views(self.limitations@),
            extent_total: self.extent_total as int,
            valid_slots: self.valid_slots as int,
        }
    }
}

#[verifier::rlimit(30)]
fn accept_slot_exec(
    source: &[u8],
    limits: AndroidLimits,
    layout: &mut SuperLayout,
    slot: u32,
    sel: ParsedSuperSlot,
    off: u64,
) -> (r: Result<(), C03Error>)
    requires
        old(layout).valid_slots <= slot,
        slot < 0xffff_ffff,
    ensures
        final(layout).valid_slots <= old(layout).valid_slots + 1,
        r matches Ok(_) ==> accept_slot(source@, limits, old(layout)@, slot as int, sel@, off as int)
            == Ok::<SuperState, C03Error>(final(layout)@),
        r matches Err(e) ==> accept_slot(source@, limits, old(layout)@, slot as int, sel@, off as int)
            == Err::<SuperState, C03Error>(e),
{
    if off > u64::MAX - sel.serialized_size {
        return Err(C03Error::AccountingOverflow);
    }
    let name = numbered_message("super.metadata.slot.", slot as u64, "");
    proof {
        reveal_strlit("");
        assert(name@ =~= slot_component_name(slot as int));
    }
    push_component(source, &mut layout.components, AndroidComponentKind::SuperMetadata, name.as_str(), off,
        off + sel.serialized_size, limits)?;
    if layout.extent_total > usize::MAX - sel.extent_count {
        return Err(C03Error::AccountingOverflow);
    }
    let total = layout.extent_total + sel.extent_count;
    if total > limits.max_extents {
        return Err(C03Error::TooManyExtents);
    }
    let ghost old_p = partition_views(layout.partitions@);
    let ghost old_g = group_views(layout.groups@);
    let ghost old_d = device_views(layout.block_devices@);
    let ghost sel_v = sel@;
    let mut sel = sel;
    let ghost sp = sel.partitions@;
    let ghost sg = sel.groups@;
    let ghost sd = sel.block_devices@;
    let ghost lp = layout.partitions@;
    let ghost lg = layout.groups@;
    let ghost ld = layout.block_devices@;
    layout.partitions.append(&mut sel.partitions);
    layout.groups.append(&mut sel.groups);
    layout.block_devices.append(&mut sel.block_devices);
    assert(partition_views(lp + sp) =~= partition_views(lp) + partition_views(sp));
    assert(group_views(lg + sg) =~= group_views(lg) + group_views(sg));
    assert(device_views(ld + sd) =~= device_views(ld) + device_views(sd));
    layout.extent_total = total;
    if layout.partitions.len() > limits.max_dynamic_partitions {
        return Err(C03Error::TooManyPartitions);
    }
    if layout.groups.len() > limits.max_dynamic_groups {
        return Err(C03Error::TooManyGroups);
    }
    layout.valid_slots = layout.valid_slots + 1;
    Ok(())
}

#[verifier::rlimit(40)]
fn super_slot_exec(
    source: &[u8],
    limits: AndroidLimits,
    g: LpGeometry,
    backup_base: u64,
    layout: &mut SuperLayout,
    slot: u32,
) -> (r: Result<(), C03Error>)
    requires
        old(layout).valid_slots <= slot,
        slot < 0xffff_ffff,
    ensures
        final(layout).valid_slots <= slot + 1,
        r matches Ok(_) ==> super_slot_step(source@, limits, g, backup_base as int, old(layout)@, slot as int)
            == Ok::<SuperState, C03Error>(final(layout)@),
        r matches Err(e) ==> super_slot_step(source@, limits, g, backup_base as int, old(layout)@, slot as int)
            == Err::<SuperState, C03Error>(e),
{
    let ms = g.metadata_max_size as u64;
    assert(ms * (slot as u64) <= 0xffff_ffff * 0xffff_ffff) by (nonlinear_arith)
        requires
            ms <= 0xffff_ffff,
            slot <= 0xffff_ffff,
    ;
    let delta = ms * (slot as u64);
    if delta > u64::MAX - 12288 || backup_base > u64::MAX - delta {
        return Err(C03Error::AccountingOverflow);
    }
    let po = 12288 + delta;
    let bo = backup_base + delta;
    let p = parse_super_slot(source, po, slot, g, limits);
    let b = parse_super_slot(source, bo, slot, g, limits);
    let ghost st0 = layout@;
    match (p, b) {
        (Ok(x), Ok(y)) => {
            if !slots_equal(&x, &y) {
                push_string(&mut layout.limitations, numbered_message("liblp metadata slot ", slot as u64, " primary/backup copies disagree"));
            }
            proof { reveal_strlit("liblp metadata slot "); }
            assert(layout@ =~= SuperState {
                limitations: if x@ != y@ {
                    st0.limitations.push(slot_note(slot as int, " primary/backup copies disagree"@))
                } else {
                    st0.limitations
                },
                ..st0
            });
            accept_slot_exec(source, limits, layout, slot, x, po)
        },
        (Ok(x), Err(_)) => {
            push_string(&mut layout.limitations, numbered_message("liblp metadata slot ", slot as u64, " backup copy is invalid"));
            assert(layout@ =~= SuperState {
                limitations: st0.limitations.push(slot_note(slot as int, " backup copy is invalid"@)),
                ..st0
            });
            accept_slot_exec(source, limits, layout, slot, x, po)
        },
        (Err(_), Ok(y)) => {
            push_string(&mut layout.limitations, numbered_message("liblp metadata slot ", slot as u64, " primary copy is invalid"));
            assert(layout@ =~= SuperState {
                limitations: st0.limitations.push(slot_note(slot as int, " primary copy is invalid"@)),
                ..st0
            });
            accept_slot_exec(source, limits, layout, slot, y, bo)
        },
        (Err(_), Err(_)) => {
            push_string(&mut layout.limitations, numbered_message("liblp metadata slot ", slot as u64, " has no valid copy"));
            assert(layout@ =~= SuperState {
                limitations: st0.limitations.push(slot_note(slot as int, " has no valid copy"@)),
                ..st0
            });
            Ok(())
        },
    }
}

fn geometry_opt(source: &[u8], offset: u64) -> (r: Option<LpGeometry>)
    ensures
        r is Some <==> geometry_spec(source@, offset as int) is Ok,
        r matches Some(g) ==> geometry_spec(source@, offset as int) == Ok::<LpGeometry, C03Error>(g),
{
    match parse_geometry(source, offset) {
        Ok(g) => Some(g),
        Err(_) => None,
    }
}

fn run_slots(source: &[u8], limits: AndroidLimits, g: LpGeometry, backup_base: u64, layout: &mut SuperLayout) -> (r:
    Result<(), C03Error>)
    requires
        old(layout).valid_slots == 0,
    ensures
        r matches Ok(_) ==> run_steps(old(layout)@, super_stepper(source@, limits, g, backup_base as int),
            g.metadata_slot_count as nat) == Ok::<SuperState, C03Error>(final(layout)@),
        r matches Err(e) ==> run_steps(old(layout)@, super_stepper(source@, limits, g, backup_base as int),
            g.metadata_slot_count as nat) == Err::<SuperState, C03Error>(e),
{
    let ghost init = layout@;
    let ghost step = super_stepper(source@, limits, g, backup_base as int);
    let mut slot: u32 = 0;
    while slot < g.metadata_slot_count
        invariant
            slot <= g.metadata_slot_count,
            layout.valid_slots <= slot,
            init == old(layout)@,
            step == super_stepper(source@, limits, g, backup_base as int),
            run_steps(init, step, slot as nat) == Ok::<SuperState, C03Error>(layout@),
        decreases g.metadata_slot_count - slot,
    {
        let ghost before = layout@;
        match super_slot_exec(source, limits, g, backup_base, layout, slot) {
            Ok(_) => {},
            Err(e) => {
                assert(run_steps(init, step, (slot + 1) as nat) == super_slot_step(source@, limits, g,
                    backup_base as int, before, slot as int));
                proof { lemma_run_steps_err(init, step, (slot + 1) as nat, g.metadata_slot_count as nat); }
                return Err(e);
            },
        }
        slot = slot + 1;
    }
    Ok(())
}

/// Decode the geometry copies and every metadata slot of a super image.
#[verifier::rlimit(40)]
pub fn inspect_super_layout(source: &[u8], limits: AndroidLimits) -> (r: Result<SuperLayout, C03Error>)
    ensures
        r matches Ok(l) ==> super_spec(source@, limits) == Ok::<SuperState, C03Error>(l@),
        r matches Err(e) ==> super_spec(source@, limits) == Err::<SuperState, C03Error>(e),
{
    let pg = geometry_opt(source, 4096);
    let bg = geometry_opt(source, 8192);
    let g = match (pg, bg) {
        (Some(x), _) => x,
        (None, Some(y)) => y,
        (None, None) => {
            return Err(C03Error::Malformed("both liblp geometry copies are invalid"));
        },
    };
    if g.metadata_slot_count > limits.max_metadata_slots {
        return Err(C03Error::Malformed("liblp metadata slot count exceeds configured bound"));
    }
    let mut limitations: Vec<String> = Vec::new();
    match (pg, bg) {
        (Some(x), Some(y)) => {
            if x != y {
                limitations.push(owned("primary and backup liblp geometry copies disagree"));
            }
        },
        _ => {
            limitations.push(owned("one liblp geometry copy is invalid"));
        },
    }
    let mut components: Vec<AndroidComponent> = Vec::new();
    assert(component_views(components@) =~= Seq::<AndroidComponentView>::empty());
    if pg.is_some() {
        push_component(source, &mut components, AndroidComponentKind::SuperGeometry, "super.geometry.primary", 4096, 8192, limits)?;
    }
    if bg.is_some() {
        push_component(source, &mut components, AndroidComponentKind::SuperGeometry, "super.geometry.backup", 8192, 12288, limits)?;
    }
    let ghost lim = string_views(limitations@);
    assert(super_geometry_spec(source@, limits) == Ok::<(LpGeometry, Seq<Seq<char>>, Seq<AndroidComponentView>), C03Error>(
        (g, lim, component_views(components@)),
    )) by {
        let sp = geometry_spec(source@, 4096);
        let sb = geometry_spec(source@, 8192);
        assert(lim =~= (if sp is Ok && sb is Ok {
            if sp->Ok_0 != sb->Ok_0 {
                seq!["primary and backup liblp geometry copies disagree"@]
            } else {
                Seq::empty()
            }
        } else {
            seq!["one liblp geometry copy is invalid"@]
        }));
    }
    let ms = g.metadata_max_size as u64;
    let count = g.metadata_slot_count as u64;
    assert(ms * count <= 0xffff_ffff * 0xffff_ffff) by (nonlinear_arith)
        requires
            ms <= 0xffff_ffff,
            count <= 0xffff_ffff,
    ;
    if ms * count > u64::MAX - 12288 {
        return Err(C03Error::AccountingOverflow);
    }
    let backup_base = 12288 + ms * count;
    let mut partitions: Vec<AndroidDynamicPartition> = Vec::new();
    let mut groups: Vec<AndroidDynamicGroup> = Vec::new();
    let mut block_devices: Vec<AndroidBlockDevice> = Vec::new();
    assert(partition_views(partitions@) =~= Seq::<DynamicPartitionView>::empty());
    assert(group_views(groups@) =~= Seq::<DynamicGroupView>::empty());
    assert(device_views(block_devices@) =~= Seq::<BlockDeviceView>::empty());
    let mut layout = SuperLayout {
        components,
        partitions,
        groups,
        block_devices,
        limitations,
        extent_total: 0,
        valid_slots: 0,
    };
    let ghost init = layout@;
    run_slots(source, limits, g, backup_base, &mut layout)?;
    if layout.valid_slots == 0 {
        return Err(C03Error::Malformed("no valid liblp metadata slot"));
    }
    Ok(layout)
}

} // verus!
