//! MBR/GPT partition maps over normalized images, partition layout coverage and exact
//! partition materialization.
use vstd::prelude::*;
use crate::bytes::{crc32, crc32_of, le_value, read_le_u32, read_le_u64};
use crate::disk_image::{
    append_range, copy_coverage, image_wf, validate_limits, C01Error, DiskImageFormat, NormalizedDiskImage, SourceCoverageKind,
    SourceCoverageRange, DiskImageLimits, SECTOR_SIZE,
};
use crate::identity::EntityRef;
use crate::text::{decimal, hex_lower, numbered_message, owned, push_char, push_decimal, push_hex_byte};

verus! {

/// Recognized partition-map family.
#[derive(Debug, Clone, Copy, PartialEq, Eq, Structural)]
pub enum PartitionTableKind {
    /// No mechanically recognized partition map.
    Unrecognized,
    /// DOS/MBR partition map.
    Mbr,
    /// GUID Partition Table.
    Gpt,
}

/// Truth status of partition-map interpretation.
#[derive(Debug, Clone, Copy, PartialEq, Eq, Structural)]
pub enum PartitionMapAssessment {
    /// All recognized map structures validated.
    Complete,
    /// Some exact entries are retained but unsupported/corrupt structure leaves gaps.
    Partial,
    /// No trustworthy partition layout can be established.
    Inconclusive,
}

/// One exact byte range occupied by partition-table metadata.
#[derive(Debug, Clone, Copy, PartialEq, Eq, Structural)]
pub struct PartitionTableRange {
    /// Inclusive normalized byte start.
    pub byte_start: u64,
    /// Exclusive normalized byte end.
    pub byte_end_exclusive: u64,
}

/// One exact MBR/GPT partition entry.
#[derive(Debug, PartialEq, Eq)]
pub struct PartitionEntry {
    /// One-based source table slot.
    pub index: u32,
    /// Optional human-facing GPT name.
    pub name: Option<String>,
    /// Exact type identity, e.g. `mbr:0x83` or canonical GPT GUID text.
    pub type_id: String,
    /// Inclusive first logical block.
    pub first_lba: u64,
    /// Inclusive last logical block.
    pub last_lba_inclusive: u64,
    /// Inclusive normalized byte start.
    pub byte_start: u64,
    /// Exclusive normalized byte end.
    pub byte_end_exclusive: u64,
    /// MBR bootable flag.
    pub bootable: bool,
    /// True for an MBR extended-partition container that is not recursively decomposed.
    pub container: bool,
}

/// Abstract value of a partition entry.
pub ghost struct PartitionEntryView {
    /// One-based source table slot.
    pub index: u32,
    /// Optional name.
    pub name: Option<Seq<char>>,
    /// Type identity text.
    pub type_id: Seq<char>,
    /// First logical block.
    pub first_lba: u64,
    /// Last logical block (inclusive).
    pub last_lba_inclusive: u64,
    /// Byte start.
    pub byte_start: u64,
    /// Byte end (exclusive).
    pub byte_end_exclusive: u64,
    /// Bootable flag.
    pub bootable: bool,
    /// Extended-container flag.
    pub container: bool,
}

/// The view of an optional string.
pub open spec fn opt_view(s: Option<String>) -> Option<Seq<char>> {
    match s {
        Some(v) => Some(v@),
        None => None,
    }
}

impl View for PartitionEntry {
    type V = PartitionEntryView;

    open spec fn view(&self) -> PartitionEntryView {
        PartitionEntryView {
            index: self.index,
            name: opt_view(self.name),
            type_id: self.type_id@,
            first_lba: self.first_lba,
            last_lba_inclusive: self.last_lba_inclusive,
            byte_start: self.byte_start,
            byte_end_exclusive: self.byte_end_exclusive,
            bootable: self.bootable,
            container: self.container,
        }
    }
}

pub(crate) fn clone_opt_string(s: &Option<String>) -> (r: Option<String>)
    ensures
        opt_view(r) == opt_view(*s),
{
    match s {
        Some(v) => Some(v.clone()),
        None => None,
    }
}

impl Clone for PartitionEntry {
    fn clone(&self) -> (r: Self)
        ensures
            r@ == self@,
    {
        PartitionEntry {
            index: self.index,
            name: clone_opt_string(&self.name),
            type_id: self.type_id.clone(),
            first_lba: self.first_lba,
            last_lba_inclusive: self.last_lba_inclusive,
            byte_start: self.byte_start,
            byte_end_exclusive: self.byte_end_exclusive,
            bootable: self.bootable,
            container: self.container,
        }
    }
}

/// Views of a sequence of partition entries.
pub open spec fn entry_views(s: Seq<PartitionEntry>) -> Seq<PartitionEntryView> {
    s.map_values(|p: PartitionEntry| p@)
}

/// Partition-layout range classification.
#[derive(Debug, Clone, Copy, PartialEq, Eq, Structural)]
pub enum PartitionLayoutKind {
    /// Exact accepted partition bytes.
    Partition,
    /// Exact bytes outside accepted partitions under a complete map.
    Unallocated,
    /// Bytes whose partition ownership cannot be established conclusively.
    Unknown,
}

/// One exact partition-layout range.
#[derive(Debug, Clone, Copy, PartialEq, Eq, Structural)]
pub struct PartitionLayoutRange {
    /// Inclusive normalized byte start.
    pub byte_start: u64,
    /// Exclusive normalized byte end.
    pub byte_end_exclusive: u64,
    /// Layout classification.
    pub kind: PartitionLayoutKind,
    /// Partition index when `kind == Partition`.
    pub partition_index: Option<u32>,
}

/// Sort key order: by byte start, then by slot index (or by byte end when `by_end`).
pub open spec fn key_before(a: PartitionEntryView, b: PartitionEntryView, by_end: bool) -> bool {
    a.byte_start < b.byte_start || (a.byte_start == b.byte_start && if by_end {
        a.byte_end_exclusive < b.byte_end_exclusive
    } else {
        a.index < b.index
    })
}

/// Insert `x` before the first element that it sorts before.
pub open spec fn insert_sorted(s: Seq<PartitionEntryView>, x: PartitionEntryView, by_end: bool) -> Seq<
    PartitionEntryView,
>
    decreases s.len(),
{
    if s.len() == 0 {
        seq![x]
    } else if key_before(x, s[0], by_end) {
        seq![x] + s
    } else {
        seq![s[0]] + insert_sorted(s.drop_first(), x, by_end)
    }
}

/// Insertion-sort `s` by the partition key.
pub open spec fn sort_entries(s: Seq<PartitionEntryView>, by_end: bool) -> Seq<PartitionEntryView>
    decreases s.len(),
{
    if s.len() == 0 {
        Seq::empty()
    } else {
        insert_sorted(sort_entries(s.drop_last(), by_end), s.last(), by_end)
    }
}

proof fn lemma_insert_sorted_at(s: Seq<PartitionEntryView>, x: PartitionEntryView, by_end: bool, p: int)
    requires
        0 <= p <= s.len(),
        forall|k: int| 0 <= k < p ==> !key_before(x, #[trigger] s[k], by_end),
        p < s.len() ==> key_before(x, s[p], by_end),
    ensures
        insert_sorted(s, x, by_end) == s.insert(p, x),
    decreases s.len(),
{
    if s.len() == 0 {
        assert(s.insert(p, x) =~= seq![x]);
    } else if p == 0 {
        assert(s.insert(0, x) =~= seq![x] + s);
    } else {
        assert forall|k: int| 0 <= k < p - 1 implies !key_before(x, #[trigger] s.drop_first()[k], by_end) by {
            assert(s.drop_first()[k] == s[k + 1]);
        }
        lemma_insert_sorted_at(s.drop_first(), x, by_end, p - 1);
        assert(s.insert(p, x) =~= seq![s[0]] + s.drop_first().insert(p - 1, x));
    }
}

/// Sort partition entries by `(byte_start, index)`, or by `(byte_start, byte_end)` when `by_end`.
pub fn sort_partitions(v: Vec<PartitionEntry>, by_end: bool) -> (r: Vec<PartitionEntry>)
    ensures
        entry_views(r@) == sort_entries(entry_views(v@), by_end),
{
    let mut r: Vec<PartitionEntry> = Vec::new();
    let n = v.len();
    let mut v = v;
    let ghost orig = v@;
    let mut i: usize = 0;
    assert(entry_views(orig).take(0) =~= Seq::<PartitionEntryView>::empty());
    while i < n
        invariant
            n == orig.len(),
            v@ == orig,
            i <= n,
            entry_views(r@) == sort_entries(entry_views(orig).take(i as int), by_end),
        decreases n - i,
    {
        let x = v[i].clone();
        let ghost sv = entry_views(r@);
        let mut p: usize = 0;
        let mut found = false;
        while p < r.len() && !found
            invariant
                p <= r@.len(),
                sv == entry_views(r@),
                x@ == orig[i as int]@,
                forall|k: int| 0 <= k < p ==> !key_before(x@, #[trigger] sv[k], by_end),
                found ==> p < r@.len() && key_before(x@, sv[p as int], by_end),
            decreases r@.len() - p + (if found { 0int } else { 1int }),
        {
            let y = &r[p];
            let before = y.byte_start > x.byte_start || (y.byte_start == x.byte_start && if by_end {
                x.byte_end_exclusive < y.byte_end_exclusive
            } else {
                x.index < y.index
            });
            assert(sv[p as int] == r@[p as int]@);
            if before {
                found = true;
            } else {
                p = p + 1;
            }
        }
        proof {
            lemma_insert_sorted_at(sv, x@, by_end, p as int);
        }
        r.insert(p, x);
        assert(entry_views(r@) =~= sv.insert(p as int, orig[i as int]@));
        assert(entry_views(orig).take(i as int + 1).drop_last() =~= entry_views(orig).take(i as int));
        i = i + 1;
    }
    assert(entry_views(orig).take(n as int) =~= entry_views(orig));
    r
}


/// Two neighbouring non-container entries overlap.
pub open spec fn partitions_overlap(p: Seq<PartitionEntryView>) -> bool {
    exists|i: int|
        0 <= i < p.len() - 1 && (#[trigger] p[i]).byte_end_exclusive > p[i + 1].byte_start
            && !p[i].container && !p[i + 1].container
}

/// Whether neighbouring entries (in the given order) overlap, ignoring extended containers.
pub fn has_partition_overlap(partitions: &[PartitionEntry]) -> (r: bool)
    ensures
        r == partitions_overlap(entry_views(partitions@)),
{
    let ghost pv = entry_views(partitions@);
    if partitions.len() < 2 {
        return false;
    }
    let mut i: usize = 0;
    let last = partitions.len() - 1;
    while i < last
        invariant
            pv == entry_views(partitions@),
            last == partitions@.len() - 1,
            i <= last,
            forall|k: int|
                0 <= k < i ==> !((#[trigger] pv[k]).byte_end_exclusive > pv[k + 1].byte_start
                    && !pv[k].container && !pv[k + 1].container),
        decreases partitions@.len() - i,
    {
        let a = &partitions[i];
        let b = &partitions[i + 1];
        assert(pv[i as int] == a@ && pv[i + 1] == b@);
        if a.byte_end_exclusive > b.byte_start && !a.container && !b.container {
            return true;
        }
        i = i + 1;
    }
    false
}

/// Half-open ranges `[a_start, a_end)` and `[b_start, b_end)` intersect.
pub open spec fn ranges_overlap_spec(a_start: u64, a_end: u64, b_start: u64, b_end: u64) -> bool {
    a_start < b_end && b_start < a_end
}

/// Whether two half-open ranges intersect.
pub fn ranges_overlap(a_start: u64, a_end: u64, b_start: u64, b_end: u64) -> (r: bool)
    ensures
        r == ranges_overlap_spec(a_start, a_end, b_start, b_end),
{
    a_start < b_end && b_start < a_end
}

/// Layout ranges for partitions sorted by `(start, end)`, continuing from `cursor`.
pub open spec fn layout_from(
    parts: Seq<PartitionEntryView>,
    cursor: u64,
    gap: PartitionLayoutKind,
    size: u64,
) -> Seq<PartitionLayoutRange>
    decreases parts.len(),
{
    if parts.len() == 0 {
        if cursor < size {
            seq![PartitionLayoutRange { byte_start: cursor, byte_end_exclusive: size, kind: gap, partition_index: None }]
        } else {
            Seq::empty()
        }
    } else {
        let p = parts[0];
        let pre = if p.byte_start > cursor {
            seq![PartitionLayoutRange { byte_start: cursor, byte_end_exclusive: p.byte_start, kind: gap, partition_index: None }]
        } else {
            Seq::empty()
        };
        if p.byte_end_exclusive > p.byte_start {
            let next = if cursor >= p.byte_end_exclusive { cursor } else { p.byte_end_exclusive };
            pre + seq![PartitionLayoutRange {
                byte_start: p.byte_start,
                byte_end_exclusive: p.byte_end_exclusive,
                kind: PartitionLayoutKind::Partition,
                partition_index: Some(p.index),
            }] + layout_from(parts.drop_first(), next, gap, size)
        } else {
            pre + layout_from(parts.drop_first(), cursor, gap, size)
        }
    }
}

/// The partition/unallocated/unknown layout of an image of `size` bytes.
pub open spec fn layout_spec(
    size: u64,
    parts: Seq<PartitionEntryView>,
    assessment: PartitionMapAssessment,
) -> Seq<PartitionLayoutRange> {
    if size == 0 {
        Seq::empty()
    } else if partitions_overlap(parts) {
        seq![PartitionLayoutRange { byte_start: 0, byte_end_exclusive: size, kind: PartitionLayoutKind::Unknown, partition_index: None }]
    } else {
        let gap = if assessment == PartitionMapAssessment::Complete {
            PartitionLayoutKind::Unallocated
        } else {
            PartitionLayoutKind::Unknown
        };
        layout_from(sort_entries(parts, true), 0, gap, size)
    }
}

/// Exact partition, gap and unknown ranges over the image.
pub fn build_layout_coverage(
    image_size: u64,
    partitions: &[PartitionEntry],
    assessment: PartitionMapAssessment,
) -> (r: Vec<PartitionLayoutRange>)
    ensures
        r@ == layout_spec(image_size, entry_views(partitions@), assessment),
{
    if image_size == 0 {
        return Vec::new();
    }
    if has_partition_overlap(partitions) {
        let mut r = Vec::new();
        r.push(
            PartitionLayoutRange {
                byte_start: 0,
                byte_end_exclusive: image_size,
                kind: PartitionLayoutKind::Unknown,
                partition_index: None,
            },
        );
        return r;
    }
    let gap_kind = if assessment == PartitionMapAssessment::Complete {
        PartitionLayoutKind::Unallocated
    } else {
        PartitionLayoutKind::Unknown
    };
    let mut copy: Vec<PartitionEntry> = Vec::new();
    let mut i: usize = 0;
    while i < partitions.len()
        invariant
            i <= partitions@.len(),
            copy@.len() == i,
            entry_views(copy@) == entry_views(partitions@).take(i as int),
        decreases partitions@.len() - i,
    {
        let x = partitions[i].clone();
        assert(x@ == partitions@[i as int]@);
        let ghost old_copy = copy@;
        copy.push(x);
        assert forall|k: int| 0 <= k < copy@.len() implies #[trigger] entry_views(copy@)[k]
            == entry_views(partitions@).take(i as int + 1)[k] by {
            if k < i {
                assert(copy@[k] == old_copy[k]);
                assert(entry_views(old_copy)[k] == old_copy[k]@);
            }
        }
        assert(entry_views(copy@) =~= entry_views(partitions@).take(i as int + 1));
        i = i + 1;
    }
    assert(entry_views(partitions@).take(partitions@.len() as int) =~= entry_views(partitions@));
    let sorted = sort_partitions(copy, true);
    let ghost sv = entry_views(sorted@);
    let mut ranges: Vec<PartitionLayoutRange> = Vec::new();
    let mut cursor: u64 = 0;
    let mut j: usize = 0;
    let ghost whole = layout_from(sv, 0, gap_kind, image_size);
    assert(sv.skip(0) =~= sv);
    while j < sorted.len()
        invariant
            sv == entry_views(sorted@),
            j <= sv.len(),
            whole == layout_from(sv, 0, gap_kind, image_size),
            whole == ranges@ + layout_from(sv.skip(j as int), cursor, gap_kind, image_size),
        decreases sv.len() - j,
    {
        let p = &sorted[j];
        assert(sv.skip(j as int)[0] == p@);
        assert(sv.skip(j as int).drop_first() =~= sv.skip(j as int + 1));
        let ghost before = ranges@;
        if p.byte_start > cursor {
            ranges.push(
                PartitionLayoutRange {
                    byte_start: cursor,
                    byte_end_exclusive: p.byte_start,
                    kind: gap_kind,
                    partition_index: None,
                },
            );
        }
        if p.byte_end_exclusive > p.byte_start {
            ranges.push(
                PartitionLayoutRange {
                    byte_start: p.byte_start,
                    byte_end_exclusive: p.byte_end_exclusive,
                    kind: PartitionLayoutKind::Partition,
                    partition_index: Some(p.index),
                },
            );
            if p.byte_end_exclusive > cursor {
                cursor = p.byte_end_exclusive;
            }
        }
        assert(whole =~= ranges@ + layout_from(sv.skip(j as int + 1), cursor, gap_kind, image_size));
        j = j + 1;
    }
    if cursor < image_size {
        ranges.push(
            PartitionLayoutRange {
                byte_start: cursor,
                byte_end_exclusive: image_size,
                kind: gap_kind,
                partition_index: None,
            },
        );
    }
    assert(ranges@ =~= whole);
    ranges
}


/// Entries, assessment and notes from one partition-map interpretation.
pub struct MapOutcome {
    /// Accepted entries sorted by `(byte_start, index)`.
    pub partitions: Vec<PartitionEntry>,
    /// Truth status.
    pub assessment: PartitionMapAssessment,
    /// Mechanical warnings.
    pub warnings: Vec<String>,
    /// Unsupported/inconclusive boundaries.
    pub limitations: Vec<String>,
}

/// Views of a sequence of strings.
pub open spec fn string_views(s: Seq<String>) -> Seq<Seq<char>> {
    s.map_values(|x: String| x@)
}

spec fn mbr_off(slot: int) -> int {
    446 + 16 * slot
}

/// Partition type byte of MBR slot `slot`.
pub open spec fn mbr_type(b: Seq<u8>, slot: int) -> u8 {
    b[446 + 16 * slot + 4]
}

/// First LBA of MBR slot `slot`.
pub open spec fn mbr_first(b: Seq<u8>, slot: int) -> int {
    le_value(b, 446 + 16 * slot + 8, 4)
}

/// Sector count of MBR slot `slot`.
pub open spec fn mbr_sectors(b: Seq<u8>, slot: int) -> int {
    le_value(b, 446 + 16 * slot + 12, 4)
}

/// MBR slot `slot` declares a partition.
pub open spec fn mbr_present(b: Seq<u8>, slot: int) -> bool {
    mbr_type(b, slot) != 0 && mbr_sectors(b, slot) != 0
}

/// The declared partition of MBR slot `slot` ends inside an image of `size` bytes.
pub open spec fn mbr_in_bounds(b: Seq<u8>, slot: int, size: int) -> bool {
    (mbr_first(b, slot) + mbr_sectors(b, slot)) * 512 <= size
}

/// The entry that MBR slot `slot` describes.
pub open spec fn mbr_entry_view(b: Seq<u8>, slot: int) -> PartitionEntryView {
    let t = mbr_type(b, slot);
    let first = mbr_first(b, slot);
    let sectors = mbr_sectors(b, slot);
    PartitionEntryView {
        index: (slot + 1) as u32,
        name: None,
        type_id: "mbr:0x"@ + hex_lower(seq![t]),
        first_lba: first as u64,
        last_lba_inclusive: (first + sectors - 1) as u64,
        byte_start: (first * 512) as u64,
        byte_end_exclusive: ((first + sectors) * 512) as u64,
        bootable: b[446 + 16 * slot] == 0x80,
        container: t == 0x05 || t == 0x0f || t == 0x85,
    }
}

/// Accepted entries of MBR slots `0..n`, in slot order.
pub open spec fn mbr_collect(b: Seq<u8>, size: int, n: nat) -> Seq<PartitionEntryView>
    decreases n,
{
    if n == 0 {
        Seq::empty()
    } else {
        let prev = mbr_collect(b, size, (n - 1) as nat);
        let slot = n - 1;
        if mbr_present(b, slot) && mbr_in_bounds(b, slot, size) {
            prev.push(mbr_entry_view(b, slot))
        } else {
            prev
        }
    }
}

/// Warnings for MBR slots `0..n` whose extent leaves the image.
pub open spec fn mbr_slot_warnings(b: Seq<u8>, size: int, n: nat) -> Seq<Seq<char>>
    decreases n,
{
    if n == 0 {
        Seq::empty()
    } else {
        let prev = mbr_slot_warnings(b, size, (n - 1) as nat);
        let slot = n - 1;
        if mbr_present(b, slot) && !mbr_in_bounds(b, slot, size) {
            prev.push("MBR slot "@ + decimal(n) + " extent lies outside normalized image"@)
        } else {
            prev
        }
    }
}

/// Some accepted entry is an extended container.
pub open spec fn any_container(p: Seq<PartitionEntryView>) -> bool {
    exists|i: int| 0 <= i < p.len() && (#[trigger] p[i]).container
}

/// Assessment after a complete pass whose entries may be invalid, overlapping or containers.
pub open spec fn mbr_assessment(
    partitions: Seq<PartitionEntryView>,
    invalid: bool,
    extended: bool,
) -> PartitionMapAssessment {
    if extended {
        PartitionMapAssessment::Partial
    } else if invalid {
        if partitions.len() == 0 {
            PartitionMapAssessment::Inconclusive
        } else {
            PartitionMapAssessment::Partial
        }
    } else {
        PartitionMapAssessment::Complete
    }
}

/// The MBR interpretation of an image whose bytes are `b`.
pub open spec fn mbr_outcome_ok(b: Seq<u8>, o: MapOutcome) -> bool {
    let size = b.len() as int;
    let parts = sort_entries(mbr_collect(b, size, 4), false);
    let overlap = partitions_overlap(parts);
    let invalid = mbr_slot_warnings(b, size, 4).len() > 0 || overlap;
    let extended = any_container(parts);
    &&& entry_views(o.partitions@) == parts
    &&& o.assessment == mbr_assessment(parts, invalid, extended)
    &&& string_views(o.warnings@) == mbr_slot_warnings(b, size, 4) + (if overlap {
        seq!["MBR primary partition entries overlap"@]
    } else {
        Seq::empty()
    })
    &&& string_views(o.limitations@) == (if invalid {
        seq!["one or more MBR entries were invalid and were not promoted as partitions"@]
    } else {
        Seq::empty()
    }) + (if extended {
        seq!["MBR extended-partition container retained; EBR recursion is outside C01"@]
    } else {
        Seq::empty()
    })
}

pub(crate) fn push_string(v: &mut Vec<String>, s: String)
    ensures
        string_views(final(v)@) == string_views(old(v)@).push(s@),
{
    let ghost old_v = v@;
    v.push(s);
    assert forall|k: int| 0 <= k < v@.len() implies #[trigger] string_views(v@)[k] == string_views(
        old_v,
    ).push(s@)[k] by {
        if k < old_v.len() {
            assert(v@[k] == old_v[k]);
        }
    }
    assert(string_views(v@) =~= string_views(old_v).push(s@));
}

pub(crate) fn copy_strings(v: &Vec<String>) -> (r: Vec<String>)
    ensures
        string_views(r@) == string_views(v@),
{
    let mut out: Vec<String> = Vec::new();
    let mut i: usize = 0;
    while i < v.len()
        invariant
            i <= v@.len(),
            string_views(out@) == string_views(v@).take(i as int),
        decreases v.len() - i,
    {
        push_string(&mut out, v[i].clone());
        assert(string_views(v@).take(i as int + 1) =~= string_views(v@).take(i as int).push(v@[i as int]@));
        i = i + 1;
    }
    assert(string_views(v@).take(v@.len() as int) =~= string_views(v@));
    out
}

fn push_entry(v: &mut Vec<PartitionEntry>, e: PartitionEntry)
    ensures
        entry_views(final(v)@) == entry_views(old(v)@).push(e@),
{
    let ghost old_v = v@;
    v.push(e);
    assert forall|k: int| 0 <= k < v@.len() implies #[trigger] entry_views(v@)[k] == entry_views(
        old_v,
    ).push(e@)[k] by {
        if k < old_v.len() {
            assert(v@[k] == old_v[k]);
        }
    }
    assert(entry_views(v@) =~= entry_views(old_v).push(e@));
}

/// `mbr:0x` followed by two lowercase hex digits of `t`.
fn mbr_type_id(t: u8) -> (s: String)
    ensures
        s@ == "mbr:0x"@ + hex_lower(seq![t]),
{
    let mut s = owned("mbr:0x");
    push_hex_byte(&mut s, t);
    s
}

fn any_container_exec(p: &Vec<PartitionEntry>) -> (r: bool)
    ensures
        r == any_container(entry_views(p@)),
{
    let mut i: usize = 0;
    while i < p.len()
        invariant
            i <= p@.len(),
            forall|k: int| 0 <= k < i ==> !(#[trigger] entry_views(p@)[k]).container,
        decreases p@.len() - i,
    {
        assert(entry_views(p@)[i as int] == p@[i as int]@);
        if p[i].container {
            return true;
        }
        i = i + 1;
    }
    false
}

fn mbr_slot(b: &[u8], slot: usize, collected: &mut Vec<PartitionEntry>, warnings: &mut Vec<String>)
    requires
        slot < 4,
        b@.len() >= 512,
        entry_views(old(collected)@) == mbr_collect(b@, b@.len() as int, slot as nat),
        string_views(old(warnings)@) == mbr_slot_warnings(b@, b@.len() as int, slot as nat),
    ensures
        entry_views(final(collected)@) == mbr_collect(b@, b@.len() as int, (slot + 1) as nat),
        string_views(final(warnings)@) == mbr_slot_warnings(b@, b@.len() as int, (slot + 1) as nat),
{
    let size = b.len() as u64;
    let offset = 446 + slot * 16;
    let status = b[offset];
    let partition_type = b[offset + 4];
    let first_lba = read_le_u32(b, offset + 8).unwrap() as u64;
    let sectors = read_le_u32(b, offset + 12).unwrap() as u64;
    assert(first_lba as int == mbr_first(b@, slot as int));
    assert(sectors as int == mbr_sectors(b@, slot as int));
    if partition_type != 0 && sectors != 0 {
        let last_exclusive_lba = first_lba + sectors;
        let byte_start = first_lba * 512;
        let byte_end_exclusive = last_exclusive_lba * 512;
        if byte_end_exclusive > size {
            let w = numbered_message("MBR slot ", (slot + 1) as u64, " extent lies outside normalized image");
            push_string(warnings, w);
        } else {
            let container = partition_type == 0x05 || partition_type == 0x0f || partition_type == 0x85;
            let e = PartitionEntry {
                index: (slot + 1) as u32,
                name: None,
                type_id: mbr_type_id(partition_type),
                first_lba,
                last_lba_inclusive: last_exclusive_lba - 1,
                byte_start,
                byte_end_exclusive,
                bootable: status == 0x80,
                container,
            };
            assert(e@ == mbr_entry_view(b@, slot as int));
            push_entry(collected, e);
        }
    }
}

/// Interpret the four primary MBR slots of an image with a valid boot signature.
fn inspect_mbr(b: &[u8]) -> (o: MapOutcome)
    requires
        b@.len() >= 512,
    ensures
        mbr_outcome_ok(b@, o),
{
    let size = b.len() as u64;
    let mut collected: Vec<PartitionEntry> = Vec::new();
    let mut warnings: Vec<String> = Vec::new();
    let mut slot: usize = 0;
    assert(entry_views(collected@) =~= mbr_collect(b@, size as int, 0));
    assert(string_views(warnings@) =~= mbr_slot_warnings(b@, size as int, 0));
    while slot < 4
        invariant
            slot <= 4,
            size == b@.len(),
            b@.len() >= 512,
            entry_views(collected@) == mbr_collect(b@, size as int, slot as nat),
            string_views(warnings@) == mbr_slot_warnings(b@, size as int, slot as nat),
        decreases 4 - slot,
    {
        mbr_slot(b, slot, &mut collected, &mut warnings);
        slot = slot + 1;
    }
    let partitions = sort_partitions(collected, false);
    let overlap = has_partition_overlap(partitions.as_slice());
    let saw_invalid = warnings.len() > 0 || overlap;
    proof {
        assert(string_views(warnings@).len() == warnings@.len());
    }
    if overlap {
        push_string(&mut warnings, owned("MBR primary partition entries overlap"));
    }
    let extended = any_container_exec(&partitions);
    let mut limitations: Vec<String> = Vec::new();
    if saw_invalid {
        push_string(&mut limitations, owned("one or more MBR entries were invalid and were not promoted as partitions"));
    }
    if extended {
        push_string(&mut limitations, owned("MBR extended-partition container retained; EBR recursion is outside C01"));
    }
    let assessment = if extended {
        PartitionMapAssessment::Partial
    } else if saw_invalid {
        if partitions.len() == 0 {
            PartitionMapAssessment::Inconclusive
        } else {
            PartitionMapAssessment::Partial
        }
    } else {
        PartitionMapAssessment::Complete
    };
    proof {
        assert(string_views(Seq::<String>::empty()) =~= Seq::<Seq<char>>::empty());
    }
    let o = MapOutcome { partitions, assessment, warnings, limitations };
    assert(string_views(o.warnings@) =~= mbr_slot_warnings(b@, size as int, 4) + (if overlap {
        seq!["MBR primary partition entries overlap"@]
    } else {
        Seq::empty()
    }));
    assert(string_views(o.limitations@) =~= (if saw_invalid {
        seq!["one or more MBR entries were invalid and were not promoted as partitions"@]
    } else {
        Seq::empty()
    }) + (if extended {
        seq!["MBR extended-partition container retained; EBR recursion is outside C01"@]
    } else {
        Seq::empty()
    }));
    o
}


/// Text of a GPT GUID in canonical mixed-endian form, e.g. `c12a7328-f81f-11d2-ba4b-00a0c93ec93b`.
pub open spec fn guid_text(g: Seq<u8>) -> Seq<char> {
    hex_lower(seq![g[3], g[2], g[1], g[0]]) + "-"@ + hex_lower(seq![g[5], g[4]]) + "-"@ + hex_lower(
        seq![g[7], g[6]],
    ) + "-"@ + hex_lower(g.subrange(8, 10)) + "-"@ + hex_lower(g.subrange(10, 16))
}

fn hex_of(bytes: &[u8], order: &[usize]) -> (s: String)
    requires
        forall|k: int| 0 <= k < order@.len() ==> #[trigger] order@[k] < bytes@.len(),
    ensures
        s@ == hex_lower(Seq::new(order@.len(), |k: int| bytes@[order@[k] as int])),
{
    let mut s = String::new();
    let mut i: usize = 0;
    let ghost target = Seq::new(order@.len(), |k: int| bytes@[order@[k] as int]);
    assert(target.take(0) =~= Seq::<u8>::empty());
    while i < order.len()
        invariant
            i <= order@.len(),
            target == Seq::new(order@.len(), |k: int| bytes@[order@[k] as int]),
            forall|k: int| 0 <= k < order@.len() ==> #[trigger] order@[k] < bytes@.len(),
            s@ == hex_lower(target.take(i as int)),
        decreases order@.len() - i,
    {
        let bb = bytes[order[i]];
        push_hex_byte(&mut s, bb);
        proof {
            crate::text::lemma_hex_lower_single(bb);
            assert(target.take(i as int + 1).drop_last() =~= target.take(i as int));
        }
        assert(s@ =~= hex_lower(target.take(i as int + 1)));
        i = i + 1;
    }
    assert(target.take(order@.len() as int) =~= target);
    s
}

/// Canonical GUID text of a 16-byte GPT GUID field; other lengths are reported as invalid.
pub fn format_gpt_guid(bytes: &[u8]) -> (s: String)
    ensures
        bytes@.len() == 16 ==> s@ == guid_text(bytes@),
        bytes@.len() != 16 ==> s@ == "gpt:invalid-guid"@,
{
    if bytes.len() != 16 {
        return owned("gpt:invalid-guid");
    }
    let a = [3usize, 2, 1, 0];
    let b5 = [5usize, 4];
    let b7 = [7usize, 6];
    let c = [8usize, 9];
    let d = [10usize, 11, 12, 13, 14, 15];
    let mut s = hex_of(bytes, &a);
    s.append("-");
    let t = hex_of(bytes, &b5);
    s.append(t.as_str());
    s.append("-");
    let t = hex_of(bytes, &b7);
    s.append(t.as_str());
    s.append("-");
    let t = hex_of(bytes, &c);
    s.append(t.as_str());
    s.append("-");
    let t = hex_of(bytes, &d);
    s.append(t.as_str());
    assert(Seq::new(4, |k: int| bytes@[a@[k] as int]) =~= seq![bytes@[3], bytes@[2], bytes@[1], bytes@[0]]);
    assert(Seq::new(2, |k: int| bytes@[b5@[k] as int]) =~= seq![bytes@[5], bytes@[4]]);
    assert(Seq::new(2, |k: int| bytes@[b7@[k] as int]) =~= seq![bytes@[7], bytes@[6]]);
    assert(Seq::new(2, |k: int| bytes@[c@[k] as int]) =~= bytes@.subrange(8, 10));
    assert(Seq::new(6, |k: int| bytes@[d@[k] as int]) =~= bytes@.subrange(10, 16));
    s
}

/// Lossy UTF-16 decoding: a high surrogate followed by a low surrogate is one supplementary
/// character, any other surrogate becomes U+FFFD, and every other unit is its own character.
pub open spec fn utf16_lossy(words: Seq<u16>) -> Seq<char>
    decreases words.len(),
{
    if words.len() == 0 {
        Seq::empty()
    } else if 0xD800 <= words[0] < 0xDC00 && words.len() >= 2 && 0xDC00 <= words[1] < 0xE000 {
        seq![((((words[0] - 0xD800) * 0x400) + (words[1] - 0xDC00) + 0x10000) as u32) as char] + utf16_lossy(
            words.skip(2),
        )
    } else if 0xD800 <= words[0] < 0xE000 {
        seq!['\u{FFFD}'] + utf16_lossy(words.skip(1))
    } else {
        seq![(words[0] as u32) as char] + utf16_lossy(words.skip(1))
    }
}

/// Calls `String::from_utf16_lossy`. Trusted: the result is `utf16_lossy` of `words`, the
/// decoding that function documents (invalid data replaced by U+FFFD).
#[verifier::external_body]
fn from_utf16_lossy(words: &[u16]) -> (s: String)
    ensures
        s@ == utf16_lossy(words@),
{
    String::from_utf16_lossy(words)
}

/// Little-endian UTF-16 code units of `bytes` up to the first zero unit (a trailing odd byte is
/// ignored).
pub open spec fn utf16_words(bytes: Seq<u8>) -> Seq<u16>
    decreases bytes.len(),
{
    if bytes.len() < 2 {
        Seq::empty()
    } else {
        let w = le_value(bytes, 0, 2);
        if w == 0 {
            Seq::empty()
        } else {
            seq![w as u16] + utf16_words(bytes.skip(2))
        }
    }
}

/// Name text of a GPT entry name field: `None` when the first unit is zero.
pub open spec fn gpt_name_spec(bytes: Seq<u8>) -> Option<Seq<char>> {
    if utf16_words(bytes).len() == 0 {
        None
    } else {
        Some(utf16_lossy(utf16_words(bytes)))
    }
}

/// Decode a NUL-terminated UTF-16LE GPT partition name.
pub fn decode_gpt_name(bytes: &[u8]) -> (r: Option<String>)
    ensures
        opt_view(r) == gpt_name_spec(bytes@),
{
    let mut words: Vec<u16> = Vec::new();
    let mut i: usize = 0;
    let n = bytes.len();
    assert(bytes@.skip(0) =~= bytes@);
    loop
        invariant
            n == bytes@.len(),
            i <= n,
            words@ + utf16_words(bytes@.skip(i as int)) == utf16_words(bytes@),
        ensures
            words@ == utf16_words(bytes@),
        decreases n - i,
    {
        if n - i < 2 {
            assert(utf16_words(bytes@.skip(i as int)) =~= Seq::<u16>::empty());
            assert(words@ + Seq::<u16>::empty() =~= words@);
            break;
        }
        let w = crate::bytes::read_le_u16(bytes, i).unwrap();
        proof {
            let t = bytes@.skip(i as int);
            assert(le_value(t, 0, 2) == le_value(bytes@, i as int, 2)) by {
                reveal_with_fuel(le_value, 3);
            }
            assert(t.skip(2) =~= bytes@.skip(i + 2));
        }
        if w == 0 {
            assert(words@ + Seq::<u16>::empty() =~= words@);
            break;
        }
        let ghost before = words@;
        words.push(w);
        assert(words@ + utf16_words(bytes@.skip(i + 2)) =~= before + utf16_words(bytes@.skip(i as int)));
        i = i + 2;
    }
    if words.len() == 0 {
        None
    } else {
        Some(from_utf16_lossy(words.as_slice()))
    }
}


/// Abstract value of a partition-map interpretation.
pub ghost struct MapView {
    /// Accepted entries.
    pub partitions: Seq<PartitionEntryView>,
    /// Truth status.
    pub assessment: PartitionMapAssessment,
    /// Warnings.
    pub warnings: Seq<Seq<char>>,
    /// Limitations.
    pub limitations: Seq<Seq<char>>,
    /// Partition-table metadata ranges.
    pub table_ranges: Seq<PartitionTableRange>,
}

/// An inconclusive interpretation that stopped with one limitation.
pub open spec fn map_stop(limitation: Seq<char>, ranges: Seq<PartitionTableRange>) -> MapView {
    MapView {
        partitions: Seq::empty(),
        assessment: PartitionMapAssessment::Inconclusive,
        warnings: Seq::empty(),
        limitations: seq![limitation],
        table_ranges: ranges,
    }
}

/// The entry that GPT slot `slot` describes, its entry bytes starting at `off`.
pub open spec fn gpt_entry_view(b: Seq<u8>, off: int, slot: int) -> PartitionEntryView {
    let first = le_value(b, off + 32, 8);
    let last = le_value(b, off + 40, 8);
    PartitionEntryView {
        index: (slot + 1) as u32,
        name: gpt_name_spec(b.subrange(off + 56, off + 128)),
        type_id: guid_text(b.subrange(off, off + 16)),
        first_lba: first as u64,
        last_lba_inclusive: last as u64,
        byte_start: (first * 512) as u64,
        byte_end_exclusive: ((last + 1) * 512) as u64,
        bootable: false,
        container: false,
    }
}

/// Entries and warnings accumulated over GPT slots.
pub type GptAcc = (Seq<PartitionEntryView>, Seq<Seq<char>>);

/// Interpret GPT slot `slot` whose entry starts at `off`.
pub open spec fn gpt_slot_step(b: Seq<u8>, off: int, slot: int, acc: GptAcc) -> Result<GptAcc, C01Error> {
    let first = le_value(b, off + 32, 8);
    let last = le_value(b, off + 40, 8);
    if forall|k: int| 0 <= k < 16 ==> #[trigger] b[off + k] == 0 {
        Ok(acc)
    } else if first > last {
        Ok((acc.0, acc.1.push("GPT slot "@ + decimal((slot + 1) as nat) + " has reversed LBA bounds"@)))
    } else if first * 512 > u64::MAX || (last + 1) * 512 > u64::MAX {
        Err(C01Error::AccountingOverflow)
    } else if (last + 1) * 512 > b.len() {
        Ok(
            (
                acc.0,
                acc.1.push(
                    "GPT slot "@ + decimal((slot + 1) as nat) + " extent lies outside normalized image"@,
                ),
            ),
        )
    } else {
        Ok((acc.0.push(gpt_entry_view(b, off, slot)), acc.1))
    }
}

/// Interpret GPT slots `0..n` of the entry array at `start` with `esize`-byte entries.
pub open spec fn gpt_slots(b: Seq<u8>, start: int, esize: int, n: nat) -> Result<GptAcc, C01Error>
    decreases n,
{
    if n == 0 {
        Ok((Seq::empty(), Seq::empty()))
    } else {
        match gpt_slots(b, start, esize, (n - 1) as nat) {
            Err(e) => Err(e),
            Ok(acc) => gpt_slot_step(b, start + (n - 1) * esize, n - 1, acc),
        }
    }
}

/// GPT primary header with its CRC field zeroed.
pub open spec fn gpt_header_for_crc(b: Seq<u8>, header_size: int) -> Seq<u8> {
    b.subrange(512, 528) + Seq::new(4, |i: int| 0u8) + b.subrange(532, 512 + header_size)
}

/// Interpret the entry array, sort accepted entries and assess the result.
pub open spec fn gpt_finish(
    b: Seq<u8>,
    start: int,
    esize: int,
    count: nat,
    ranges: Seq<PartitionTableRange>,
) -> Result<MapView, C01Error> {
    match gpt_slots(b, start, esize, count) {
        Err(e) => Err(e),
        Ok(acc) => {
            let parts = sort_entries(acc.0, false);
            let overlap = partitions_overlap(parts);
            let invalid = acc.1.len() > 0 || overlap;
            Ok(
                MapView {
                    partitions: parts,
                    assessment: if !invalid {
                        PartitionMapAssessment::Complete
                    } else if parts.len() == 0 {
                        PartitionMapAssessment::Inconclusive
                    } else {
                        PartitionMapAssessment::Partial
                    },
                    warnings: acc.1 + if overlap {
                        seq!["GPT accepted partition entries overlap; layout is not fully trustworthy"@]
                    } else {
                        Seq::empty()
                    },
                    limitations: if invalid {
                        seq!["invalid GPT entries were excluded from canonical partition projection"@]
                    } else {
                        Seq::empty()
                    },
                    table_ranges: ranges,
                },
            )
        },
    }
}

/// The GPT interpretation of an image with a protective MBR and a primary `EFI PART` signature.
pub open spec fn gpt_spec(b: Seq<u8>, limits: DiskImageLimits) -> Result<MapView, C01Error> {
    let size = b.len() as int;
    let r0 = seq![PartitionTableRange { byte_start: 0, byte_end_exclusive: 512 }];
    let hs = le_value(b, 524, 4);
    if hs < 92 || hs > 512 || 512 + hs > size {
        Ok(map_stop("GPT header size is invalid"@, r0))
    } else {
        let r1 = r0.push(PartitionTableRange { byte_start: 512, byte_end_exclusive: (512 + hs) as u64 });
        if crc32_of(gpt_header_for_crc(b, hs)) != le_value(b, 528, 4) {
            Ok(map_stop("GPT primary header CRC32 verification failed"@, r1))
        } else {
            let lba = le_value(b, 584, 8);
            let count = le_value(b, 592, 4);
            let esize = le_value(b, 596, 4);
            let ecrc = le_value(b, 600, 4);
            let start = lba * 512;
            let end = start + count * esize;
            if count > limits.max_partition_entries {
                Err(C01Error::TooManyPartitionEntries)
            } else if esize < 128 || esize > 4096 || esize % 8 != 0 {
                Ok(map_stop("GPT partition-entry size is unsupported"@, r1))
            } else if start > u64::MAX || end > u64::MAX {
                Err(C01Error::AccountingOverflow)
            } else if end > size {
                Ok(map_stop("GPT partition-entry array lies outside normalized image"@, r1))
            } else {
                let r2 = r1.push(PartitionTableRange { byte_start: start as u64, byte_end_exclusive: end as u64 });
                if crc32_of(b.subrange(start, end)) != ecrc {
                    Ok(map_stop("GPT partition-entry array CRC32 verification failed"@, r2))
                } else {
                    gpt_finish(b, start, esize, count as nat, r2)
                }
            }
        }
    }
}

/// The abstract value of an interpretation outcome with its table ranges.
pub open spec fn outcome_view(o: MapOutcome, ranges: Seq<PartitionTableRange>) -> MapView {
    MapView {
        partitions: entry_views(o.partitions@),
        assessment: o.assessment,
        warnings: string_views(o.warnings@),
        limitations: string_views(o.limitations@),
        table_ranges: ranges,
    }
}

fn stop_outcome(limitation: &str) -> (o: MapOutcome)
    ensures
        entry_views(o.partitions@) == Seq::<PartitionEntryView>::empty(),
        o.assessment == PartitionMapAssessment::Inconclusive,
        string_views(o.warnings@) == Seq::<Seq<char>>::empty(),
        string_views(o.limitations@) == seq![limitation@],
{
    let mut limitations: Vec<String> = Vec::new();
    push_string(&mut limitations, owned(limitation));
    let o = MapOutcome { partitions: Vec::new(), assessment: PartitionMapAssessment::Inconclusive, warnings: Vec::new(), limitations };
    assert(entry_views(o.partitions@) =~= Seq::<PartitionEntryView>::empty());
    assert(string_views(o.warnings@) =~= Seq::<Seq<char>>::empty());
    assert(string_views(Seq::<String>::empty()) =~= Seq::<Seq<char>>::empty());
    o
}

proof fn lemma_gpt_slots_err(b: Seq<u8>, start: int, esize: int, k: nat, n: nat)
    requires
        k <= n,
        gpt_slots(b, start, esize, k) is Err,
    ensures
        gpt_slots(b, start, esize, n) == gpt_slots(b, start, esize, k),
    decreases n - k,
{
    if k < n {
        lemma_gpt_slots_err(b, start, esize, k, (n - 1) as nat);
    }
}

fn all_zero16(b: &[u8], off: usize) -> (r: bool)
    requires
        off + 16 <= b@.len(),
    ensures
        r == (forall|k: int| 0 <= k < 16 ==> #[trigger] b@[off + k] == 0),
{
    let n = b.len();
    let mut k: usize = 0;
    while k < 16
        invariant
            k <= 16,
            n == b@.len(),
            off + 16 <= b@.len(),
            forall|j: int| 0 <= j < k ==> #[trigger] b@[off + j] == 0,
        decreases 16 - k,
    {
        if b[off + k] != 0 {
            return false;
        }
        k = k + 1;
    }
    true
}

fn gpt_slot(
    b: &[u8],
    off: usize,
    slot: u32,
    collected: &mut Vec<PartitionEntry>,
    warnings: &mut Vec<String>,
) -> (r: Result<(), C01Error>)
    requires
        off + 128 <= b@.len(),
        slot < u32::MAX,
    ensures
        ({
            let acc = (entry_views(old(collected)@), string_views(old(warnings)@));
            match gpt_slot_step(b@, off as int, slot as int, acc) {
                Ok(a) => r is Ok && entry_views(final(collected)@) == a.0 && string_views(final(warnings)@) == a.1,
                Err(e) => r == Err::<(), C01Error>(e),
            }
        }),
{
    let n = b.len();
    if all_zero16(b, off) {
        return Ok(());
    }
    let first_lba = read_le_u64(b, off + 32).unwrap();
    let last_lba = read_le_u64(b, off + 40).unwrap();
    if first_lba > last_lba {
        let w = numbered_message("GPT slot ", slot as u64 + 1, " has reversed LBA bounds");
        push_string(warnings, w);
        return Ok(());
    }
    if first_lba > u64::MAX / 512 || last_lba >= u64::MAX / 512 {
        return Err(C01Error::AccountingOverflow);
    }
    let byte_start = first_lba * 512;
    let byte_end_exclusive = (last_lba + 1) * 512;
    if byte_end_exclusive > b.len() as u64 {
        let w = numbered_message("GPT slot ", slot as u64 + 1, " extent lies outside normalized image");
        push_string(warnings, w);
        return Ok(());
    }
    let name = decode_gpt_name(&b[off + 56..off + 128]);
    let type_id = format_gpt_guid(&b[off..off + 16]);
    let e = PartitionEntry {
        index: slot + 1,
        name,
        type_id,
        first_lba,
        last_lba_inclusive: last_lba,
        byte_start,
        byte_end_exclusive,
        bootable: false,
        container: false,
    };
    assert(e@ == gpt_entry_view(b@, off as int, slot as int));
    push_entry(collected, e);
    Ok(())
}


/// Interpret the GPT of an image with a protective MBR and a primary `EFI PART` signature.
fn inspect_gpt(b: &[u8], limits: DiskImageLimits) -> (r: Result<(MapOutcome, Vec<PartitionTableRange>), C01Error>)
    requires
        b@.len() >= 1024,
    ensures
        r matches Ok(g) ==> gpt_spec(b@, limits) == Ok::<MapView, C01Error>(outcome_view(g.0, g.1@)),
        r matches Err(e) ==> gpt_spec(b@, limits) == Err::<MapView, C01Error>(e),
{
    let n = b.len();
    let size = n as u64;
    let mut ranges: Vec<PartitionTableRange> = Vec::new();
    ranges.push(PartitionTableRange { byte_start: 0, byte_end_exclusive: 512 });
    let header_size = read_le_u32(b, 524).unwrap() as usize;
    if header_size < 92 || header_size > 512 || 512 + header_size > n {
        return Ok((stop_outcome("GPT header size is invalid"), ranges));
    }
    ranges.push(PartitionTableRange { byte_start: 512, byte_end_exclusive: (512 + header_size) as u64 });
    let expected_header_crc = read_le_u32(b, 528).unwrap();
    let mut header: Vec<u8> = Vec::new();
    append_range(&mut header, b, 512, 528);
    header.push(0);
    header.push(0);
    header.push(0);
    header.push(0);
    append_range(&mut header, b, 532, 512 + header_size);
    assert(header@ =~= gpt_header_for_crc(b@, header_size as int));
    if crc32(header.as_slice()) != expected_header_crc {
        return Ok((stop_outcome("GPT primary header CRC32 verification failed"), ranges));
    }
    let entries_lba = read_le_u64(b, 584).unwrap();
    let entry_count = read_le_u32(b, 592).unwrap();
    let entry_size = read_le_u32(b, 596).unwrap();
    let expected_entries_crc = read_le_u32(b, 600).unwrap();
    if entry_count > limits.max_partition_entries {
        return Err(C01Error::TooManyPartitionEntries);
    }
    if entry_size < 128 || entry_size > 4096 || entry_size % 8 != 0 {
        return Ok((stop_outcome("GPT partition-entry size is unsupported"), ranges));
    }
    assert(entry_count as u64 * entry_size as u64 <= 0xffff_ffff * 4096) by (nonlinear_arith)
        requires
            entry_size <= 4096,
    ;
    let entries_bytes = entry_count as u64 * entry_size as u64;
    if entries_lba > u64::MAX / 512 {
        return Err(C01Error::AccountingOverflow);
    }
    let entries_start = entries_lba * 512;
    if entries_start > u64::MAX - entries_bytes {
        return Err(C01Error::AccountingOverflow);
    }
    let entries_end = entries_start + entries_bytes;
    if entries_end > size {
        return Ok((stop_outcome("GPT partition-entry array lies outside normalized image"), ranges));
    }
    ranges.push(PartitionTableRange { byte_start: entries_start, byte_end_exclusive: entries_end });
    let start = entries_start as usize;
    let end = entries_end as usize;
    if crc32(&b[start..end]) != expected_entries_crc {
        return Ok((stop_outcome("GPT partition-entry array CRC32 verification failed"), ranges));
    }
    gpt_entries(b, start, entry_size as usize, entry_count, ranges)
}


fn gpt_entries(b: &[u8], start: usize, esize: usize, entry_count: u32, ranges: Vec<PartitionTableRange>) -> (r: Result<
    (MapOutcome, Vec<PartitionTableRange>),
    C01Error,
>)
    requires
        start as int + entry_count as int * esize as int <= b@.len(),
        128 <= esize <= 4096,
    ensures
        r matches Ok(g) ==> gpt_finish(b@, start as int, esize as int, entry_count as nat, ranges@)
            == Ok::<MapView, C01Error>(outcome_view(g.0, g.1@)),
        r matches Err(e) ==> gpt_finish(b@, start as int, esize as int, entry_count as nat, ranges@)
            == Err::<MapView, C01Error>(e),
{
    let n = b.len();
    let mut collected: Vec<PartitionEntry> = Vec::new();
    let mut warnings: Vec<String> = Vec::new();
    let mut slot: u32 = 0;
    proof {
        assert(entry_views(collected@) =~= Seq::<PartitionEntryView>::empty());
        assert(string_views(warnings@) =~= Seq::<Seq<char>>::empty());
    }
    while slot < entry_count
        invariant
            n == b@.len(),
            slot <= entry_count,
            start as int + entry_count as int * esize as int <= n,
            128 <= esize <= 4096,
            gpt_slots(b@, start as int, esize as int, slot as nat) == Ok::<GptAcc, C01Error>(
                (entry_views(collected@), string_views(warnings@)),
            ),
        decreases entry_count - slot,
    {
        assert(start as int + slot as int * esize as int + esize as int <= n) by (nonlinear_arith)
            requires
                start as int + entry_count as int * esize as int <= n,
                slot < entry_count,
                esize >= 0,
        ;
        let off = start + (slot as usize) * esize;
        let step = gpt_slot(b, off, slot, &mut collected, &mut warnings);
        if let Err(e) = step {
            proof {
                lemma_gpt_slots_err(b@, start as int, esize as int, (slot + 1) as nat, entry_count as nat);
            }
            return Err(e);
        }
        slot = slot + 1;
    }
    let partitions = sort_partitions(collected, false);
    let overlap = has_partition_overlap(partitions.as_slice());
    let saw_invalid = warnings.len() > 0 || overlap;
    proof {
        assert(string_views(warnings@).len() == warnings@.len());
    }
    let ghost w0 = string_views(warnings@);
    if overlap {
        push_string(&mut warnings, owned("GPT accepted partition entries overlap; layout is not fully trustworthy"));
    }
    let mut limitations: Vec<String> = Vec::new();
    proof {
        assert(string_views(limitations@) =~= Seq::<Seq<char>>::empty());
    }
    if saw_invalid {
        push_string(&mut limitations, owned("invalid GPT entries were excluded from canonical partition projection"));
    }
    let assessment = if !saw_invalid {
        PartitionMapAssessment::Complete
    } else if partitions.len() == 0 {
        PartitionMapAssessment::Inconclusive
    } else {
        PartitionMapAssessment::Partial
    };
    let o = MapOutcome { partitions, assessment, warnings, limitations };
    assert(string_views(o.warnings@) =~= w0 + if overlap {
        seq!["GPT accepted partition entries overlap; layout is not fully trustworthy"@]
    } else {
        Seq::empty()
    });
    Ok((o, ranges))
}


/// Exact context for one immutable source disk-image Revision.
#[derive(Debug, Clone)]
pub struct DiskImageContext {
    /// Workspace owning the source image.
    pub workspace_ref: EntityRef,
    /// Authority for canonical registration/View plans.
    pub authority_ref: EntityRef,
    /// Exact immutable source Object Revision.
    pub source_revision_ref: EntityRef,
}

/// The context names a workspace and an exact object revision.
pub open spec fn context_valid(c: DiskImageContext) -> bool {
    c.workspace_ref.entity_kind@ == "core.workspace"@ && c.source_revision_ref.entity_kind@
        == "object.revision"@
}

/// The failure of `validate_context`, if any.
pub open spec fn context_fault(c: DiskImageContext) -> Option<C01Error> {
    if c.workspace_ref.entity_kind@ != "core.workspace"@ {
        Some(C01Error::InvalidWorkspaceRef)
    } else if c.source_revision_ref.entity_kind@ != "object.revision"@ {
        Some(C01Error::InvalidSourceRevision)
    } else {
        None
    }
}

pub(crate) fn validate_context(context: &DiskImageContext) -> (r: Result<(), C01Error>)
    ensures
        r is Ok <==> context_fault(*context) is None,
        r matches Err(e) ==> context_fault(*context) == Some(e),
{
    if !context.workspace_ref.has_kind("core.workspace") {
        return Err(C01Error::InvalidWorkspaceRef);
    }
    if !context.source_revision_ref.has_kind("object.revision") {
        return Err(C01Error::InvalidSourceRevision);
    }
    Ok(())
}

/// Source-bound partition-map report.
#[derive(Debug)]
pub struct DiskImageReport {
    /// Exact source Object Revision.
    pub source_revision_ref: EntityRef,
    /// Original source digest.
    pub source_sha256: String,
    /// Normalized digest.
    pub normalized_sha256: String,
    /// Normalized byte size.
    pub normalized_size: u64,
    /// Source encoding.
    pub source_format: DiskImageFormat,
    /// Logical block size used by partition foundations.
    pub logical_block_size: u64,
    /// Detected map family.
    pub partition_table: PartitionTableKind,
    /// Truth status.
    pub assessment: PartitionMapAssessment,
    /// Exact accepted partitions.
    pub partitions: Vec<PartitionEntry>,
    /// Partition-table metadata byte ranges.
    pub partition_table_ranges: Vec<PartitionTableRange>,
    /// Exact source-defined/unspecified coverage copied from normalization.
    pub source_coverage: Vec<SourceCoverageRange>,
    /// Exact partition/unknown/unallocated layout ranges.
    pub layout_coverage: Vec<PartitionLayoutRange>,
    /// Non-fatal mechanical warnings.
    pub warnings: Vec<String>,
    /// Unsupported/inconclusive boundaries.
    pub limitations: Vec<String>,
}

/// Abstract value of a partition-map report.
pub ghost struct DiskImageReportView {
    /// Source revision reference.
    pub source_revision_ref: (Seq<char>, Seq<char>),
    /// Source digest text.
    pub source_sha256: Seq<char>,
    /// Normalized digest text.
    pub normalized_sha256: Seq<char>,
    /// Normalized size.
    pub normalized_size: u64,
    /// Source encoding.
    pub source_format: DiskImageFormat,
    /// Logical block size.
    pub logical_block_size: u64,
    /// Map family.
    pub partition_table: PartitionTableKind,
    /// Map interpretation.
    pub map: MapView,
    /// Source coverage.
    pub source_coverage: Seq<SourceCoverageRange>,
    /// Layout coverage.
    pub layout_coverage: Seq<PartitionLayoutRange>,
}

impl View for DiskImageReport {
    type V = DiskImageReportView;

    open spec fn view(&self) -> DiskImageReportView {
        DiskImageReportView {
            source_revision_ref: self.source_revision_ref@,
            source_sha256: self.source_sha256@,
            normalized_sha256: self.normalized_sha256@,
            normalized_size: self.normalized_size,
            source_format: self.source_format,
            logical_block_size: self.logical_block_size,
            partition_table: self.partition_table,
            map: MapView {
                partitions: entry_views(self.partitions@),
                assessment: self.assessment,
                warnings: string_views(self.warnings@),
                limitations: string_views(self.limitations@),
                table_ranges: self.partition_table_ranges@,
            },
            source_coverage: self.source_coverage@,
            layout_coverage: self.layout_coverage@,
        }
    }
}

/// The nonzero type bytes of the four primary MBR slots include `0xee`.
pub open spec fn mbr_protective(b: Seq<u8>) -> bool {
    exists|k: int| 0 <= k < 4 && #[trigger] mbr_type(b, k) == 0xee
}

/// Some nonzero primary MBR type byte is not `0xee`.
pub open spec fn mbr_has_other(b: Seq<u8>) -> bool {
    exists|k: int| 0 <= k < 4 && #[trigger] mbr_type(b, k) != 0 && mbr_type(b, k) != 0xee
}

/// `EFI PART` at byte 512.
pub open spec fn has_gpt_signature(b: Seq<u8>) -> bool {
    b.len() >= 1024 && b.subrange(512, 520) == seq![0x45u8, 0x46, 0x49, 0x20, 0x50, 0x41, 0x52, 0x54]
}

/// The interpretation of the map of `b` (at least 512 bytes with a boot signature): table kind
/// and map view before layout.
pub open spec fn map_interpretation(b: Seq<u8>, limits: DiskImageLimits) -> Result<
    (PartitionTableKind, MapView),
    C01Error,
> {
    let r0 = seq![PartitionTableRange { byte_start: 0, byte_end_exclusive: 512 }];
    if mbr_protective(b) {
        if !has_gpt_signature(b) {
            Ok(
                (
                    PartitionTableKind::Gpt,
                    map_stop("protective MBR exists but a valid primary GPT signature is unavailable"@, r0),
                ),
            )
        } else {
            match gpt_spec(b, limits) {
                Err(e) => Err(e),
                Ok(m) => if mbr_has_other(b) {
                    Ok(
                        (
                            PartitionTableKind::Gpt,
                            MapView {
                                assessment: if m.assessment == PartitionMapAssessment::Complete {
                                    PartitionMapAssessment::Partial
                                } else {
                                    m.assessment
                                },
                                limitations: m.limitations.push(
                                    "hybrid MBR entries are not projected alongside GPT in C01"@,
                                ),
                                ..m
                            },
                        ),
                    )
                } else {
                    Ok((PartitionTableKind::Gpt, m))
                },
            }
        }
    } else {
        let size = b.len() as int;
        let parts = sort_entries(mbr_collect(b, size, 4), false);
        let overlap = partitions_overlap(parts);
        let invalid = mbr_slot_warnings(b, size, 4).len() > 0 || overlap;
        let extended = any_container(parts);
        Ok(
            (
                PartitionTableKind::Mbr,
                MapView {
                    partitions: parts,
                    assessment: mbr_assessment(parts, invalid, extended),
                    warnings: mbr_slot_warnings(b, size, 4) + (if overlap {
                        seq!["MBR primary partition entries overlap"@]
                    } else {
                        Seq::empty()
                    }),
                    limitations: (if invalid {
                        seq!["one or more MBR entries were invalid and were not promoted as partitions"@]
                    } else {
                        Seq::empty()
                    }) + (if extended {
                        seq!["MBR extended-partition container retained; EBR recursion is outside C01"@]
                    } else {
                        Seq::empty()
                    }),
                    table_ranges: r0,
                },
            ),
        )
    }
}

proof fn lemma_insert_sorted_all(
    s: Seq<PartitionEntryView>,
    x: PartitionEntryView,
    by_end: bool,
    pred: spec_fn(PartitionEntryView) -> bool,
)
    requires
        forall|k: int| 0 <= k < s.len() ==> pred(#[trigger] s[k]),
        pred(x),
    ensures
        forall|k: int| 0 <= k < insert_sorted(s, x, by_end).len() ==> pred(#[trigger] insert_sorted(s, x, by_end)[k]),
    decreases s.len(),
{
    if s.len() > 0 {
        if key_before(x, s[0], by_end) {
            let r = seq![x] + s;
            assert forall|k: int| 0 <= k < r.len() implies pred(#[trigger] r[k]) by {
                if k > 0 {
                    assert(r[k] == s[k - 1]);
                }
            }
        } else {
            let t = s.drop_first();
            assert forall|k: int| 0 <= k < t.len() implies pred(#[trigger] t[k]) by {
                assert(t[k] == s[k + 1]);
            }
            lemma_insert_sorted_all(t, x, by_end, pred);
            let r = seq![s[0]] + insert_sorted(t, x, by_end);
            assert forall|k: int| 0 <= k < r.len() implies pred(#[trigger] r[k]) by {
                if k > 0 {
                    assert(r[k] == insert_sorted(t, x, by_end)[k - 1]);
                }
            }
        }
    }
}

proof fn lemma_sort_entries_all(s: Seq<PartitionEntryView>, by_end: bool, pred: spec_fn(PartitionEntryView) -> bool)
    requires
        forall|k: int| 0 <= k < s.len() ==> pred(#[trigger] s[k]),
    ensures
        forall|k: int| 0 <= k < sort_entries(s, by_end).len() ==> pred(#[trigger] sort_entries(s, by_end)[k]),
    decreases s.len(),
{
    if s.len() > 0 {
        let t = s.drop_last();
        assert forall|k: int| 0 <= k < t.len() implies pred(#[trigger] t[k]) by {
            assert(t[k] == s[k]);
        }
        lemma_sort_entries_all(t, by_end, pred);
        lemma_insert_sorted_all(sort_entries(t, by_end), s.last(), by_end, pred);
    }
}

proof fn lemma_mbr_collect_all(b: Seq<u8>, size: int, n: nat, pred: spec_fn(PartitionEntryView) -> bool)
    requires
        n <= 4,
        forall|slot: int| 0 <= slot < n ==> pred(#[trigger] mbr_entry_view(b, slot)),
    ensures
        forall|k: int| 0 <= k < mbr_collect(b, size, n).len() ==> pred(#[trigger] mbr_collect(b, size, n)[k]),
    decreases n,
{
    if n > 0 {
        lemma_mbr_collect_all(b, size, (n - 1) as nat, pred);
        let prev = mbr_collect(b, size, (n - 1) as nat);
        assert forall|k: int| 0 <= k < mbr_collect(b, size, n).len() implies pred(
            #[trigger] mbr_collect(b, size, n)[k],
        ) by {
            if k < prev.len() {
                assert(mbr_collect(b, size, n)[k] == prev[k]);
            } else {
                assert(pred(mbr_entry_view(b, n - 1)));
            }
        }
    }
}

/// MBR extended containers: in an MBR interpretation, an entry is a container exactly when the
/// type byte of its slot (byte 4 of the 16-byte entry at 446) is 0x05, 0x0F or 0x85, and bootable
/// exactly when the slot's status byte is 0x80; a map with any container is Partial and ends its
/// limitations with the retained-container note.
pub proof fn lemma_mbr_containers(
    image: crate::disk_image::DiskImageView,
    context: DiskImageContext,
    limits: DiskImageLimits,
)
    requires
        partition_map_spec(image, context, limits) is Ok,
        partition_map_spec(image, context, limits)->Ok_0.partition_table == PartitionTableKind::Mbr,
    ensures
        ({
            let m = partition_map_spec(image, context, limits)->Ok_0.map;
            let b = image.bytes;
            &&& forall|i: int|
                0 <= i < m.partitions.len() ==> 1 <= (#[trigger] m.partitions[i]).index <= 4 && (
                m.partitions[i].container <==> (b[446 + 16 * (m.partitions[i].index - 1) + 4] == 0x05 || b[446
                + 16 * (m.partitions[i].index - 1) + 4] == 0x0f || b[446 + 16 * (m.partitions[i].index - 1) + 4]
                == 0x85)) && (m.partitions[i].bootable <==> b[446 + 16 * (m.partitions[i].index - 1)] == 0x80)
            &&& (exists|i: int| 0 <= i < m.partitions.len() && (#[trigger] m.partitions[i]).container) ==> (
            m.assessment == PartitionMapAssessment::Partial && m.limitations.len() > 0 && m.limitations.last()
                == "MBR extended-partition container retained; EBR recursion is outside C01"@)
        }),
{
    let b = image.bytes;
    let size = b.len() as int;
    let pred = |e: PartitionEntryView|
        1 <= e.index <= 4 && (e.container <==> (b[446 + 16 * (e.index - 1) + 4] == 0x05 || b[446 + 16 * (e.index
            - 1) + 4] == 0x0f || b[446 + 16 * (e.index - 1) + 4] == 0x85)) && (e.bootable <==> b[446 + 16 * (e.index
            - 1)] == 0x80);
    assert forall|slot: int| 0 <= slot < 4 implies pred(#[trigger] mbr_entry_view(b, slot)) by {
        assert(mbr_entry_view(b, slot).index - 1 == slot);
    }
    lemma_mbr_collect_all(b, size, 4, pred);
    lemma_sort_entries_all(mbr_collect(b, size, 4), false, pred);
}

/// What `inspect_partition_map` reports for `image` in `context`.
pub open spec fn partition_map_spec(
    image: crate::disk_image::DiskImageView,
    context: DiskImageContext,
    limits: DiskImageLimits,
) -> Result<DiskImageReportView, C01Error> {
    let b = image.bytes;
    let size = b.len() as u64;
    let base = DiskImageReportView {
        source_revision_ref: context.source_revision_ref@,
        source_sha256: image.source_sha256,
        normalized_sha256: image.normalized_sha256,
        normalized_size: size,
        source_format: image.source_format,
        logical_block_size: 512,
        partition_table: PartitionTableKind::Unrecognized,
        map: MapView {
            partitions: Seq::empty(),
            assessment: PartitionMapAssessment::Inconclusive,
            warnings: Seq::empty(),
            limitations: Seq::empty(),
            table_ranges: Seq::empty(),
        },
        source_coverage: image.coverage,
        layout_coverage: seq![PartitionLayoutRange { byte_start: 0, byte_end_exclusive: size, kind: PartitionLayoutKind::Unknown, partition_index: None }],
    };
    match context_fault(context) {
        Some(e) => Err(e),
        None => if !crate::disk_image::limits_valid(limits) {
            Err(C01Error::InvalidLimits)
        } else if b.len() < 512 {
            Ok(DiskImageReportView {
                map: MapView { limitations: seq!["image is smaller than one 512-byte logical block"@], ..base.map },
                ..base
            })
        } else if b[510] != 0x55 || b[511] != 0xaa {
            Ok(DiskImageReportView {
                map: MapView { limitations: seq!["no valid MBR signature; partition map is inconclusive"@], ..base.map },
                ..base
            })
        } else {
            match map_interpretation(b, limits) {
                Err(e) => Err(e),
                Ok(t) => Ok(DiskImageReportView {
                    partition_table: t.0,
                    map: t.1,
                    layout_coverage: if mbr_protective(b) && !has_gpt_signature(b) {
                        base.layout_coverage
                    } else {
                        layout_spec(size, t.1.partitions, t.1.assessment)
                    },
                    ..base
                }),
            }
        },
    }
}


fn mbr_flags(b: &[u8]) -> (r: (bool, bool))
    requires
        b@.len() >= 512,
    ensures
        r.0 == mbr_protective(b@),
        r.1 == mbr_has_other(b@),
{
    let mut protective = false;
    let mut other = false;
    let mut k: usize = 0;
    while k < 4
        invariant
            k <= 4,
            b@.len() >= 512,
            protective == (exists|j: int| 0 <= j < k && #[trigger] mbr_type(b@, j) == 0xee),
            other == (exists|j: int| 0 <= j < k && #[trigger] mbr_type(b@, j) != 0 && mbr_type(b@, j) != 0xee),
        decreases 4 - k,
    {
        let t = b[446 + k * 16 + 4];
        assert(t == mbr_type(b@, k as int));
        if t == 0xee {
            protective = true;
        } else if t != 0 {
            other = true;
        }
        k = k + 1;
    }
    (protective, other)
}

fn gpt_signature(b: &[u8]) -> (r: bool)
    ensures
        r == has_gpt_signature(b@),
{
    if b.len() < 1024 {
        return false;
    }
    let sig = [0x45u8, 0x46, 0x49, 0x20, 0x50, 0x41, 0x52, 0x54];
    let mut k: usize = 0;
    while k < 8
        invariant
            k <= 8,
            b@.len() >= 1024,
            sig@ == seq![0x45u8, 0x46, 0x49, 0x20, 0x50, 0x41, 0x52, 0x54],
            forall|j: int| 0 <= j < k ==> #[trigger] b@[512 + j] == sig@[j],
        decreases 8 - k,
    {
        if b[512 + k] != sig[k] {
            assert(b@.subrange(512, 520)[k as int] != sig@[k as int]);
            return false;
        }
        k = k + 1;
    }
    assert forall|j: int| 0 <= j < 8 implies #[trigger] b@.subrange(512, 520)[j] == sig@[j] by {
        assert(b@[512 + j] == sig@[j]);
    }
    assert(b@.subrange(512, 520) =~= sig@);
    true
}

/// Inspect MBR/GPT partition foundations over exact normalized bytes.
///
/// Corrupt maps remain explicit partial/inconclusive reports rather than false complete success.
/// Fails only for invalid context/limits, resource overflow or declared table-entry bounds.
pub fn inspect_partition_map(
    image: &NormalizedDiskImage,
    context: &DiskImageContext,
    limits: DiskImageLimits,
) -> (r: Result<DiskImageReport, C01Error>)
    ensures
        r matches Ok(rep) ==> partition_map_spec(image@, *context, limits) == Ok::<DiskImageReportView, C01Error>(rep@),
        r matches Err(e) ==> partition_map_spec(image@, *context, limits) == Err::<DiskImageReportView, C01Error>(e),
{
    validate_context(context)?;
    validate_limits(limits)?;
    let b = image.bytes();
    let size = b.len() as u64;
    let mut layout: Vec<PartitionLayoutRange> = Vec::new();
    layout.push(PartitionLayoutRange { byte_start: 0, byte_end_exclusive: size, kind: PartitionLayoutKind::Unknown, partition_index: None });
    let mut report = DiskImageReport {
        source_revision_ref: context.source_revision_ref.duplicate(),
        source_sha256: owned(image.source_sha256()),
        normalized_sha256: owned(image.normalized_sha256()),
        normalized_size: size,
        source_format: image.source_format(),
        logical_block_size: SECTOR_SIZE,
        partition_table: PartitionTableKind::Unrecognized,
        assessment: PartitionMapAssessment::Inconclusive,
        partitions: Vec::new(),
        partition_table_ranges: Vec::new(),
        source_coverage: copy_coverage(image.source_coverage()),
        layout_coverage: layout,
        warnings: Vec::new(),
        limitations: Vec::new(),
    };
    proof {
        assert(entry_views(report.partitions@) =~= Seq::<PartitionEntryView>::empty());
        assert(string_views(report.warnings@) =~= Seq::<Seq<char>>::empty());
        assert(string_views(report.limitations@) =~= Seq::<Seq<char>>::empty());
    }
    if b.len() < 512 {
        push_string(&mut report.limitations, owned("image is smaller than one 512-byte logical block"));
        return Ok(report);
    }
    if b[510] != 0x55 || b[511] != 0xaa {
        push_string(&mut report.limitations, owned("no valid MBR signature; partition map is inconclusive"));
        return Ok(report);
    }
    let (protective, hybrid_other) = mbr_flags(b);
    let mut r0: Vec<PartitionTableRange> = Vec::new();
    r0.push(PartitionTableRange { byte_start: 0, byte_end_exclusive: 512 });
    if protective {
        report.partition_table = PartitionTableKind::Gpt;
        if !gpt_signature(b) {
            report.partition_table_ranges = r0;
            push_string(&mut report.limitations, owned("protective MBR exists but a valid primary GPT signature is unavailable"));
            return Ok(report);
        }
        let (outcome, ranges) = inspect_gpt(b, limits)?;
        report.partitions = outcome.partitions;
        report.assessment = outcome.assessment;
        report.warnings = outcome.warnings;
        report.limitations = outcome.limitations;
        report.partition_table_ranges = ranges;
        if hybrid_other {
            if report.assessment == PartitionMapAssessment::Complete {
                report.assessment = PartitionMapAssessment::Partial;
            }
            push_string(&mut report.limitations, owned("hybrid MBR entries are not projected alongside GPT in C01"));
        }
    } else {
        let outcome = inspect_mbr(b);
        report.partition_table = PartitionTableKind::Mbr;
        report.partitions = outcome.partitions;
        report.assessment = outcome.assessment;
        report.warnings = outcome.warnings;
        report.limitations = outcome.limitations;
        report.partition_table_ranges = r0;
    }
    report.layout_coverage = build_layout_coverage(size, report.partitions.as_slice(), report.assessment);
    Ok(report)
}

} // verus!
