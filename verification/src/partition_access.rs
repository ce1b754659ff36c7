//! Exact partition materialization from a normalized image, and structural comparison of two
//! partition-map reports.
use vstd::prelude::*;
use crate::digest::{sha256_hex, sha256_hex_of};
use crate::disk_image::{
    image_wf, C01Error, DiskImageView, NormalizedDiskImage, SourceCoverageKind, SourceCoverageRange,
};
use crate::identity::EntityRef;
use crate::partition_map::{
    clone_opt_string, context_fault, opt_view, push_string, ranges_overlap, ranges_overlap_spec,
    string_views, validate_context, DiskImageContext, DiskImageReport, DiskImageReportView,
    PartitionEntry, PartitionEntryView, PartitionTableKind,
};
use crate::text::{decimal, numbered_message, owned};

verus! {

/// Read-only exact partition materialization.
#[derive(Debug)]
pub struct PartitionMaterialization {
    /// Exact accepted partition metadata.
    pub partition: PartitionEntry,
    /// Exact immutable source revision.
    pub source_revision_ref: EntityRef,
    /// SHA-256 of exact materialized bytes.
    pub sha256: String,
    bytes: Vec<u8>,
}

/// Abstract value of a partition materialization.
pub ghost struct PartitionMaterializationView {
    /// Partition metadata.
    pub partition: PartitionEntryView,
    /// Source revision reference.
    pub source_revision_ref: (Seq<char>, Seq<char>),
    /// Digest text.
    pub sha256: Seq<char>,
    /// Materialized bytes.
    pub bytes: Seq<u8>,
}

impl View for PartitionMaterialization {
    type V = PartitionMaterializationView;

    closed spec fn view(&self) -> PartitionMaterializationView {
        PartitionMaterializationView {
            partition: self.partition@,
            source_revision_ref: self.source_revision_ref@,
            sha256: self.sha256@,
            bytes: self.bytes@,
        }
    }
}

impl PartitionMaterialization {
    /// Read-only materialized bytes.
    pub fn bytes(&self) -> (r: &[u8])
        ensures
            r@ == self@.bytes,
    {
        self.bytes.as_slice()
    }
}

/// `i` is the first position of `ps` holding table slot `idx`.
pub open spec fn first_slot(ps: Seq<PartitionEntryView>, idx: u32, i: int) -> bool {
    &&& 0 <= i < ps.len()
    &&& ps[i].index == idx
    &&& forall|j: int| 0 <= j < i ==> #[trigger] ps[j].index != idx
}

/// Some entry of `ps` holds table slot `idx`.
pub open spec fn has_slot(ps: Seq<PartitionEntryView>, idx: u32) -> bool {
    exists|i: int| 0 <= i < ps.len() && #[trigger] ps[i].index == idx
}

/// Some unspecified coverage range intersects `[start, end)`.
pub open spec fn touches_unspecified(cov: Seq<SourceCoverageRange>, start: u64, end: u64) -> bool {
    exists|i: int|
        0 <= i < cov.len() && (#[trigger] cov[i]).kind == SourceCoverageKind::Unspecified
            && ranges_overlap_spec(start, end, cov[i].byte_start, cov[i].byte_end_exclusive)
}

/// The report does not describe this exact image under this context.
pub open spec fn binding_mismatch(
    image: DiskImageView,
    report: DiskImageReportView,
    context: DiskImageContext,
) -> bool {
    ||| report.source_revision_ref != context.source_revision_ref@
    ||| report.source_sha256 != image.source_sha256
    ||| report.normalized_sha256 != image.normalized_sha256
    ||| report.normalized_size != image.bytes.len()
}

/// The partition that `materialize_partition` returns for slot `idx`, or its failure.
pub open spec fn materialize_spec(
    image: DiskImageView,
    report: DiskImageReportView,
    idx: u32,
    context: DiskImageContext,
) -> Result<PartitionEntryView, C01Error> {
    let ps = report.map.partitions;
    match context_fault(context) {
        Some(e) => Err(e),
        None => if binding_mismatch(image, report, context) {
            Err(C01Error::SourceBindingMismatch)
        } else if !has_slot(ps, idx) {
            Err(C01Error::PartitionNotFound)
        } else {
            let p = ps[choose|i: int| first_slot(ps, idx, i)];
            if p.byte_end_exclusive <= p.byte_start || p.byte_end_exclusive > report.normalized_size {
                Err(C01Error::PartitionOutOfBounds)
            } else if touches_unspecified(image.coverage, p.byte_start, p.byte_end_exclusive) {
                Err(C01Error::UnspecifiedPartitionBytes)
            } else {
                Ok(p)
            }
        },
    }
}

fn find_first_slot(partitions: &[PartitionEntry], idx: u32) -> (r: Option<usize>)
    ensures
        r is None <==> !has_slot(partitions@.map_values(|p: PartitionEntry| p@), idx),
        r matches Some(i) ==> first_slot(partitions@.map_values(|p: PartitionEntry| p@), idx, i as int),
{
    let ghost ps = partitions@.map_values(|p: PartitionEntry| p@);
    let mut i: usize = 0;
    while i < partitions.len()
        invariant
            i <= partitions.len(),
            ps == partitions@.map_values(|p: PartitionEntry| p@),
            forall|j: int| 0 <= j < i ==> #[trigger] ps[j].index != idx,
        decreases partitions.len() - i,
    {
        assert(ps[i as int] == partitions@[i as int]@);
        if partitions[i].index == idx {
            assert(ps[i as int].index == idx);
            return Some(i);
        }
        i = i + 1;
    }
    assert(!has_slot(ps, idx));
    None
}

/// Two first positions of one slot coincide.
proof fn lemma_first_slot_unique(ps: Seq<PartitionEntryView>, idx: u32, i: int, j: int)
    requires
        first_slot(ps, idx, i),
        first_slot(ps, idx, j),
    ensures
        i == j,
{
    if i < j {
        assert(ps[i].index != idx);
    } else if j < i {
        assert(ps[j].index != idx);
    }
}

fn any_unspecified_overlap(cov: &[SourceCoverageRange], start: u64, end: u64) -> (r: bool)
    ensures
        r == touches_unspecified(cov@, start, end),
{
    let mut i: usize = 0;
    while i < cov.len()
        invariant
            i <= cov.len(),
            forall|j: int|
                0 <= j < i ==> !((#[trigger] cov@[j]).kind == SourceCoverageKind::Unspecified
                    && ranges_overlap_spec(start, end, cov@[j].byte_start, cov@[j].byte_end_exclusive)),
        decreases cov.len() - i,
    {
        let range = cov[i];
        if ranges_overlap(start, end, range.byte_start, range.byte_end_exclusive) && range.kind
            == SourceCoverageKind::Unspecified {
            assert(cov@[i as int] == range);
            return true;
        }
        i = i + 1;
    }
    false
}

pub(crate) fn copy_bytes(src: &[u8], start: usize, end: usize) -> (r: Vec<u8>)
    requires
        start <= end <= src@.len(),
    ensures
        r@ == src@.subrange(start as int, end as int),
{
    let mut out: Vec<u8> = Vec::new();
    crate::disk_image::append_range(&mut out, src, start, end);
    assert(out@ =~= src@.subrange(start as int, end as int));
    out
}

/// Materialize one exact partition as immutable read-only bytes.
///
/// Rejects stale or forged report bindings, out-of-bounds extents and any overlap with source
/// `Unspecified` coverage: bytes the source left unspecified are never presented as partition
/// content.
pub fn materialize_partition(
    image: &NormalizedDiskImage,
    report: &DiskImageReport,
    partition_index: u32,
    context: &DiskImageContext,
) -> (r: Result<PartitionMaterialization, C01Error>)
    ensures
        r matches Err(e) ==> materialize_spec(image@, report@, partition_index, *context) == Err::<
            PartitionEntryView,
            C01Error,
        >(e),
        r matches Ok(m) ==> {
            &&& materialize_spec(image@, report@, partition_index, *context) == Ok::<
                PartitionEntryView,
                C01Error,
            >(m@.partition)
            &&& m@.bytes == image@.bytes.subrange(
                m@.partition.byte_start as int,
                m@.partition.byte_end_exclusive as int,
            )
            &&& m@.sha256 == sha256_hex_of(m@.bytes)
            &&& m@.source_revision_ref == context.source_revision_ref@
        },
{
    validate_context(context)?;
    let bytes_all = image.bytes();
    let coverage = image.source_coverage();
    let src_digest = String::from_str(image.source_sha256());
    let norm_digest = String::from_str(image.normalized_sha256());
    if !report.source_revision_ref.same_as(&context.source_revision_ref) || report.source_sha256
        != src_digest || report.normalized_sha256 != norm_digest || report.normalized_size
        != bytes_all.len() as u64 {
        return Err(C01Error::SourceBindingMismatch);
    }
    let ghost ps = report.partitions@.map_values(|p: PartitionEntry| p@);
    assert(ps == report@.map.partitions);
    let found = find_first_slot(report.partitions.as_slice(), partition_index);
    let i = match found {
        None => {
            return Err(C01Error::PartitionNotFound);
        },
        Some(i) => i,
    };
    proof {
        let c = choose|k: int| first_slot(ps, partition_index, k);
        lemma_first_slot_unique(ps, partition_index, c, i as int);
    }
    let partition = report.partitions[i].clone();
    assert(partition@ == ps[i as int]);
    if partition.byte_end_exclusive <= partition.byte_start || partition.byte_end_exclusive
        > report.normalized_size {
        return Err(C01Error::PartitionOutOfBounds);
    }
    if any_unspecified_overlap(coverage, partition.byte_start, partition.byte_end_exclusive) {
        return Err(C01Error::UnspecifiedPartitionBytes);
    }
    let bytes = copy_bytes(
        bytes_all,
        partition.byte_start as usize,
        partition.byte_end_exclusive as usize,
    );
    let sha256 = sha256_hex(bytes.as_slice());
    Ok(
        PartitionMaterialization {
            partition,
            source_revision_ref: context.source_revision_ref.duplicate(),
            sha256,
            bytes,
        },
    )
}

/// Structural source-bound disk-image comparison.
#[derive(Debug)]
pub struct DiskImageComparison {
    /// Exact left source revision.
    pub left_source_revision_ref: EntityRef,
    /// Exact right source revision.
    pub right_source_revision_ref: EntityRef,
    /// True only when the structural projection is identical.
    pub identical_layout: bool,
    /// Deterministically ordered structural differences.
    pub differences: Vec<String>,
}

/// Display name of a map family in difference messages.
pub open spec fn table_kind_name(k: PartitionTableKind) -> Seq<char> {
    match k {
        PartitionTableKind::Unrecognized => "None"@,
        PartitionTableKind::Mbr => "Mbr"@,
        PartitionTableKind::Gpt => "Gpt"@,
    }
}

fn table_kind_text(k: PartitionTableKind) -> (s: String)
    ensures
        s@ == table_kind_name(k),
{
    match k {
        PartitionTableKind::Unrecognized => owned("None"),
        PartitionTableKind::Mbr => owned("Mbr"),
        PartitionTableKind::Gpt => owned("Gpt"),
    }
}

/// The last entry of `ps` holding slot `idx`, as a map keyed by slot would keep it.
pub open spec fn last_with_slot(ps: Seq<PartitionEntryView>, idx: u32) -> Option<PartitionEntryView>
    decreases ps.len(),
{
    if ps.len() == 0 {
        None
    } else if ps.last().index == idx {
        Some(ps.last())
    } else {
        last_with_slot(ps.drop_last(), idx)
    }
}

/// The difference message, if any, for table slot `idx`.
pub open spec fn slot_message(
    left: Seq<PartitionEntryView>,
    right: Seq<PartitionEntryView>,
    idx: u32,
) -> Seq<Seq<char>> {
    match (last_with_slot(left, idx), last_with_slot(right, idx)) {
        (Some(a), Some(b)) => if a != b {
            seq!["partition_slot_changed:"@ + decimal(idx as nat)]
        } else {
            Seq::empty()
        },
        (Some(_), None) => seq!["partition_removed:"@ + decimal(idx as nat)],
        (None, Some(_)) => seq!["partition_added:"@ + decimal(idx as nat)],
        (None, None) => Seq::empty(),
    }
}

/// Slot difference messages for every slot number below `n`, in increasing slot order.
pub open spec fn slot_messages_below(
    left: Seq<PartitionEntryView>,
    right: Seq<PartitionEntryView>,
    n: nat,
) -> Seq<Seq<char>>
    decreases n,
{
    if n == 0 {
        Seq::empty()
    } else {
        slot_messages_below(left, right, (n - 1) as nat) + slot_message(left, right, (n - 1) as u32)
    }
}

/// Differences in map family, normalized size and source coverage.
pub open spec fn header_differences(left: DiskImageReportView, right: DiskImageReportView) -> Seq<
    Seq<char>,
> {
    (if left.partition_table != right.partition_table {
        seq!["partition_table:"@ + table_kind_name(left.partition_table) + "->"@ + table_kind_name(right.partition_table)]
    } else {
        Seq::empty()
    }) + (if left.normalized_size != right.normalized_size {
        seq!["normalized_size:"@ + decimal(left.normalized_size as nat) + "->"@ + decimal(right.normalized_size as nat)]
    } else {
        Seq::empty()
    }) + (if left.source_coverage != right.source_coverage {
        seq!["source_coverage_changed"@]
    } else {
        Seq::empty()
    })
}

/// Every structural difference between two reports, in the order they are reported.
pub open spec fn comparison_differences(left: DiskImageReportView, right: DiskImageReportView) -> Seq<
    Seq<char>,
> {
    header_differences(left, right) + slot_messages_below(
        left.map.partitions,
        right.map.partitions,
        0x1_0000_0000,
    )
}

fn coverage_equal(a: &[SourceCoverageRange], b: &[SourceCoverageRange]) -> (r: bool)
    ensures
        r == (a@ == b@),
{
    if a.len() != b.len() {
        return false;
    }
    let mut i: usize = 0;
    while i < a.len()
        invariant
            i <= a.len() == b.len(),
            forall|j: int| 0 <= j < i ==> a@[j] == b@[j],
        decreases a.len() - i,
    {
        if a[i] != b[i] {
            return false;
        }
        i = i + 1;
    }
    assert(a@ =~= b@);
    true
}

fn opt_text_equal(a: &Option<String>, b: &Option<String>) -> (r: bool)
    ensures
        r == (opt_view(*a) == opt_view(*b)),
{
    match (a, b) {
        (Some(x), Some(y)) => *x == *y,
        (None, None) => true,
        _ => false,
    }
}

fn entries_equal(a: &PartitionEntry, b: &PartitionEntry) -> (r: bool)
    ensures
        r == (a@ == b@),
{
    a.index == b.index && opt_text_equal(&a.name, &b.name) && a.type_id == b.type_id && a.first_lba
        == b.first_lba && a.last_lba_inclusive == b.last_lba_inclusive && a.byte_start
        == b.byte_start && a.byte_end_exclusive == b.byte_end_exclusive && a.bootable == b.bootable
        && a.container == b.container
}

fn find_last_slot(partitions: &[PartitionEntry], idx: u32) -> (r: Option<usize>)
    ensures
        r is None ==> last_with_slot(partitions@.map_values(|p: PartitionEntry| p@), idx) is None,
        r matches Some(i) ==> i < partitions@.len() && last_with_slot(
            partitions@.map_values(|p: PartitionEntry| p@),
            idx,
        ) == Some(partitions@[i as int]@),
{
    let ghost all = partitions@.map_values(|p: PartitionEntry| p@);
    let mut n: usize = partitions.len();
    assert(all.take(n as int) =~= all);
    while n > 0
        invariant
            n <= partitions.len(),
            all == partitions@.map_values(|p: PartitionEntry| p@),
            last_with_slot(all, idx) == last_with_slot(all.take(n as int), idx),
        decreases n,
    {
        let ghost pre = all.take(n as int);
        assert(pre.last() == partitions@[n - 1]@);
        if partitions[n - 1].index == idx {
            return Some(n - 1);
        }
        assert(pre.drop_last() =~= all.take(n - 1));
        n = n - 1;
    }
    None
}

/// A slot that no entry holds has no last entry.
proof fn lemma_last_with_slot_absent(ps: Seq<PartitionEntryView>, idx: u32)
    requires
        forall|i: int| 0 <= i < ps.len() ==> #[trigger] ps[i].index != idx,
    ensures
        last_with_slot(ps, idx) is None,
    decreases ps.len(),
{
    if ps.len() > 0 {
        assert(ps.last() == ps[ps.len() - 1]);
        assert forall|i: int| 0 <= i < ps.drop_last().len() implies #[trigger] ps.drop_last()[i].index
            != idx by {
            assert(ps.drop_last()[i] == ps[i]);
        }
        lemma_last_with_slot_absent(ps.drop_last(), idx);
    }
}

/// Slots that no entry on either side holds add no messages.
proof fn lemma_messages_gap(
    left: Seq<PartitionEntryView>,
    right: Seq<PartitionEntryView>,
    lo: nat,
    hi: nat,
)
    requires
        lo <= hi <= 0x1_0000_0000,
        forall|i: int| 0 <= i < left.len() ==> !(lo <= #[trigger] left[i].index < hi),
        forall|i: int| 0 <= i < right.len() ==> !(lo <= #[trigger] right[i].index < hi),
    ensures
        slot_messages_below(left, right, hi) == slot_messages_below(left, right, lo),
    decreases hi - lo,
{
    if hi > lo {
        let k = (hi - 1) as u32;
        assert forall|i: int| 0 <= i < left.len() implies #[trigger] left[i].index != k by {}
        assert forall|i: int| 0 <= i < right.len() implies #[trigger] right[i].index != k by {}
        lemma_last_with_slot_absent(left, k);
        lemma_last_with_slot_absent(right, k);
        assert(slot_message(left, right, k) =~= Seq::<Seq<char>>::empty());
        lemma_messages_gap(left, right, lo, (hi - 1) as nat);
        assert(slot_messages_below(left, right, hi) =~= slot_messages_below(left, right, (hi - 1) as nat));
    }
}

/// `s` is strictly increasing.
pub open spec fn strictly_increasing(s: Seq<u32>) -> bool {
    forall|i: int, j: int| 0 <= i < j < s.len() ==> s[i] < s[j]
}

#[verifier::spinoff_prover]
fn insert_slot(v: &mut Vec<u32>, x: u32)
    requires
        strictly_increasing(old(v)@),
    ensures
        strictly_increasing(final(v)@),
        forall|y: u32| final(v)@.contains(y) <==> (old(v)@.contains(y) || y == x),
{
    let mut i: usize = 0;
    while i < v.len() && v[i] < x
        invariant
            i <= v.len(),
            v@ == old(v)@,
            forall|j: int| 0 <= j < i ==> v@[j] < x,
        decreases v.len() - i,
    {
        i = i + 1;
    }
    if i < v.len() && v[i] == x {
        assert(v@[i as int] == x);
        return;
    }
    let ghost before = v@;
    assert(before == old(v)@);
    v.insert(i, x);
    assert forall|y: u32| v@.contains(y) <==> (before.contains(y) || y == x) by {
        if v@.contains(y) {
            let k = choose|k: int| 0 <= k < v@.len() && v@[k] == y;
            if k < i {
                assert(before[k] == y);
            } else if k > i {
                assert(before[k - 1] == y);
            }
        }
        if before.contains(y) {
            let k = choose|k: int| 0 <= k < before.len() && before[k] == y;
            if k < i {
                assert(v@[k] == y);
            } else {
                assert(v@[k + 1] == y);
            }
        }
        if y == x {
            assert(v@[i as int] == x);
        }
    }
    assert(forall|y: u32| v@.contains(y) <==> (old(v)@.contains(y) || y == x));
}

fn collect_slots(left: &[PartitionEntry], right: &[PartitionEntry]) -> (r: Vec<u32>)
    ensures
        strictly_increasing(r@),
        forall|i: int| 0 <= i < left@.len() ==> r@.contains(#[trigger] left@[i].index),
        forall|i: int| 0 <= i < right@.len() ==> r@.contains(#[trigger] right@[i].index),
{
    let mut slots: Vec<u32> = Vec::new();
    let mut i: usize = 0;
    while i < left.len()
        invariant
            i <= left.len(),
            strictly_increasing(slots@),
            forall|j: int| 0 <= j < i ==> slots@.contains(#[trigger] left@[j].index),
        decreases left.len() - i,
    {
        insert_slot(&mut slots, left[i].index);
        i = i + 1;
    }
    let mut i: usize = 0;
    while i < right.len()
        invariant
            i <= right.len(),
            strictly_increasing(slots@),
            forall|j: int| 0 <= j < left@.len() ==> slots@.contains(#[trigger] left@[j].index),
            forall|j: int| 0 <= j < i ==> slots@.contains(#[trigger] right@[j].index),
        decreases right.len() - i,
    {
        insert_slot(&mut slots, right[i].index);
        i = i + 1;
    }
    slots
}

/// Compare two source-bound partition-map reports structurally.
///
/// Differences are reported for the map family, the normalized size, the source coverage and
/// then, slot by slot in increasing slot order, for changed, removed and added partitions. No
/// filesystem or semantic content claim is made.
pub fn compare_disk_images(left: &DiskImageReport, right: &DiskImageReport) -> (r: DiskImageComparison)
    ensures
        string_views(r.differences@) == comparison_differences(left@, right@),
        r.identical_layout == (comparison_differences(left@, right@).len() == 0),
        r.left_source_revision_ref@ == left.source_revision_ref@,
        r.right_source_revision_ref@ == right.source_revision_ref@,
{
    let mut differences: Vec<String> = Vec::new();
    if left.partition_table != right.partition_table {
        let mut s = owned("partition_table:");
        s.append(table_kind_text(left.partition_table).as_str());
        s.append("->");
        s.append(table_kind_text(right.partition_table).as_str());
        push_string(&mut differences, s);
    }
    if left.normalized_size != right.normalized_size {
        let mut s = numbered_message("normalized_size:", left.normalized_size, "->");
        crate::text::push_decimal(&mut s, right.normalized_size);
        push_string(&mut differences, s);
    }
    if !coverage_equal(left.source_coverage.as_slice(), right.source_coverage.as_slice()) {
        push_string(&mut differences, owned("source_coverage_changed"));
    }
    proof {
        reveal_strlit("partition_table:");
        reveal_strlit("->");
        reveal_strlit("normalized_size:");
        reveal_strlit("source_coverage_changed");
    }
    assert(string_views(differences@) =~= header_differences(left@, right@));
    let ghost lp = left@.map.partitions;
    let ghost rp = right@.map.partitions;
    assert(lp == left.partitions@.map_values(|p: PartitionEntry| p@));
    assert(rp == right.partitions@.map_values(|p: PartitionEntry| p@));
    let slots = collect_slots(left.partitions.as_slice(), right.partitions.as_slice());
    let ghost header = string_views(differences@);
    let mut i: usize = 0;
    while i < slots.len()
        invariant
            i <= slots.len(),
            strictly_increasing(slots@),
            lp == left.partitions@.map_values(|p: PartitionEntry| p@),
            rp == right.partitions@.map_values(|p: PartitionEntry| p@),
            forall|j: int| 0 <= j < lp.len() ==> slots@.contains(#[trigger] lp[j].index),
            forall|j: int| 0 <= j < rp.len() ==> slots@.contains(#[trigger] rp[j].index),
            string_views(differences@) == header + slot_messages_below(
                lp,
                rp,
                if i == 0 { 0nat } else { (slots@[i - 1] + 1) as nat },
            ),
        decreases slots.len() - i,
    {
        let idx = slots[i];
        let ghost lo: nat = if i == 0 { 0nat } else { (slots@[i - 1] + 1) as nat };
        proof {
            assert forall|j: int| 0 <= j < lp.len() implies !(lo <= #[trigger] lp[j].index < idx) by {
                let k = choose|k: int| 0 <= k < slots@.len() && slots@[k] == lp[j].index;
                if k < i {
                    assert(slots@[k] <= slots@[i - 1]);
                } else if k > i {
                    assert(slots@[k] > idx);
                }
            }
            assert forall|j: int| 0 <= j < rp.len() implies !(lo <= #[trigger] rp[j].index < idx) by {
                let k = choose|k: int| 0 <= k < slots@.len() && slots@[k] == rp[j].index;
                if k < i {
                    assert(slots@[k] <= slots@[i - 1]);
                } else if k > i {
                    assert(slots@[k] > idx);
                }
            }
            lemma_messages_gap(lp, rp, lo, idx as nat);
        }
        let a = find_last_slot(left.partitions.as_slice(), idx);
        let b = find_last_slot(right.partitions.as_slice(), idx);
        let ghost before = string_views(differences@);
        match (a, b) {
            (Some(x), Some(y)) => {
                if !entries_equal(&left.partitions[x], &right.partitions[y]) {
                    push_string(&mut differences, numbered_message("partition_slot_changed:", idx as u64, ""));
                }
            },
            (Some(_), None) => {
                push_string(&mut differences, numbered_message("partition_removed:", idx as u64, ""));
            },
            (None, Some(_)) => {
                push_string(&mut differences, numbered_message("partition_added:", idx as u64, ""));
            },
            (None, None) => {},
        }
        proof {
            reveal_strlit("partition_slot_changed:");
            reveal_strlit("partition_removed:");
            reveal_strlit("partition_added:");
            reveal_strlit("");
            assert("partition_slot_changed:"@ + decimal(idx as nat) + ""@ =~= "partition_slot_changed:"@ + decimal(idx as nat));
            assert("partition_removed:"@ + decimal(idx as nat) + ""@ =~= "partition_removed:"@ + decimal(idx as nat));
            assert("partition_added:"@ + decimal(idx as nat) + ""@ =~= "partition_added:"@ + decimal(idx as nat));
            assert(slot_messages_below(lp, rp, (idx + 1) as nat) == slot_messages_below(lp, rp, idx as nat)
                + slot_message(lp, rp, idx));
            assert(string_views(differences@) =~= before + slot_message(lp, rp, idx));
        }
        i = i + 1;
    }
    proof {
        let lo: nat = if slots.len() == 0 { 0nat } else { (slots@[slots.len() - 1] + 1) as nat };
        assert forall|j: int| 0 <= j < lp.len() implies !(lo <= #[trigger] lp[j].index < 0x1_0000_0000) by {
            let k = choose|k: int| 0 <= k < slots@.len() && slots@[k] == lp[j].index;
            assert(slots@[k] <= slots@[slots.len() - 1]);
        }
        assert forall|j: int| 0 <= j < rp.len() implies !(lo <= #[trigger] rp[j].index < 0x1_0000_0000) by {
            let k = choose|k: int| 0 <= k < slots@.len() && slots@[k] == rp[j].index;
            assert(slots@[k] <= slots@[slots.len() - 1]);
        }
        lemma_messages_gap(lp, rp, lo, 0x1_0000_0000);
    }
    let identical_layout = differences.len() == 0;
    DiskImageComparison {
        left_source_revision_ref: left.source_revision_ref.duplicate(),
        right_source_revision_ref: right.source_revision_ref.duplicate(),
        identical_layout,
        differences,
    }
}

} // verus!
