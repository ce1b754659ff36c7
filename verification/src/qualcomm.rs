//! Static Qualcomm bundle inspection: exact sibling components, Firehose rawprogram and patch
//! plans resolved against them, and programmer evidence, without device interaction.
use vstd::prelude::*;
use crate::digest::{sha256_hex, sha256_hex_of};
use crate::identity::EntityRef;
use crate::mediatek::opt_view;
use crate::mediatek_bundle::{digest_text_ok, digest_text_valid, text_less, text_lt};
use crate::partition_map::{copy_strings, push_string, string_views};
use crate::text::{decimal, numbered_message, owned};
use crate::vendor_pkg::{
    C06Assessment, C06ByteRange, C06ComparisonLevel, C06Context, C06Error, C06Limits, C06StaticProofLevel,
    C06TrustAssessment, c06_context_fault, source_bound, c06_limits_valid, check_limitations06, check_optional06, check_path06,
    check_text06, limitations_text_ok, optional_text_ok, path_fault, text_ok, validate_c06_context,
    validate_c06_limits,
};

verus! {

/// Static Qualcomm package component family.
#[derive(Debug, Clone, Copy, PartialEq, Eq, PartialOrd, Ord, Structural)]
pub enum QualcommComponentKind {
    /// Qualcomm MBN image or container.
    Mbn,
    /// ELF image or container.
    Elf,
    /// Device-side Firehose programmer executable.
    FirehoseProgrammer,
    /// Rawprogram XML plan.
    RawprogramXml,
    /// Patch XML plan.
    PatchXml,
    /// Other bounded component.
    Other,
}

/// One exact recovered Qualcomm bundle component from an untrusted provider.
#[derive(Debug, Clone)]
pub struct QualcommBundleEntryObservation {
    /// Canonical relative path candidate.
    pub path: String,
    /// Exact recovered bytes.
    pub recovered_bytes: Vec<u8>,
    /// Provider-declared lowercase SHA-256.
    pub expected_sha256: String,
    /// Mechanical static component kind.
    pub kind: QualcommComponentKind,
}

/// One normalized rawprogram operation.
#[derive(Debug, Clone)]
pub struct QualcommProgramOperationObservation {
    /// Exact rawprogram XML component path.
    pub xml_path: String,
    /// Referenced image path, if any.
    pub filename: Option<String>,
    /// Partition label, if any.
    pub label: Option<String>,
    /// Start sector.
    pub start_sector: u64,
    /// Sector count.
    pub num_partition_sectors: u64,
    /// Sector size in bytes.
    pub sector_size: u64,
    /// Physical partition number.
    pub physical_partition: u32,
}

/// One normalized patch operation.
#[derive(Debug, Clone)]
pub struct QualcommPatchOperationObservation {
    /// Exact patch XML component path.
    pub xml_path: String,
    /// Start sector.
    pub start_sector: u64,
    /// Byte offset inside the start sector.
    pub byte_offset: u64,
    /// Patched byte count.
    pub size_bytes: u64,
    /// Sector size in bytes.
    pub sector_size: u64,
    /// Physical partition number.
    pub physical_partition: u32,
}

/// Static programmer evidence from a provider.
#[derive(Debug, Clone)]
pub struct QualcommProgrammerObservation {
    /// Exact programmer component path.
    pub component_path: String,
    /// Optional target claim.
    pub target_claim: Option<String>,
    /// Optional hardware identifier claim.
    pub hwid_claim: Option<String>,
    /// Optional public-key hash claim.
    pub pkhash_claim: Option<String>,
    /// A signature structure was observed.
    pub signature_observed: bool,
}

/// Bounded Qualcomm bundle observation returned by a replaceable provider.
#[derive(Debug, Clone)]
pub struct QualcommBundleObservation {
    /// Exact recovered components.
    pub entries: Vec<QualcommBundleEntryObservation>,
    /// Rawprogram operations.
    pub program_operations: Vec<QualcommProgramOperationObservation>,
    /// Patch operations.
    pub patch_operations: Vec<QualcommPatchOperationObservation>,
    /// Optional programmer evidence.
    pub programmer: Option<QualcommProgrammerObservation>,
    /// Provider claim that all supported semantics were enumerated.
    pub complete_claim: bool,
    /// Explicit unsupported or partial semantics.
    pub limitations: Vec<String>,
}

/// Replaceable mechanical Qualcomm bundle boundary.
pub trait QualcommBundleProvider {
    /// Whether `id` is an alias this provider may report; any, unless the implementation says
    /// otherwise.
    open spec fn id_post(&self, id: Seq<char>) -> bool {
        true
    }

    /// Whether `r` is a result this provider may give for `source` under `limits`; any, unless
    /// the implementation says otherwise.
    open spec fn inspect_post(&self, source: Seq<u8>, limits: C06Limits, r: Result<QualcommBundleObservation, String>) -> bool {
        true
    }

    /// Stable backend-local provider alias.
    fn provider_id(&self) -> (r: &str)
        ensures
            self.id_post(r@),
    ;

    /// Recover the bundle associated with one immutable primary source.
    fn inspect_bundle(&self, primary_source: &[u8], limits: C06Limits) -> (r: Result<QualcommBundleObservation, String>)
        ensures
            self.inspect_post(primary_source@, limits, r),
    ;
}

/// Validated exact Qualcomm bundle component.
#[derive(Debug, Clone)]
pub struct QualcommBundleEntry {
    /// Canonical relative path.
    pub path: String,
    /// Exact byte size.
    pub byte_size: u64,
    /// Exact lowercase SHA-256.
    pub sha256: String,
    /// Static component kind.
    pub kind: QualcommComponentKind,
    recovered_bytes: Vec<u8>,
}

/// Abstract value of a Qualcomm component: path, size, digest, kind and bytes.
pub type QEntryView = (Seq<char>, u64, Seq<char>, QualcommComponentKind, Seq<u8>);

impl QualcommBundleEntry {
    /// The abstract value of this component.
    pub closed spec fn entry_view(&self) -> QEntryView {
        (self.path@, self.byte_size, self.sha256@, self.kind, self.recovered_bytes@)
    }

    fn from_parts(path: String, byte_size: u64, sha256: String, kind: QualcommComponentKind, bytes: Vec<u8>) -> (r: Self)
        ensures
            r.entry_view() == (path@, byte_size, sha256@, kind, bytes@),
    {
        QualcommBundleEntry { path, byte_size, sha256, kind, recovered_bytes: bytes }
    }

    /// Read-only exact recovered bytes.
    pub fn bytes(&self) -> (r: &[u8])
        ensures
            r@ == self.entry_view().4,
    {
        self.recovered_bytes.as_slice()
    }

    /// The canonical path.
    pub fn path_text(&self) -> (r: &String)
        ensures
            r@ == self.entry_view().0,
    {
        &self.path
    }

    /// The byte size.
    pub fn size(&self) -> (r: u64)
        ensures
            r == self.entry_view().1,
    {
        self.byte_size
    }

    /// The recorded digest.
    pub fn digest_text(&self) -> (r: &String)
        ensures
            r@ == self.entry_view().2,
    {
        &self.sha256
    }

    /// The component kind.
    pub fn component_kind(&self) -> (r: QualcommComponentKind)
        ensures
            r == self.entry_view().3,
    {
        self.kind
    }

    fn duplicate(&self) -> (r: Self)
        ensures
            r.entry_view() == self.entry_view(),
    {
        QualcommBundleEntry {
            path: self.path.clone(),
            byte_size: self.byte_size,
            sha256: self.sha256.clone(),
            kind: self.kind,
            recovered_bytes: self.recovered_bytes.clone(),
        }
    }
}

/// Views of components.
pub open spec fn qentry_views(s: Seq<QualcommBundleEntry>) -> Seq<QEntryView> {
    s.map_values(|e: QualcommBundleEntry| e.entry_view())
}

/// One resolved rawprogram operation.
#[derive(Debug, Clone)]
pub struct QualcommProgramOperation {
    /// Exact rawprogram XML component path.
    pub xml_path: String,
    /// Referenced image path, if any.
    pub filename: Option<String>,
    /// Partition label, if any.
    pub label: Option<String>,
    /// Physical partition number.
    pub physical_partition: u32,
    /// Sector size in bytes.
    pub sector_size: u64,
    /// Exact device byte range.
    pub byte_range: C06ByteRange,
    /// The referenced image resolves to an exact component.
    pub component_resolved: bool,
}

/// Abstract value of a rawprogram operation.
pub ghost struct ProgramOpView {
    /// XML path.
    pub xml_path: Seq<char>,
    /// Referenced image path.
    pub filename: Option<Seq<char>>,
    /// Label.
    pub label: Option<Seq<char>>,
    /// Physical partition.
    pub physical_partition: u32,
    /// Sector size.
    pub sector_size: u64,
    /// Byte range.
    pub range: C06ByteRange,
    /// Resolved flag.
    pub resolved: bool,
}

impl View for QualcommProgramOperation {
    type V = ProgramOpView;

    open spec fn view(&self) -> ProgramOpView {
        ProgramOpView {
            xml_path: self.xml_path@,
            filename: opt_view(self.filename),
            label: opt_view(self.label),
            physical_partition: self.physical_partition,
            sector_size: self.sector_size,
            range: self.byte_range,
            resolved: self.component_resolved,
        }
    }
}

/// One resolved patch operation.
#[derive(Debug, Clone)]
pub struct QualcommPatchOperation {
    /// Exact patch XML component path.
    pub xml_path: String,
    /// Physical partition number.
    pub physical_partition: u32,
    /// Sector size in bytes.
    pub sector_size: u64,
    /// Exact device byte range.
    pub byte_range: C06ByteRange,
}

/// Abstract value of a patch operation: XML path, partition, sector size and range.
pub type PatchOpView = (Seq<char>, u32, u64, C06ByteRange);

impl View for QualcommPatchOperation {
    type V = PatchOpView;

    open spec fn view(&self) -> PatchOpView {
        (self.xml_path@, self.physical_partition, self.sector_size, self.byte_range)
    }
}

/// Static programmer evidence bound to an exact component.
#[derive(Debug, Clone)]
pub struct QualcommProgrammerEvidence {
    /// Exact component path.
    pub component_path: String,
    /// Exact component digest.
    pub sha256: String,
    /// Component kind.
    pub kind: QualcommComponentKind,
    /// Optional target claim.
    pub target_claim: Option<String>,
    /// Optional hardware identifier claim.
    pub hwid_claim: Option<String>,
    /// Optional public-key hash claim.
    pub pkhash_claim: Option<String>,
    /// A signature structure was observed.
    pub signature_observed: bool,
    /// Device compatibility remains unestablished.
    pub compatibility: C06TrustAssessment,
}

/// Abstract value of programmer evidence.
pub ghost struct ProgrammerView {
    /// Component path.
    pub path: Seq<char>,
    /// Component digest.
    pub sha256: Seq<char>,
    /// Component kind.
    pub kind: QualcommComponentKind,
    /// Target claim.
    pub target: Option<Seq<char>>,
    /// Hardware identifier claim.
    pub hwid: Option<Seq<char>>,
    /// Public-key hash claim.
    pub pkhash: Option<Seq<char>>,
    /// Signature flag.
    pub signature: bool,
    /// Device compatibility assessment.
    pub compatibility: C06TrustAssessment,
}

impl View for QualcommProgrammerEvidence {
    type V = ProgrammerView;

    open spec fn view(&self) -> ProgrammerView {
        ProgrammerView {
            path: self.component_path@,
            sha256: self.sha256@,
            kind: self.kind,
            target: opt_view(self.target_claim),
            hwid: opt_view(self.hwid_claim),
            pkhash: opt_view(self.pkhash_claim),
            signature: self.signature_observed,
            compatibility: self.compatibility,
        }
    }
}

/// The byte range of `count` sectors of `size` bytes from sector `start`.
pub open spec fn sector_range_spec(start: u64, count: u64, size: u64) -> Result<C06ByteRange, C06Error> {
    if size == 0 {
        Err(C06Error::InvalidSectorSize)
    } else if start * size > u64::MAX || count * size > u64::MAX || start * size + count * size > u64::MAX {
        Err(C06Error::RangeOverflow)
    } else {
        Ok(C06ByteRange { start: (start * size) as u64, end_exclusive: (start * size + count * size) as u64 })
    }
}

/// Byte range of `sector_count` sectors of `sector_size` bytes from `start_sector`.
pub fn sector_range(start_sector: u64, sector_count: u64, sector_size: u64) -> (r: Result<C06ByteRange, C06Error>)
    ensures
        r == sector_range_spec(start_sector, sector_count, sector_size),
{
    if sector_size == 0 {
        return Err(C06Error::InvalidSectorSize);
    }
    let start = match start_sector.checked_mul(sector_size) {
        Some(v) => v,
        None => {
            return Err(C06Error::RangeOverflow);
        },
    };
    let length = match sector_count.checked_mul(sector_size) {
        Some(v) => v,
        None => {
            return Err(C06Error::RangeOverflow);
        },
    };
    match start.checked_add(length) {
        Some(end) => Ok(C06ByteRange { start, end_exclusive: end }),
        None => Err(C06Error::RangeOverflow),
    }
}


/// Abstract value of a component observation: path, bytes, declared digest and kind.
pub type QObsView = (Seq<char>, Seq<u8>, Seq<char>, QualcommComponentKind);

/// Views of component observations.
pub open spec fn qobs_views(es: Seq<QualcommBundleEntryObservation>) -> Seq<QObsView> {
    es.map_values(|e: QualcommBundleEntryObservation| (e.path@, e.recovered_bytes@, e.expected_sha256@, e.kind))
}

/// Total recovered bytes of the first `k` observations.
pub open spec fn qbytes_total(es: Seq<QObsView>, k: int) -> int
    decreases k,
{
    if k <= 0 {
        0
    } else {
        qbytes_total(es, k - 1) + es[k - 1].1.len()
    }
}

/// The failure raised by observation `i`, given that none before it failed.
pub open spec fn qentry_fault(es: Seq<QObsView>, i: int, limits: C06Limits) -> Option<C06Error> {
    let e = es[i];
    match path_fault(e.0, limits) {
        Some(f) => Some(f),
        None => if exists|j: int| 0 <= j < i && (#[trigger] es[j]).0 == e.0 {
            Some(C06Error::DuplicateEntry)
        } else if !digest_text_ok(e.2) || sha256_hex_of(e.1) != e.2 {
            Some(C06Error::DigestMismatch)
        } else if qbytes_total(es, i + 1) > u64::MAX {
            Some(C06Error::AccountingOverflow)
        } else if qbytes_total(es, i + 1) > limits.max_recovered_bytes {
            Some(C06Error::TooManyRecoveredBytes)
        } else {
            None
        },
    }
}

/// The first failure among the first `k` observations.
pub open spec fn qentries_fault(es: Seq<QObsView>, k: int, limits: C06Limits) -> Option<C06Error>
    decreases k,
{
    if k <= 0 {
        None
    } else {
        match qentries_fault(es, k - 1, limits) {
            Some(e) => Some(e),
            None => qentry_fault(es, k - 1, limits),
        }
    }
}

/// The retained value of a validated observation.
pub open spec fn qretained(e: QObsView) -> QEntryView {
    (e.0, e.1.len() as u64, sha256_hex_of(e.1), e.3, e.1)
}

/// Insert `x` before the first component whose path it sorts before.
pub open spec fn insert_qentry(s: Seq<QEntryView>, x: QEntryView) -> Seq<QEntryView>
    decreases s.len(),
{
    if s.len() == 0 {
        seq![x]
    } else if text_lt(x.0, s[0].0) {
        seq![x] + s
    } else {
        seq![s[0]] + insert_qentry(s.drop_first(), x)
    }
}

/// Components in ascending path order (stable).
pub open spec fn sort_qentries(s: Seq<QEntryView>) -> Seq<QEntryView>
    decreases s.len(),
{
    if s.len() == 0 {
        Seq::empty()
    } else {
        insert_qentry(sort_qentries(s.drop_last()), s.last())
    }
}

/// Validated components: bounded count; each with a canonical unique path, a well-formed
/// declared digest equal to the digest of its bytes and a bounded running total; in path order.
pub open spec fn qentries_spec(es: Seq<QObsView>, limits: C06Limits) -> Result<Seq<QEntryView>, C06Error> {
    if es.len() > limits.max_entries {
        Err(C06Error::TooManyEntries)
    } else {
        match qentries_fault(es, es.len() as int, limits) {
            Some(e) => Err(e),
            None => Ok(sort_qentries(es.map_values(|e: QObsView| qretained(e)))),
        }
    }
}

/// A component whose recorded size and digest are those of its bytes.
pub open spec fn qentry_sound(e: QEntryView) -> bool {
    e.1 == e.4.len() as u64 && e.2 == sha256_hex_of(e.4)
}

/// A component recovered from observations `es`: some observation has its path and exactly its
/// bytes.
pub open spec fn qentry_from(es: Seq<QObsView>, e: QEntryView) -> bool {
    exists|j: int| 0 <= j < es.len() && (#[trigger] es[j]).0 == e.0 && es[j].1 == e.4
}

proof fn lemma_insert_qentry_all(s: Seq<QEntryView>, x: QEntryView, pred: spec_fn(QEntryView) -> bool)
    requires
        forall|k: int| 0 <= k < s.len() ==> pred(#[trigger] s[k]),
        pred(x),
    ensures
        forall|k: int| 0 <= k < insert_qentry(s, x).len() ==> pred(#[trigger] insert_qentry(s, x)[k]),
    decreases s.len(),
{
    if s.len() == 0 {
        assert(insert_qentry(s, x) =~= seq![x]);
    } else if text_lt(x.0, s[0].0) {
        let t = seq![x] + s;
        assert forall|k: int| 0 <= k < t.len() implies pred(#[trigger] t[k]) by {
            if k > 0 {
                assert(t[k] == s[k - 1]);
            }
        }
    } else {
        lemma_insert_qentry_all(s.drop_first(), x, pred);
        let u = insert_qentry(s.drop_first(), x);
        let t = seq![s[0]] + u;
        assert forall|k: int| 0 <= k < t.len() implies pred(#[trigger] t[k]) by {
            if k > 0 {
                assert(t[k] == u[k - 1]);
            }
        }
    }
}

proof fn lemma_sort_qentries_all(s: Seq<QEntryView>, pred: spec_fn(QEntryView) -> bool)
    requires
        forall|k: int| 0 <= k < s.len() ==> pred(#[trigger] s[k]),
    ensures
        forall|k: int| 0 <= k < sort_qentries(s).len() ==> pred(#[trigger] sort_qentries(s)[k]),
    decreases s.len(),
{
    if s.len() > 0 {
        lemma_sort_qentries_all(s.drop_last(), pred);
        lemma_insert_qentry_all(sort_qentries(s.drop_last()), s.last(), pred);
    }
}

/// Every validated component records the size and the SHA-256 digest of exactly its bytes, and
/// is, path and bytes, one the observations recovered.
pub proof fn lemma_qentries_sound(es: Seq<QObsView>, limits: C06Limits)
    ensures
        qentries_spec(es, limits) matches Ok(v) ==> forall|k: int|
            0 <= k < v.len() ==> qentry_sound(#[trigger] v[k]) && qentry_from(es, v[k]),
{
    let m = es.map_values(|e: QObsView| qretained(e));
    let pred = |e: QEntryView| qentry_sound(e) && qentry_from(es, e);
    assert forall|k: int| 0 <= k < m.len() implies pred(#[trigger] m[k]) by {
        assert(m[k] == qretained(es[k]));
        assert(es[k].0 == m[k].0 && es[k].1 == m[k].4);
    }
    lemma_sort_qentries_all(m, pred);
}

proof fn lemma_insert_qentry_at(s: Seq<QEntryView>, x: QEntryView, p: int)
    requires
        0 <= p <= s.len(),
        forall|k: int| 0 <= k < p ==> !text_lt(x.0, (#[trigger] s[k]).0),
        p < s.len() ==> text_lt(x.0, s[p].0),
    ensures
        insert_qentry(s, x) == s.insert(p, x),
    decreases s.len(),
{
    if s.len() == 0 {
        assert(s.insert(p, x) =~= seq![x]);
    } else if p == 0 {
        assert(s.insert(0, x) =~= seq![x] + s);
    } else {
        assert forall|k: int| 0 <= k < p - 1 implies !text_lt(x.0, (#[trigger] s.drop_first()[k]).0) by {
            assert(s.drop_first()[k] == s[k + 1]);
        }
        lemma_insert_qentry_at(s.drop_first(), x, p - 1);
        assert(s.insert(p, x) =~= seq![s[0]] + s.drop_first().insert(p - 1, x));
    }
}

fn sort_qentries_exec(v: Vec<QualcommBundleEntry>) -> (r: Vec<QualcommBundleEntry>)
    ensures
        qentry_views(r@) == sort_qentries(qentry_views(v@)),
{
    let ghost vv = qentry_views(v@);
    let mut r: Vec<QualcommBundleEntry> = Vec::new();
    let n = v.len();
    let mut i: usize = 0;
    assert(vv.take(0) =~= Seq::<QEntryView>::empty());
    assert(qentry_views(r@) =~= Seq::<QEntryView>::empty());
    while i < n
        invariant
            n == v@.len(),
            vv == qentry_views(v@),
            i <= n,
            qentry_views(r@) == sort_qentries(vv.take(i as int)),
        decreases n - i,
    {
        let x = v[i].duplicate();
        let ghost sv = qentry_views(r@);
        let ghost xv = x.entry_view();
        assert(xv == vv[i as int]);
        let mut p: usize = 0;
        let mut found = false;
        while p < r.len() && !found
            invariant
                p <= r@.len(),
                sv == qentry_views(r@),
                xv == x.entry_view(),
                forall|k: int| 0 <= k < p ==> !text_lt(xv.0, (#[trigger] sv[k]).0),
                found ==> p < r@.len() && text_lt(xv.0, sv[p as int].0),
            decreases r@.len() - p + (if found { 0int } else { 1int }),
        {
            assert(sv[p as int] == r@[p as int].entry_view());
            if text_less(x.path_text(), r[p].path_text()) {
                found = true;
            } else {
                p = p + 1;
            }
        }
        proof {
            lemma_insert_qentry_at(sv, xv, p as int);
        }
        r.insert(p, x);
        assert(qentry_views(r@) =~= sv.insert(p as int, xv));
        assert(vv.take(i as int + 1).drop_last() =~= vv.take(i as int));
        i = i + 1;
    }
    assert(vv.take(n as int) =~= vv);
    r
}

proof fn lemma_qfault_persists(es: Seq<QObsView>, i: int, k: int, limits: C06Limits)
    requires
        0 <= i < k,
        qentries_fault(es, i, limits) is None,
        qentry_fault(es, i, limits) is Some,
    ensures
        qentries_fault(es, k, limits) == qentry_fault(es, i, limits),
    decreases k,
{
    if k > i + 1 {
        lemma_qfault_persists(es, i, k - 1, limits);
    }
}

/// Validate untrusted components and retain them in path order.
pub fn validate_qualcomm_entries(observations: &Vec<QualcommBundleEntryObservation>, limits: C06Limits) -> (r: Result<
    Vec<QualcommBundleEntry>,
    C06Error,
>)
    ensures
        match qentries_spec(qobs_views(observations@), limits) {
            Ok(v) => r matches Ok(x) && qentry_views(x@) == v,
            Err(e) => r == Err::<Vec<QualcommBundleEntry>, C06Error>(e),
        },
{
    let ghost es = qobs_views(observations@);
    let n = observations.len();
    if n > limits.max_entries {
        return Err(C06Error::TooManyEntries);
    }
    let mut retained: Vec<QualcommBundleEntry> = Vec::new();
    let mut total: u64 = 0;
    let mut i: usize = 0;
    assert(qentry_views(retained@) =~= es.take(0).map_values(|e: QObsView| qretained(e)));
    while i < n
        invariant
            i <= n == observations@.len(),
            n <= limits.max_entries,
            es == qobs_views(observations@),
            qentries_fault(es, i as int, limits) is None,
            total == qbytes_total(es, i as int),
            qentry_views(retained@) == es.take(i as int).map_values(|e: QObsView| qretained(e)),
        decreases n - i,
    {
        let e = &observations[i];
        assert(es[i as int] == (e.path@, e.recovered_bytes@, e.expected_sha256@, e.kind));
        match check_path06(e.path.as_str(), limits) {
            Ok(()) => {},
            Err(f) => {
                proof {
                    lemma_qfault_persists(es, i as int, n as int, limits);
                }
                return Err(f);
            },
        }
        let mut j: usize = 0;
        while j < i
            invariant
                j <= i < n == observations@.len(),
                es == qobs_views(observations@),
                n <= limits.max_entries,
                qentries_fault(es, i as int, limits) is None,
                path_fault(es[i as int].0, limits) is None,
                forall|q: int| 0 <= q < j ==> (#[trigger] es[q]).0 != es[i as int].0,
            decreases i - j,
        {
            assert(es[j as int].0 == observations@[j as int].path@);
            if observations[j].path == observations[i].path {
                assert(es[j as int].0 == es[i as int].0);
                proof {
                    lemma_qfault_persists(es, i as int, n as int, limits);
                }
                return Err(C06Error::DuplicateEntry);
            }
            j = j + 1;
        }
        if !digest_text_valid(&e.expected_sha256) {
            proof {
                lemma_qfault_persists(es, i as int, n as int, limits);
            }
            return Err(C06Error::DigestMismatch);
        }
        let actual = sha256_hex(e.recovered_bytes.as_slice());
        if actual != e.expected_sha256 {
            proof {
                lemma_qfault_persists(es, i as int, n as int, limits);
            }
            return Err(C06Error::DigestMismatch);
        }
        let size = e.recovered_bytes.len() as u64;
        let t = total.checked_add(size);
        if t.is_none() {
            proof {
                lemma_qfault_persists(es, i as int, n as int, limits);
            }
            return Err(C06Error::AccountingOverflow);
        }
        let t = t.unwrap();
        if t > limits.max_recovered_bytes {
            proof {
                lemma_qfault_persists(es, i as int, n as int, limits);
            }
            return Err(C06Error::TooManyRecoveredBytes);
        }
        total = t;
        let entry = QualcommBundleEntry::from_parts(e.path.clone(), size, actual, e.kind, e.recovered_bytes.clone());
        let ghost before = qentry_views(retained@);
        retained.push(entry);
        assert(qentry_views(retained@) =~= before.push(entry.entry_view()));
        assert(es.take(i as int + 1).map_values(|e: QObsView| qretained(e)) =~= es.take(i as int).map_values(
            |e: QObsView| qretained(e),
        ).push(qretained(es[i as int])));
        i = i + 1;
    }
    assert(es.take(n as int) =~= es);
    Ok(sort_qentries_exec(retained))
}

/// Index of the first component whose path is `f`, if any.
pub open spec fn qentry_index(es: Seq<QEntryView>, f: Seq<char>) -> Option<int> {
    if exists|i: int| 0 <= i < es.len() && (#[trigger] es[i]).0 == f {
        Some(choose|i: int| 0 <= i < es.len() && es[i].0 == f && forall|j: int| 0 <= j < i ==> (#[trigger] es[j]).0 != f)
    } else {
        None
    }
}

/// Index of the first component whose path is `f`.
pub fn find_qentry(entries: &Vec<QualcommBundleEntry>, f: &String) -> (r: Option<usize>)
    ensures
        match r {
            Some(k) => qentry_index(qentry_views(entries@), f@) == Some(k as int),
            None => qentry_index(qentry_views(entries@), f@) is None,
        },
        r matches Some(k) ==> k < entries@.len(),
{
    let ghost es = qentry_views(entries@);
    let mut k: usize = 0;
    while k < entries.len()
        invariant
            k <= entries@.len(),
            es == qentry_views(entries@),
            forall|j: int| 0 <= j < k ==> (#[trigger] es[j]).0 != f@,
        decreases entries.len() - k,
    {
        assert(es[k as int] == entries@[k as int].entry_view());
        let pk: &String = entries[k].path_text();
        if *pk == *f {
            let ghost c = choose|i: int|
                0 <= i < es.len() && es[i].0 == f@ && forall|j: int| 0 <= j < i ==> (#[trigger] es[j]).0 != f@;
            assert(0 <= k < es.len() && es[k as int].0 == f@);
            assert(c == k) by {
                if c < k {
                    assert(es[c].0 != f@);
                } else if c > k {
                    assert(es[k as int].0 != f@);
                }
            }
            return Some(k);
        }
        k = k + 1;
    }
    None
}


/// Copy of optional text.
fn copy_opt(o: &Option<String>) -> (r: Option<String>)
    ensures
        opt_view(r) == opt_view(*o),
{
    match o {
        Some(x) => Some(x.clone()),
        None => None,
    }
}

/// One rawprogram operation resolved against the components.
#[verifier::opaque]
pub open spec fn program_step(es: Seq<QEntryView>, o: QualcommProgramOperationObservation, limits: C06Limits) -> Result<
    ProgramOpView,
    C06Error,
> {
    match path_fault(o.xml_path@, limits) {
        Some(e) => Err(e),
        None => if !optional_text_ok(opt_view(o.label), limits) {
            Err(C06Error::InvalidString)
        } else {
            match qentry_index(es, o.xml_path@) {
                None => Err(C06Error::PlanSourceNotFound),
                Some(i) => if es[i].3 != QualcommComponentKind::RawprogramXml {
                    Err(C06Error::InvalidPlanSourceKind)
                } else {
                    match sector_range_spec(o.start_sector, o.num_partition_sectors, o.sector_size) {
                        Err(e) => Err(e),
                        Ok(range) => {
                            let base = ProgramOpView {
                                xml_path: o.xml_path@,
                                filename: opt_view(o.filename),
                                label: opt_view(o.label),
                                physical_partition: o.physical_partition,
                                sector_size: o.sector_size,
                                range,
                                resolved: false,
                            };
                            match o.filename {
                                Some(f) => match path_fault(f@, limits) {
                                    Some(e) => Err(e),
                                    None => Ok(ProgramOpView { resolved: qentry_index(es, f@) is Some, ..base }),
                                },
                                None => Ok(base),
                            }
                        },
                    }
                },
            }
        },
    }
}

/// The first `k` rawprogram operations resolved, with the count of unresolved image references.
pub open spec fn program_fold(
    es: Seq<QEntryView>,
    ops: Seq<QualcommProgramOperationObservation>,
    k: int,
    limits: C06Limits,
) -> Result<(Seq<ProgramOpView>, nat), C06Error>
    decreases k,
{
    if k <= 0 {
        Ok((Seq::empty(), 0))
    } else {
        match program_fold(es, ops, k - 1, limits) {
            Err(e) => Err(e),
            Ok(acc) => match program_step(es, ops[k - 1], limits) {
                Err(e) => Err(e),
                Ok(v) => Ok(
                    (acc.0.push(v), acc.1 + if v.filename is Some && !v.resolved {
                        1nat
                    } else {
                        0nat
                    }),
                ),
            },
        }
    }
}

/// Views of rawprogram operations.
pub open spec fn program_views(s: Seq<QualcommProgramOperation>) -> Seq<ProgramOpView> {
    s.map_values(|o: QualcommProgramOperation| o@)
}

fn program_one(o: &QualcommProgramOperationObservation, entries: &Vec<QualcommBundleEntry>, limits: C06Limits) -> (r: Result<
    QualcommProgramOperation,
    C06Error,
>)
    ensures
        match program_step(qentry_views(entries@), *o, limits) {
            Ok(v) => r matches Ok(x) && x@ == v,
            Err(e) => r == Err::<QualcommProgramOperation, C06Error>(e),
        },
{
    reveal(program_step);
    let ghost es = qentry_views(entries@);
    if let Err(e) = check_path06(o.xml_path.as_str(), limits) {
        return Err(e);
    }
    if check_optional06(&o.label, limits).is_err() {
        return Err(C06Error::InvalidString);
    }
    let i = match find_qentry(entries, &o.xml_path) {
        Some(i) => i,
        None => {
            return Err(C06Error::PlanSourceNotFound);
        },
    };
    assert(es[i as int] == entries@[i as int].entry_view());
    match entries[i].component_kind() {
        QualcommComponentKind::RawprogramXml => {},
        _ => {
            return Err(C06Error::InvalidPlanSourceKind);
        },
    }
    let byte_range = match sector_range(o.start_sector, o.num_partition_sectors, o.sector_size) {
        Ok(r) => r,
        Err(e) => {
            return Err(e);
        },
    };
    let component_resolved = match &o.filename {
        Some(f) => {
            if let Err(e) = check_path06(f.as_str(), limits) {
                return Err(e);
            }
            find_qentry(entries, f).is_some()
        },
        None => false,
    };
    Ok(
        QualcommProgramOperation {
            xml_path: o.xml_path.clone(),
            filename: copy_opt(&o.filename),
            label: copy_opt(&o.label),
            physical_partition: o.physical_partition,
            sector_size: o.sector_size,
            byte_range,
            component_resolved,
        },
    )
}

proof fn lemma_program_fold_err(
    es: Seq<QEntryView>,
    ops: Seq<QualcommProgramOperationObservation>,
    i: int,
    k: int,
    limits: C06Limits,
    e: C06Error,
)
    requires
        0 <= i < k,
        program_fold(es, ops, i, limits) is Ok,
        program_step(es, ops[i], limits) == Err::<ProgramOpView, C06Error>(e),
    ensures
        program_fold(es, ops, k, limits) == Err::<(Seq<ProgramOpView>, nat), C06Error>(e),
    decreases k,
{
    if k > i + 1 {
        lemma_program_fold_err(es, ops, i, k - 1, limits, e);
    }
}

/// Resolve rawprogram operations against the components; the count of image references that
/// resolve to no component comes with them.
pub fn resolve_program_operations(
    ops: &Vec<QualcommProgramOperationObservation>,
    entries: &Vec<QualcommBundleEntry>,
    limits: C06Limits,
) -> (r: Result<(Vec<QualcommProgramOperation>, usize), C06Error>)
    ensures
        match program_fold(qentry_views(entries@), ops@, ops@.len() as int, limits) {
            Ok(v) => r matches Ok(x) && program_views(x.0@) == v.0 && x.1 == v.1,
            Err(e) => r == Err::<(Vec<QualcommProgramOperation>, usize), C06Error>(e),
        },
{
    let ghost es = qentry_views(entries@);
    let n = ops.len();
    let mut out: Vec<QualcommProgramOperation> = Vec::new();
    let mut unresolved: usize = 0;
    let mut i: usize = 0;
    assert(program_views(out@) =~= Seq::<ProgramOpView>::empty());
    while i < n
        invariant
            i <= n == ops@.len(),
            es == qentry_views(entries@),
            unresolved <= i,
            program_fold(es, ops@, i as int, limits) == Ok::<(Seq<ProgramOpView>, nat), C06Error>(
                (program_views(out@), unresolved as nat),
            ),
        decreases n - i,
    {
        let op = match program_one(&ops[i], entries, limits) {
            Ok(x) => x,
            Err(e) => {
                proof {
                    lemma_program_fold_err(es, ops@, i as int, n as int, limits, e);
                }
                return Err(e);
            },
        };
        if op.filename.is_some() && !op.component_resolved {
            unresolved = unresolved + 1;
        }
        let ghost before = program_views(out@);
        out.push(op);
        assert(program_views(out@) =~= before.push(op@));
        i = i + 1;
    }
    Ok((out, unresolved))
}

/// One patch operation resolved against the components.
pub open spec fn patch_step(es: Seq<QEntryView>, o: QualcommPatchOperationObservation, limits: C06Limits) -> Result<
    PatchOpView,
    C06Error,
> {
    match path_fault(o.xml_path@, limits) {
        Some(e) => Err(e),
        None => match qentry_index(es, o.xml_path@) {
            None => Err(C06Error::PlanSourceNotFound),
            Some(i) => if es[i].3 != QualcommComponentKind::PatchXml {
                Err(C06Error::InvalidPlanSourceKind)
            } else if o.sector_size == 0 {
                Err(C06Error::InvalidSectorSize)
            } else if o.byte_offset >= o.sector_size {
                Err(C06Error::InvalidPatchRange)
            } else if o.start_sector * o.sector_size > u64::MAX || o.start_sector * o.sector_size + o.byte_offset
                > u64::MAX || o.start_sector * o.sector_size + o.byte_offset + o.size_bytes > u64::MAX {
                Err(C06Error::RangeOverflow)
            } else {
                Ok(
                    (
                        o.xml_path@,
                        o.physical_partition,
                        o.sector_size,
                        C06ByteRange {
                            start: (o.start_sector * o.sector_size + o.byte_offset) as u64,
                            end_exclusive: (o.start_sector * o.sector_size + o.byte_offset + o.size_bytes) as u64,
                        },
                    ),
                )
            },
        },
    }
}

/// The first `k` patch operations resolved.
pub open spec fn patch_fold(
    es: Seq<QEntryView>,
    ops: Seq<QualcommPatchOperationObservation>,
    k: int,
    limits: C06Limits,
) -> Result<Seq<PatchOpView>, C06Error>
    decreases k,
{
    if k <= 0 {
        Ok(Seq::empty())
    } else {
        match patch_fold(es, ops, k - 1, limits) {
            Err(e) => Err(e),
            Ok(acc) => match patch_step(es, ops[k - 1], limits) {
                Err(e) => Err(e),
                Ok(v) => Ok(acc.push(v)),
            },
        }
    }
}

/// Views of patch operations.
pub open spec fn patch_views(s: Seq<QualcommPatchOperation>) -> Seq<PatchOpView> {
    s.map_values(|o: QualcommPatchOperation| o@)
}

fn patch_one(o: &QualcommPatchOperationObservation, entries: &Vec<QualcommBundleEntry>, limits: C06Limits) -> (r: Result<
    QualcommPatchOperation,
    C06Error,
>)
    ensures
        match patch_step(qentry_views(entries@), *o, limits) {
            Ok(v) => r matches Ok(x) && x@ == v,
            Err(e) => r == Err::<QualcommPatchOperation, C06Error>(e),
        },
{
    let ghost es = qentry_views(entries@);
    if let Err(e) = check_path06(o.xml_path.as_str(), limits) {
        return Err(e);
    }
    let i = match find_qentry(entries, &o.xml_path) {
        Some(i) => i,
        None => {
            return Err(C06Error::PlanSourceNotFound);
        },
    };
    assert(es[i as int] == entries@[i as int].entry_view());
    match entries[i].component_kind() {
        QualcommComponentKind::PatchXml => {},
        _ => {
            return Err(C06Error::InvalidPlanSourceKind);
        },
    }
    if o.sector_size == 0 {
        return Err(C06Error::InvalidSectorSize);
    }
    if o.byte_offset >= o.sector_size {
        return Err(C06Error::InvalidPatchRange);
    }
    let sector_start = match o.start_sector.checked_mul(o.sector_size) {
        Some(v) => v,
        None => {
            return Err(C06Error::RangeOverflow);
        },
    };
    let start = match sector_start.checked_add(o.byte_offset) {
        Some(v) => v,
        None => {
            return Err(C06Error::RangeOverflow);
        },
    };
    let end = match start.checked_add(o.size_bytes) {
        Some(v) => v,
        None => {
            return Err(C06Error::RangeOverflow);
        },
    };
    Ok(
        QualcommPatchOperation {
            xml_path: o.xml_path.clone(),
            physical_partition: o.physical_partition,
            sector_size: o.sector_size,
            byte_range: C06ByteRange { start, end_exclusive: end },
        },
    )
}

proof fn lemma_patch_fold_err(
    es: Seq<QEntryView>,
    ops: Seq<QualcommPatchOperationObservation>,
    i: int,
    k: int,
    limits: C06Limits,
    e: C06Error,
)
    requires
        0 <= i < k,
        patch_fold(es, ops, i, limits) is Ok,
        patch_step(es, ops[i], limits) == Err::<PatchOpView, C06Error>(e),
    ensures
        patch_fold(es, ops, k, limits) == Err::<Seq<PatchOpView>, C06Error>(e),
    decreases k,
{
    if k > i + 1 {
        lemma_patch_fold_err(es, ops, i, k - 1, limits, e);
    }
}

/// Resolve patch operations against the components.
pub fn resolve_patch_operations(
    ops: &Vec<QualcommPatchOperationObservation>,
    entries: &Vec<QualcommBundleEntry>,
    limits: C06Limits,
) -> (r: Result<Vec<QualcommPatchOperation>, C06Error>)
    ensures
        match patch_fold(qentry_views(entries@), ops@, ops@.len() as int, limits) {
            Ok(v) => r matches Ok(x) && patch_views(x@) == v,
            Err(e) => r == Err::<Vec<QualcommPatchOperation>, C06Error>(e),
        },
{
    let ghost es = qentry_views(entries@);
    let n = ops.len();
    let mut out: Vec<QualcommPatchOperation> = Vec::new();
    let mut i: usize = 0;
    assert(patch_views(out@) =~= Seq::<PatchOpView>::empty());
    while i < n
        invariant
            i <= n == ops@.len(),
            es == qentry_views(entries@),
            patch_fold(es, ops@, i as int, limits) == Ok::<Seq<PatchOpView>, C06Error>(patch_views(out@)),
        decreases n - i,
    {
        let op = match patch_one(&ops[i], entries, limits) {
            Ok(x) => x,
            Err(e) => {
                proof {
                    lemma_patch_fold_err(es, ops@, i as int, n as int, limits, e);
                }
                return Err(e);
            },
        };
        let ghost before = patch_views(out@);
        out.push(op);
        assert(patch_views(out@) =~= before.push(op@));
        i = i + 1;
    }
    Ok(out)
}

/// A kind that can hold a device-side programmer.
pub open spec fn programmer_kind(k: QualcommComponentKind) -> bool {
    k == QualcommComponentKind::FirehoseProgrammer || k == QualcommComponentKind::Mbn || k
        == QualcommComponentKind::Elf
}

/// Programmer evidence bound to its exact component.
pub open spec fn programmer_spec(es: Seq<QEntryView>, o: Option<QualcommProgrammerObservation>, limits: C06Limits) -> Result<
    Option<ProgrammerView>,
    C06Error,
> {
    match o {
        None => Ok(None),
        Some(p) => match path_fault(p.component_path@, limits) {
            Some(e) => Err(e),
            None => if !optional_text_ok(opt_view(p.target_claim), limits) || !optional_text_ok(
                opt_view(p.hwid_claim),
                limits,
            ) || !optional_text_ok(opt_view(p.pkhash_claim), limits) {
                Err(C06Error::InvalidString)
            } else {
                match qentry_index(es, p.component_path@) {
                    None => Err(C06Error::ProgrammerNotFound),
                    Some(i) => if !programmer_kind(es[i].3) {
                        Err(C06Error::InvalidProgrammerKind)
                    } else {
                        Ok(
                            Some(
                                ProgrammerView {
                                    path: es[i].0,
                                    sha256: es[i].2,
                                    kind: es[i].3,
                                    target: opt_view(p.target_claim),
                                    hwid: opt_view(p.hwid_claim),
                                    pkhash: opt_view(p.pkhash_claim),
                                    signature: p.signature_observed,
                                    compatibility: C06TrustAssessment::NotEstablished,
                                },
                            ),
                        )
                    },
                }
            },
        },
    }
}

/// View of optional programmer evidence.
pub open spec fn programmer_opt_view(o: Option<QualcommProgrammerEvidence>) -> Option<ProgrammerView> {
    match o {
        Some(p) => Some(p@),
        None => None,
    }
}

/// Bind programmer evidence to its exact component.
pub fn resolve_programmer(
    o: &Option<QualcommProgrammerObservation>,
    entries: &Vec<QualcommBundleEntry>,
    limits: C06Limits,
) -> (r: Result<Option<QualcommProgrammerEvidence>, C06Error>)
    ensures
        match programmer_spec(qentry_views(entries@), *o, limits) {
            Ok(v) => r matches Ok(x) && programmer_opt_view(x) == v,
            Err(e) => r == Err::<Option<QualcommProgrammerEvidence>, C06Error>(e),
        },
{
    let ghost es = qentry_views(entries@);
    let p = match o {
        None => {
            return Ok(None);
        },
        Some(p) => p,
    };
    if let Err(e) = check_path06(p.component_path.as_str(), limits) {
        return Err(e);
    }
    if check_optional06(&p.target_claim, limits).is_err() || check_optional06(&p.hwid_claim, limits).is_err()
        || check_optional06(&p.pkhash_claim, limits).is_err() {
        return Err(C06Error::InvalidString);
    }
    let i = match find_qentry(entries, &p.component_path) {
        Some(i) => i,
        None => {
            return Err(C06Error::ProgrammerNotFound);
        },
    };
    let entry = &entries[i];
    assert(es[i as int] == entry.entry_view());
    let kind = entry.component_kind();
    match kind {
        QualcommComponentKind::FirehoseProgrammer | QualcommComponentKind::Mbn | QualcommComponentKind::Elf => {},
        _ => {
            return Err(C06Error::InvalidProgrammerKind);
        },
    }
    Ok(
        Some(
            QualcommProgrammerEvidence {
                component_path: entry.path_text().clone(),
                sha256: entry.digest_text().clone(),
                kind,
                target_claim: copy_opt(&p.target_claim),
                hwid_claim: copy_opt(&p.hwid_claim),
                pkhash_claim: copy_opt(&p.pkhash_claim),
                signature_observed: p.signature_observed,
                compatibility: C06TrustAssessment::NotEstablished,
            },
        ),
    )
}


/// Note recorded when the provider did not claim completeness.
pub open spec fn qualcomm_incomplete_note() -> Seq<char> {
    "Qualcomm Provider did not claim complete C06-supported semantics"@
}

/// Note recorded when rawprogram image references stay unresolved.
pub open spec fn qualcomm_unresolved_note(n: nat) -> Seq<char> {
    decimal(n) + " rawprogram component reference(s) unresolved"@
}

/// Source-bound Qualcomm bundle report.
#[derive(Debug)]
pub struct QualcommBundleReport {
    /// Exact primary source revision.
    pub source_revision_ref: EntityRef,
    /// Exact primary source SHA-256.
    pub source_sha256: String,
    /// Exact primary source size.
    pub source_size: u64,
    /// Mechanical provider alias.
    pub provider_alias: String,
    /// Validated components in path order.
    pub entries: Vec<QualcommBundleEntry>,
    /// Resolved rawprogram operations.
    pub program_operations: Vec<QualcommProgramOperation>,
    /// Resolved patch operations.
    pub patch_operations: Vec<QualcommPatchOperation>,
    /// Programmer evidence.
    pub programmer: Option<QualcommProgrammerEvidence>,
    /// Structural truth.
    pub assessment: C06Assessment,
    /// Device trust.
    pub trust: C06TrustAssessment,
    /// Mechanically earned static proof level.
    pub proof_level: Option<C06StaticProofLevel>,
    /// Explicit unsupported or incomplete boundaries.
    pub limitations: Vec<String>,
}

/// Abstract value of a Qualcomm report.
pub ghost struct QualcommReportView {
    /// Source revision.
    pub source_revision: (Seq<char>, Seq<char>),
    /// Source digest text.
    pub source_sha256: Seq<char>,
    /// Source size.
    pub source_size: u64,
    /// Provider alias.
    pub alias: Seq<char>,
    /// Components.
    pub entries: Seq<QEntryView>,
    /// Rawprogram operations.
    pub programs: Seq<ProgramOpView>,
    /// Patch operations.
    pub patches: Seq<PatchOpView>,
    /// Programmer evidence.
    pub programmer: Option<ProgrammerView>,
    /// Assessment.
    pub assessment: C06Assessment,
    /// Trust.
    pub trust: C06TrustAssessment,
    /// Proof level.
    pub proof_level: Option<C06StaticProofLevel>,
    /// Limitations.
    pub limitations: Seq<Seq<char>>,
}

impl View for QualcommBundleReport {
    type V = QualcommReportView;

    open spec fn view(&self) -> QualcommReportView {
        QualcommReportView {
            source_revision: self.source_revision_ref@,
            source_sha256: self.source_sha256@,
            source_size: self.source_size,
            alias: self.provider_alias@,
            entries: qentry_views(self.entries@),
            programs: program_views(self.program_operations@),
            patches: patch_views(self.patch_operations@),
            programmer: programmer_opt_view(self.programmer),
            assessment: self.assessment,
            trust: self.trust,
            proof_level: self.proof_level,
            limitations: string_views(self.limitations@),
        }
    }
}

/// The report of a validated observation from a provider named `alias` for `source`.
#[verifier::opaque]
pub open spec fn qualcomm_resolution_spec(
    revision: (Seq<char>, Seq<char>),
    source: Seq<u8>,
    alias: Seq<char>,
    obs: QualcommBundleObservation,
    limits: C06Limits,
) -> Result<QualcommReportView, C06Error> {
    let lims = string_views(obs.limitations@);
    let count = obs.program_operations@.len() + obs.patch_operations@.len();
    if !limitations_text_ok(lims, limits) {
        Err(C06Error::InvalidString)
    } else if count > usize::MAX {
        Err(C06Error::AccountingOverflow)
    } else if count > limits.max_operations {
        Err(C06Error::TooManyOperations)
    } else {
        match qentries_spec(qobs_views(obs.entries@), limits) {
            Err(e) => Err(e),
            Ok(es) => match program_fold(es, obs.program_operations@, obs.program_operations@.len() as int, limits) {
                Err(e) => Err(e),
                Ok(pv) => match patch_fold(es, obs.patch_operations@, obs.patch_operations@.len() as int, limits) {
                    Err(e) => Err(e),
                    Ok(qv) => match programmer_spec(es, obs.programmer, limits) {
                        Err(e) => Err(e),
                        Ok(prog) => {
                            let unresolved = pv.1;
                            let l1 = if !obs.complete_claim {
                                lims.push(qualcomm_incomplete_note())
                            } else {
                                lims
                            };
                            let l2 = if unresolved != 0 {
                                l1.push(qualcomm_unresolved_note(unresolved))
                            } else {
                                l1
                            };
                            let plan_present = pv.0.len() > 0 || qv.len() > 0;
                            Ok(
                                QualcommReportView {
                                    source_revision: revision,
                                    source_sha256: sha256_hex_of(source),
                                    source_size: source.len() as u64,
                                    alias,
                                    entries: es,
                                    programs: pv.0,
                                    patches: qv,
                                    programmer: prog,
                                    assessment: if obs.complete_claim && unresolved == 0 && l2.len() == 0 {
                                        C06Assessment::Complete
                                    } else {
                                        C06Assessment::Partial
                                    },
                                    trust: C06TrustAssessment::NotEstablished,
                                    proof_level: Some(
                                        if plan_present && unresolved == 0 {
                                            C06StaticProofLevel::PlanLinked
                                        } else if es.len() == 0 {
                                            C06StaticProofLevel::InventoryOnly
                                        } else {
                                            C06StaticProofLevel::ComponentsLinked
                                        },
                                    ),
                                    limitations: l2,
                                },
                            )
                        },
                    },
                },
            },
        }
    }
}

/// Every component of a resolved report records the size and digest of its bytes.
pub proof fn lemma_resolution_entries_sound(
    revision: (Seq<char>, Seq<char>),
    source: Seq<u8>,
    alias: Seq<char>,
    obs: QualcommBundleObservation,
    limits: C06Limits,
)
    ensures
        qualcomm_resolution_spec(revision, source, alias, obs, limits) matches Ok(v) ==> forall|k: int|
            0 <= k < v.entries.len() ==> qentry_sound(#[trigger] v.entries[k]) && qentry_from(
                qobs_views(obs.entries@),
                v.entries[k],
            ),
{
    reveal(qualcomm_resolution_spec);
    lemma_qentries_sound(qobs_views(obs.entries@), limits);
}

/// The inspection of `source`, given the provider's alias and answer.
pub open spec fn qualcomm_spec(
    context: C06Context,
    source: Seq<u8>,
    limits: C06Limits,
    alias: Seq<char>,
    answer: Result<QualcommBundleObservation, String>,
) -> Result<QualcommReportView, C06Error> {
    match c06_context_fault(context) {
        Some(e) => Err(e),
        None => if !c06_limits_valid(limits) {
            Err(C06Error::InvalidLimits)
        } else if source.len() > limits.max_source_bytes {
            Err(C06Error::SourceTooLarge)
        } else if !text_ok(alias, limits) {
            Err(C06Error::InvalidString)
        } else {
            match answer {
                Err(msg) => Err(C06Error::QualcommProvider(msg)),
                Ok(obs) => qualcomm_resolution_spec(context.source_revision_ref@, source, alias, obs, limits),
            }
        },
    }
}

/// Whether a result agrees with an expected result.
pub open spec fn qualcomm_agrees(r: Result<QualcommBundleReport, C06Error>, expected: Result<QualcommReportView, C06Error>) -> bool {
    match r {
        Ok(rep) => expected == Ok::<QualcommReportView, C06Error>(rep@),
        Err(e) => expected == Err::<QualcommReportView, C06Error>(e),
    }
}

/// Build the report from a validated observation.
pub fn qualcomm_report_from(
    context: &C06Context,
    source: &[u8],
    alias: &str,
    obs: QualcommBundleObservation,
    limits: C06Limits,
) -> (r: Result<QualcommBundleReport, C06Error>)
    ensures
        qualcomm_agrees(r, qualcomm_resolution_spec(context.source_revision_ref@, source@, alias@, obs, limits)),
{
    reveal(qualcomm_resolution_spec);
    if let Err(e) = check_limitations06(&obs.limitations, limits) {
        return Err(e);
    }
    let operation_count = match obs.program_operations.len().checked_add(obs.patch_operations.len()) {
        Some(c) => c,
        None => {
            return Err(C06Error::AccountingOverflow);
        },
    };
    if operation_count > limits.max_operations {
        return Err(C06Error::TooManyOperations);
    }
    let entries = match validate_qualcomm_entries(&obs.entries, limits) {
        Ok(x) => x,
        Err(e) => {
            return Err(e);
        },
    };
    let (program_operations, unresolved) = match resolve_program_operations(&obs.program_operations, &entries, limits) {
        Ok(x) => x,
        Err(e) => {
            return Err(e);
        },
    };
    let patch_operations = match resolve_patch_operations(&obs.patch_operations, &entries, limits) {
        Ok(x) => x,
        Err(e) => {
            return Err(e);
        },
    };
    let programmer = match resolve_programmer(&obs.programmer, &entries, limits) {
        Ok(x) => x,
        Err(e) => {
            return Err(e);
        },
    };
    let mut limitations = copy_strings(&obs.limitations);
    if !obs.complete_claim {
        push_string(&mut limitations, owned("Qualcomm Provider did not claim complete C06-supported semantics"));
    }
    if unresolved != 0 {
        push_string(
            &mut limitations,
            numbered_message("", unresolved as u64, " rawprogram component reference(s) unresolved"),
        );
        proof {
            reveal_strlit("");
            assert(""@ + decimal(unresolved as nat) + " rawprogram component reference(s) unresolved"@
                =~= qualcomm_unresolved_note(unresolved as nat));
        }
    }
    let assessment = if obs.complete_claim && unresolved == 0 && limitations.len() == 0 {
        C06Assessment::Complete
    } else {
        C06Assessment::Partial
    };
    let plan_present = program_operations.len() != 0 || patch_operations.len() != 0;
    let proof_level = if plan_present && unresolved == 0 {
        C06StaticProofLevel::PlanLinked
    } else if entries.len() == 0 {
        C06StaticProofLevel::InventoryOnly
    } else {
        C06StaticProofLevel::ComponentsLinked
    };
    Ok(
        QualcommBundleReport {
            source_revision_ref: context.source_revision_ref.duplicate(),
            source_sha256: sha256_hex(source),
            source_size: source.len() as u64,
            provider_alias: owned(alias),
            entries,
            program_operations,
            patch_operations,
            programmer,
            assessment,
            trust: C06TrustAssessment::NotEstablished,
            proof_level: Some(proof_level),
            limitations,
        },
    )
}

/// Inspect one immutable primary source through a bounded Qualcomm bundle provider. The result
/// is `qualcomm_spec` of the alias and answer the provider gave, whatever they were.
pub fn inspect_qualcomm_bundle(
    primary_source: &[u8],
    context: &C06Context,
    limits: C06Limits,
    provider: &dyn QualcommBundleProvider,
) -> (r: Result<QualcommBundleReport, C06Error>)
    ensures
        exists|alias: Seq<char>, answer: Result<QualcommBundleObservation, String>|
            (c06_context_fault(*context) is None && c06_limits_valid(limits) && primary_source@.len() <= limits.max_source_bytes
                ==> provider.id_post(alias) && (text_ok(alias, limits) ==> provider.inspect_post(primary_source@, limits, answer)))
                && qualcomm_agrees(
                r,
                #[trigger] qualcomm_spec(*context, primary_source@, limits, alias, answer),
            ),
        r matches Ok(rep) ==> forall|i: int|
            0 <= i < rep.entries@.len() ==> qentry_sound(#[trigger] rep.entries@[i].entry_view()),
        r matches Ok(rep) ==> exists|obs: QualcommBundleObservation|
            provider.inspect_post(primary_source@, limits, Ok(obs)) && forall|i: int|
                0 <= i < rep.entries@.len() ==> qentry_from(qobs_views(obs.entries@), #[trigger] rep.entries@[i].entry_view()),
{
    let ghost any_alias: Seq<char> = vstd::pervasive::arbitrary();
    let ghost any_answer: Result<QualcommBundleObservation, String> = vstd::pervasive::arbitrary();
    if let Err(e) = validate_c06_context(context) {
        assert(qualcomm_agrees(Err(e), qualcomm_spec(*context, primary_source@, limits, any_alias, any_answer)));
        return Err(e);
    }
    if let Err(e) = validate_c06_limits(limits) {
        assert(qualcomm_agrees(Err(e), qualcomm_spec(*context, primary_source@, limits, any_alias, any_answer)));
        return Err(e);
    }
    if primary_source.len() as u64 > limits.max_source_bytes {
        assert(qualcomm_agrees(
            Err(C06Error::SourceTooLarge),
            qualcomm_spec(*context, primary_source@, limits, any_alias, any_answer),
        ));
        return Err(C06Error::SourceTooLarge);
    }
    let id = provider.provider_id();
    if let Err(e) = check_text06(id, limits) {
        assert(qualcomm_agrees(Err(e), qualcomm_spec(*context, primary_source@, limits, id@, any_answer)));
        return Err(e);
    }
    let answer = provider.inspect_bundle(primary_source, limits);
    let ghost ga = answer;
    let obs = match answer {
        Err(msg) => {
            assert(qualcomm_agrees(
                Err(C06Error::QualcommProvider(msg)),
                qualcomm_spec(*context, primary_source@, limits, id@, ga),
            ));
            return Err(C06Error::QualcommProvider(msg));
        },
        Ok(o) => o,
    };
    let ghost gobs = obs;
    let r = qualcomm_report_from(context, primary_source, id, obs, limits);
    assert(qualcomm_agrees(r, qualcomm_spec(*context, primary_source@, limits, id@, ga)));
    proof {
        lemma_resolution_entries_sound(context.source_revision_ref@, primary_source@, id@, gobs, limits);
        if r is Ok {
            let rep = r->Ok_0;
            assert forall|i: int| 0 <= i < rep.entries@.len() implies qentry_sound(
                #[trigger] rep.entries@[i].entry_view(),
            ) && qentry_from(qobs_views(gobs.entries@), rep.entries@[i].entry_view()) by {
                assert(rep@.entries[i] == rep.entries@[i].entry_view());
            }
            assert(provider.inspect_post(primary_source@, limits, Ok(gobs)));
        }
    }
    r
}


/// Exact recovered Qualcomm component bytes.
#[derive(Debug)]
pub struct QualcommMaterialization {
    /// Canonical component path.
    pub name: String,
    /// Exact primary source revision.
    pub source_revision_ref: EntityRef,
    /// Exact component SHA-256.
    pub sha256: String,
    bytes: Vec<u8>,
}

impl QualcommMaterialization {
    /// The abstract value: name, source revision, digest and bytes.
    pub closed spec fn mat_view(&self) -> (Seq<char>, (Seq<char>, Seq<char>), Seq<char>, Seq<u8>) {
        (self.name@, self.source_revision_ref@, self.sha256@, self.bytes@)
    }

    /// Read-only exact recovered bytes.
    pub fn bytes(&self) -> (r: &[u8])
        ensures
            r@ == self.mat_view().3,
    {
        self.bytes.as_slice()
    }
}

/// The materialization of `path` from a Qualcomm report of `source`.
pub open spec fn qualcomm_materialize_spec(
    source: Seq<u8>,
    report: QualcommReportView,
    path: Seq<char>,
    context: C06Context,
    limits: C06Limits,
) -> Result<(Seq<char>, (Seq<char>, Seq<char>), Seq<char>, Seq<u8>), C06Error> {
    match c06_context_fault(context) {
        Some(e) => Err(e),
        None => if !c06_limits_valid(limits) {
            Err(C06Error::InvalidLimits)
        } else {
            match path_fault(path, limits) {
                Some(e) => Err(e),
                None => if !source_bound(source, report.source_size, report.source_sha256, report.source_revision, context) {
                    Err(C06Error::SourceBindingMismatch)
                } else {
                    match qentry_index(report.entries, path) {
                        None => Err(C06Error::ChildNotFound),
                        Some(i) => {
                            let e = report.entries[i];
                            if e.1 > limits.max_materialized_bytes {
                                Err(C06Error::MaterializationTooLarge)
                            } else if sha256_hex_of(e.4) != e.2 {
                                Err(C06Error::ReportIntegrityMismatch)
                            } else {
                                Ok((e.0, report.source_revision, e.2, e.4))
                            }
                        },
                    }
                },
            }
        },
    }
}

/// Materialize one exact recovered Qualcomm component.
pub fn materialize_qualcomm_component(
    primary_source: &[u8],
    report: &QualcommBundleReport,
    path: &str,
    context: &C06Context,
    limits: C06Limits,
) -> (r: Result<QualcommMaterialization, C06Error>)
    ensures
        match qualcomm_materialize_spec(primary_source@, report@, path@, *context, limits) {
            Ok(v) => r matches Ok(m) && m.mat_view() == v,
            Err(e) => r == Err::<QualcommMaterialization, C06Error>(e),
        },
{
    if let Err(e) = validate_c06_context(context) {
        return Err(e);
    }
    if let Err(e) = validate_c06_limits(limits) {
        return Err(e);
    }
    if let Err(e) = check_path06(path, limits) {
        return Err(e);
    }
    if !report.source_revision_ref.same_as(&context.source_revision_ref) || report.source_size
        != primary_source.len() as u64 || report.source_sha256 != sha256_hex(primary_source) {
        return Err(C06Error::SourceBindingMismatch);
    }
    let p = owned(path);
    let i = match find_qentry(&report.entries, &p) {
        Some(i) => i,
        None => {
            return Err(C06Error::ChildNotFound);
        },
    };
    let entry = &report.entries[i];
    assert(report@.entries[i as int] == entry.entry_view());
    if entry.size() > limits.max_materialized_bytes {
        return Err(C06Error::MaterializationTooLarge);
    }
    let digest = sha256_hex(entry.bytes());
    let recorded: &String = entry.digest_text();
    if digest != *recorded {
        return Err(C06Error::ReportIntegrityMismatch);
    }
    Ok(
        QualcommMaterialization {
            name: entry.path_text().clone(),
            source_revision_ref: report.source_revision_ref.duplicate(),
            sha256: recorded.clone(),
            bytes: vstd::slice::slice_to_vec(entry.bytes()),
        },
    )
}

/// Source-bound Qualcomm comparison.
#[derive(Debug)]
pub struct QualcommComparison {
    /// Left source revision.
    pub left_source_revision_ref: EntityRef,
    /// Right source revision.
    pub right_source_revision_ref: EntityRef,
    /// Strongest mechanically established level.
    pub level: C06ComparisonLevel,
    /// Deterministic differences.
    pub differences: Vec<String>,
}

/// Programmer evidence without its digest.
pub open spec fn programmer_shape(p: Option<ProgrammerView>) -> Option<ProgrammerView> {
    match p {
        Some(v) => Some(ProgrammerView { sha256: Seq::empty(), ..v }),
        None => None,
    }
}

/// The bundle and plan structure of a report.
pub open spec fn qualcomm_shape(
    r: QualcommReportView,
) -> (Seq<(Seq<char>, QualcommComponentKind)>, Seq<ProgramOpView>, Seq<PatchOpView>, Option<ProgrammerView>) {
    (
        r.entries.map_values(|e: QEntryView| (e.0, e.3)),
        r.programs,
        r.patches,
        programmer_shape(r.programmer),
    )
}

/// The retained component identities of a report: path, kind, size and digest.
pub open spec fn qualcomm_components(r: QualcommReportView) -> Seq<(Seq<char>, QualcommComponentKind, u64, Seq<char>)> {
    r.entries.map_values(|e: QEntryView| (e.0, e.3, e.1, e.2))
}

/// The strongest comparison level of two Qualcomm reports.
pub open spec fn qualcomm_level_spec(l: QualcommReportView, r: QualcommReportView) -> C06ComparisonLevel {
    let shape_eq = qualcomm_shape(l) == qualcomm_shape(r);
    let comp_eq = qualcomm_components(l) == qualcomm_components(r);
    if shape_eq && l.source_sha256 == r.source_sha256 && l.source_size == r.source_size && comp_eq {
        C06ComparisonLevel::ByteExact
    } else if shape_eq && comp_eq {
        C06ComparisonLevel::ComponentExact
    } else if shape_eq {
        C06ComparisonLevel::StructureOnly
    } else {
        C06ComparisonLevel::Different
    }
}

/// The differences two Qualcomm reports show.
pub open spec fn qualcomm_differences_spec(l: QualcommReportView, r: QualcommReportView) -> Seq<Seq<char>> {
    if qualcomm_shape(l) != qualcomm_shape(r) {
        seq!["qualcomm_bundle_or_plan_structure_changed"@]
    } else if qualcomm_components(l) != qualcomm_components(r) {
        seq!["qualcomm_component_bytes_changed"@]
    } else {
        Seq::empty()
    }
}

fn same_opt(a: &Option<String>, b: &Option<String>) -> (r: bool)
    ensures
        r == (opt_view(*a) == opt_view(*b)),
{
    match (a, b) {
        (Some(x), Some(y)) => *x == *y,
        (None, None) => true,
        _ => false,
    }
}

fn same_entries(a: &Vec<QualcommBundleEntry>, b: &Vec<QualcommBundleEntry>) -> (r: (bool, bool))
    ensures
        r.0 == (qentry_views(a@).map_values(|e: QEntryView| (e.0, e.3)) == qentry_views(b@).map_values(
            |e: QEntryView| (e.0, e.3),
        )),
        r.1 == (qentry_views(a@).map_values(|e: QEntryView| (e.0, e.3, e.1, e.2)) == qentry_views(b@).map_values(
            |e: QEntryView| (e.0, e.3, e.1, e.2),
        )),
{
    let ghost sa = qentry_views(a@).map_values(|e: QEntryView| (e.0, e.3));
    let ghost sb = qentry_views(b@).map_values(|e: QEntryView| (e.0, e.3));
    let ghost ca = qentry_views(a@).map_values(|e: QEntryView| (e.0, e.3, e.1, e.2));
    let ghost cb = qentry_views(b@).map_values(|e: QEntryView| (e.0, e.3, e.1, e.2));
    if a.len() != b.len() {
        assert(sa.len() != sb.len() && ca.len() != cb.len());
        return (false, false);
    }
    let mut shape = true;
    let mut comp = true;
    let mut i: usize = 0;
    while i < a.len()
        invariant
            i <= a@.len() == b@.len(),
            sa == qentry_views(a@).map_values(|e: QEntryView| (e.0, e.3)),
            sb == qentry_views(b@).map_values(|e: QEntryView| (e.0, e.3)),
            ca == qentry_views(a@).map_values(|e: QEntryView| (e.0, e.3, e.1, e.2)),
            cb == qentry_views(b@).map_values(|e: QEntryView| (e.0, e.3, e.1, e.2)),
            shape == (forall|j: int| 0 <= j < i ==> sa[j] == sb[j]),
            comp == (forall|j: int| 0 <= j < i ==> ca[j] == cb[j]),
        decreases a.len() - i,
    {
        let x = &a[i];
        let y = &b[i];
        assert(qentry_views(a@)[i as int] == x.entry_view());
        assert(qentry_views(b@)[i as int] == y.entry_view());
        let px: &String = x.path_text();
        let py: &String = y.path_text();
        let dx: &String = x.digest_text();
        let dy: &String = y.digest_text();
        let same_path = *px == *py;
        let same_kind = x.component_kind() == y.component_kind();
        let this_shape = same_path && same_kind;
        let this_comp = this_shape && x.size() == y.size() && *dx == *dy;
        proof {
            if !this_shape {
                assert(sa[i as int] != sb[i as int]);
            }
            if !this_comp {
                assert(ca[i as int] != cb[i as int]);
            }
        }
        shape = shape && this_shape;
        comp = comp && this_comp;
        i = i + 1;
    }
    proof {
        if shape {
            assert(sa =~= sb);
        }
        if comp {
            assert(ca =~= cb);
        }
    }
    (shape, comp)
}

fn same_programs(a: &Vec<QualcommProgramOperation>, b: &Vec<QualcommProgramOperation>) -> (r: bool)
    ensures
        r == (program_views(a@) == program_views(b@)),
{
    let ghost va = program_views(a@);
    let ghost vb = program_views(b@);
    if a.len() != b.len() {
        assert(va.len() != vb.len());
        return false;
    }
    let mut i: usize = 0;
    while i < a.len()
        invariant
            i <= a@.len() == b@.len(),
            va == program_views(a@),
            vb == program_views(b@),
            forall|j: int| 0 <= j < i ==> va[j] == vb[j],
        decreases a.len() - i,
    {
        let x = &a[i];
        let y = &b[i];
        assert(va[i as int] == x@ && vb[i as int] == y@);
        if !(x.xml_path == y.xml_path && same_opt(&x.filename, &y.filename) && same_opt(&x.label, &y.label)
            && x.physical_partition == y.physical_partition && x.sector_size == y.sector_size && x.byte_range
            == y.byte_range && x.component_resolved == y.component_resolved) {
            return false;
        }
        i = i + 1;
    }
    assert(va =~= vb);
    true
}

fn same_patches(a: &Vec<QualcommPatchOperation>, b: &Vec<QualcommPatchOperation>) -> (r: bool)
    ensures
        r == (patch_views(a@) == patch_views(b@)),
{
    let ghost va = patch_views(a@);
    let ghost vb = patch_views(b@);
    if a.len() != b.len() {
        assert(va.len() != vb.len());
        return false;
    }
    let mut i: usize = 0;
    while i < a.len()
        invariant
            i <= a@.len() == b@.len(),
            va == patch_views(a@),
            vb == patch_views(b@),
            forall|j: int| 0 <= j < i ==> va[j] == vb[j],
        decreases a.len() - i,
    {
        let x = &a[i];
        let y = &b[i];
        assert(va[i as int] == x@ && vb[i as int] == y@);
        if !(x.xml_path == y.xml_path && x.physical_partition == y.physical_partition && x.sector_size
            == y.sector_size && x.byte_range == y.byte_range) {
            return false;
        }
        i = i + 1;
    }
    assert(va =~= vb);
    true
}

fn same_programmer_shape(a: &Option<QualcommProgrammerEvidence>, b: &Option<QualcommProgrammerEvidence>) -> (r: bool)
    ensures
        r == (programmer_shape(programmer_opt_view(*a)) == programmer_shape(programmer_opt_view(*b))),
{
    match (a, b) {
        (Some(x), Some(y)) => x.component_path == y.component_path && x.kind == y.kind && same_opt(
            &x.target_claim,
            &y.target_claim,
        ) && same_opt(&x.hwid_claim, &y.hwid_claim) && same_opt(&x.pkhash_claim, &y.pkhash_claim)
            && x.signature_observed == y.signature_observed,
        (None, None) => true,
        _ => false,
    }
}

/// Compare two Qualcomm reports without manufacturing Firehose or device compatibility.
pub fn compare_qualcomm_bundles(left: &QualcommBundleReport, right: &QualcommBundleReport) -> (r: QualcommComparison)
    ensures
        r.left_source_revision_ref@ == left.source_revision_ref@,
        r.right_source_revision_ref@ == right.source_revision_ref@,
        r.level == qualcomm_level_spec(left@, right@),
        string_views(r.differences@) == qualcomm_differences_spec(left@, right@),
{
    let (entries_shape, comp_eq) = same_entries(&left.entries, &right.entries);
    let shape_eq = entries_shape && same_programs(&left.program_operations, &right.program_operations)
        && same_patches(&left.patch_operations, &right.patch_operations) && same_programmer_shape(
        &left.programmer,
        &right.programmer,
    );
    let mut differences: Vec<String> = Vec::new();
    if !shape_eq {
        differences.push(owned("qualcomm_bundle_or_plan_structure_changed"));
    } else if !comp_eq {
        differences.push(owned("qualcomm_component_bytes_changed"));
    }
    assert(string_views(differences@) =~= qualcomm_differences_spec(left@, right@));
    let level = if shape_eq && left.source_sha256 == right.source_sha256 && left.source_size == right.source_size
        && comp_eq {
        C06ComparisonLevel::ByteExact
    } else if shape_eq && comp_eq {
        C06ComparisonLevel::ComponentExact
    } else if shape_eq {
        C06ComparisonLevel::StructureOnly
    } else {
        C06ComparisonLevel::Different
    };
    QualcommComparison {
        left_source_revision_ref: left.source_revision_ref.duplicate(),
        right_source_revision_ref: right.source_revision_ref.duplicate(),
        level,
        differences,
    }
}

/// A Qualcomm report compared with itself is byte-exact with no differences.
pub proof fn lemma_qualcomm_compare_reflexive(r: QualcommReportView)
    ensures
        qualcomm_level_spec(r, r) == C06ComparisonLevel::ByteExact,
        qualcomm_differences_spec(r, r) == Seq::<Seq<char>>::empty(),
{
}

} // verus!
