//! Static Unisoc PAC inspection: provider-normalized file-table entries validated against the
//! immutable PAC bytes, FDL loader evidence, comparison and exact component materialization.
use vstd::prelude::*;
use crate::digest::{sha256_hex, sha256_hex_of};
use crate::identity::EntityRef;
use crate::mediatek::opt_view;
use crate::mediatek_bundle::{digest_text_ok, digest_text_valid, text_less, text_lt};
use crate::partition_map::{copy_strings, push_string, string_views};
use crate::text::owned;
use crate::vendor_pkg::{
    C06Assessment, C06ByteRange, C06ComparisonLevel, C06Context, C06Error, C06Limits, C06StaticProofLevel,
    C06TrustAssessment, c06_context_fault, source_bound, c06_limits_valid, check_limitations06, check_optional06, check_path06,
    check_text06, limitations_text_ok, optional_text_ok, path_fault, text_ok, validate_c06_context,
    validate_c06_limits,
};

verus! {

/// Static role declared by the mechanical PAC table provider.
#[derive(Debug, Clone, Copy, PartialEq, Eq, PartialOrd, Ord, Structural)]
pub enum UnisocComponentRole {
    /// First-stage FDL payload.
    Fdl1,
    /// Second-stage FDL payload.
    Fdl2,
    /// XML or package metadata.
    Xml,
    /// Partition or image payload.
    PartitionImage,
    /// Other bounded PAC entry.
    Other,
}

/// One normalized PAC table entry from an untrusted mechanical provider.
#[derive(Debug, Clone)]
pub struct UnisocPacEntryObservation {
    /// PAC file-table identifier.
    pub file_id: u32,
    /// Canonical relative component path or name.
    pub path: String,
    /// Optional file version.
    pub file_version: Option<String>,
    /// Exact byte offset within the immutable PAC source.
    pub data_offset: u64,
    /// Exact byte size within the immutable PAC source.
    pub byte_size: u64,
    /// PAC flags retained as metadata only.
    pub flags: u32,
    /// PAC check flag retained as metadata only.
    pub check_flag: u32,
    /// Up to five PAC address values retained as metadata.
    pub addresses: [Option<u64>; 5],
    /// Mechanical static component role.
    pub role: UnisocComponentRole,
    /// Provider-declared lowercase SHA-256 for the exact source slice.
    pub expected_sha256: String,
}

/// Mechanical PAC structural-validation evidence.
#[derive(Debug, Clone, Copy, PartialEq, Eq, Structural)]
pub struct UnisocPacValidationObservation {
    /// The provider validated the PAC magic and header family.
    pub magic_validated: bool,
    /// The provider validated supported header CRC or check semantics.
    pub header_crc_validated: bool,
    /// The provider validated supported file-table CRC or check semantics.
    pub table_crc_validated: bool,
}

/// Bounded normalized PAC observation from an untrusted provider.
#[derive(Debug, Clone)]
pub struct UnisocPacObservation {
    /// Optional product name.
    pub product_name: Option<String>,
    /// Optional product version.
    pub product_version: Option<String>,
    /// Optional product alias.
    pub product_alias: Option<String>,
    /// Explicit structural-validation evidence.
    pub validation: UnisocPacValidationObservation,
    /// Normalized PAC table entries.
    pub entries: Vec<UnisocPacEntryObservation>,
    /// Provider claim that all supported PAC semantics were enumerated.
    pub complete_claim: bool,
    /// Explicit unsupported or partial semantics.
    pub limitations: Vec<String>,
}

/// Replaceable mechanical PAC parser boundary; its output is validated, never trusted.
pub trait UnisocPacProvider {
    /// Whether `id` is an alias this provider may report; any, unless the implementation says
    /// otherwise.
    open spec fn id_post(&self, id: Seq<char>) -> bool {
        true
    }

    /// Whether `r` is a result this provider may give for `source` under `limits`; any, unless
    /// the implementation says otherwise.
    open spec fn inspect_post(&self, source: Seq<u8>, limits: C06Limits, r: Result<UnisocPacObservation, String>) -> bool {
        true
    }

    /// Stable backend-local provider alias.
    fn provider_id(&self) -> (r: &str)
        ensures
            self.id_post(r@),
    ;

    /// Parse one immutable PAC source into a bounded normalized observation.
    fn inspect_pac(&self, source: &[u8], limits: C06Limits) -> (r: Result<UnisocPacObservation, String>)
        ensures
            self.inspect_post(source@, limits, r),
    ;
}

/// Validated exact PAC entry.
#[derive(Debug, Clone)]
pub struct UnisocPacEntry {
    /// PAC file-table identifier.
    pub file_id: u32,
    /// Canonical relative path.
    pub path: String,
    /// Optional file version.
    pub file_version: Option<String>,
    /// Exact source byte range.
    pub range: C06ByteRange,
    /// PAC flags retained as metadata only.
    pub flags: u32,
    /// PAC check flag retained as metadata only.
    pub check_flag: u32,
    /// Up to five PAC address values.
    pub addresses: [Option<u64>; 5],
    /// Static role.
    pub role: UnisocComponentRole,
    /// Exact source-slice SHA-256.
    pub sha256: String,
}

/// Abstract value of a PAC entry.
pub ghost struct UEntryView {
    /// File identifier.
    pub file_id: u32,
    /// Path.
    pub path: Seq<char>,
    /// File version.
    pub file_version: Option<Seq<char>>,
    /// Source range.
    pub range: C06ByteRange,
    /// Flags.
    pub flags: u32,
    /// Check flag.
    pub check_flag: u32,
    /// Address values.
    pub addresses: Seq<Option<u64>>,
    /// Role.
    pub role: UnisocComponentRole,
    /// Digest text.
    pub sha256: Seq<char>,
}

impl View for UnisocPacEntry {
    type V = UEntryView;

    open spec fn view(&self) -> UEntryView {
        UEntryView {
            file_id: self.file_id,
            path: self.path@,
            file_version: opt_view(self.file_version),
            range: self.range,
            flags: self.flags,
            check_flag: self.check_flag,
            addresses: self.addresses@,
            role: self.role,
            sha256: self.sha256@,
        }
    }
}

/// Views of PAC entries.
pub open spec fn uentry_views(s: Seq<UnisocPacEntry>) -> Seq<UEntryView> {
    s.map_values(|e: UnisocPacEntry| e@)
}

/// Explicit static FDL evidence.
#[derive(Debug, Clone)]
pub struct UnisocLoaderEvidence {
    /// FDL stage.
    pub role: UnisocComponentRole,
    /// Exact component path.
    pub component_path: String,
    /// Exact component digest.
    pub sha256: String,
    /// First PAC address value when supplied.
    pub base_address: Option<u64>,
    /// Device or board compatibility remains unestablished.
    pub compatibility: C06TrustAssessment,
}

/// Abstract value of loader evidence: role, path, digest and base address.
pub type LoaderView = (UnisocComponentRole, Seq<char>, Seq<char>, Option<u64>);

/// Views of loader evidence.
pub open spec fn loader_views(s: Seq<UnisocLoaderEvidence>) -> Seq<LoaderView> {
    s.map_values(|l: UnisocLoaderEvidence| (l.role, l.component_path@, l.sha256@, l.base_address))
}

/// The failure raised by observation `i`, given that none before it failed.
pub open spec fn uentry_fault(os: Seq<UnisocPacEntryObservation>, i: int, source: Seq<u8>, limits: C06Limits) -> Option<
    C06Error,
> {
    let o = os[i];
    match path_fault(o.path@, limits) {
        Some(e) => Some(e),
        None => if !optional_text_ok(opt_view(o.file_version), limits) {
            Some(C06Error::InvalidString)
        } else if !digest_text_ok(o.expected_sha256@) {
            Some(C06Error::DigestMismatch)
        } else if exists|j: int|
            0 <= j < i && ((#[trigger] os[j]).file_id == o.file_id || os[j].path@ == o.path@) {
            Some(C06Error::DuplicateEntry)
        } else if o.data_offset + o.byte_size > u64::MAX {
            Some(C06Error::RangeOverflow)
        } else if o.data_offset + o.byte_size > source.len() {
            Some(C06Error::RangeOutsideSource)
        } else if sha256_hex_of(source.subrange(o.data_offset as int, o.data_offset + o.byte_size))
            != o.expected_sha256@ {
            Some(C06Error::DigestMismatch)
        } else {
            None
        }
    }
}

/// The first failure among the first `k` observations.
pub open spec fn uentries_fault(os: Seq<UnisocPacEntryObservation>, k: int, source: Seq<u8>, limits: C06Limits) -> Option<
    C06Error,
>
    decreases k,
{
    if k <= 0 {
        None
    } else {
        match uentries_fault(os, k - 1, source, limits) {
            Some(e) => Some(e),
            None => uentry_fault(os, k - 1, source, limits),
        }
    }
}

/// The retained value of a validated observation.
pub open spec fn uretained(o: UnisocPacEntryObservation, source: Seq<u8>) -> UEntryView {
    UEntryView {
        file_id: o.file_id,
        path: o.path@,
        file_version: opt_view(o.file_version),
        range: C06ByteRange { start: o.data_offset, end_exclusive: (o.data_offset + o.byte_size) as u64 },
        flags: o.flags,
        check_flag: o.check_flag,
        addresses: o.addresses@,
        role: o.role,
        sha256: sha256_hex_of(source.subrange(o.data_offset as int, o.data_offset + o.byte_size)),
    }
}

/// Order of retained entries: by start offset, then by path.
pub open spec fn uentry_lt(a: UEntryView, b: UEntryView) -> bool {
    a.range.start < b.range.start || (a.range.start == b.range.start && text_lt(a.path, b.path))
}

/// Insert `x` before the first entry it sorts before.
pub open spec fn insert_uentry(s: Seq<UEntryView>, x: UEntryView) -> Seq<UEntryView>
    decreases s.len(),
{
    if s.len() == 0 {
        seq![x]
    } else if uentry_lt(x, s[0]) {
        seq![x] + s
    } else {
        seq![s[0]] + insert_uentry(s.drop_first(), x)
    }
}

/// Entries in ascending (start, path) order (stable).
pub open spec fn sort_uentries(s: Seq<UEntryView>) -> Seq<UEntryView>
    decreases s.len(),
{
    if s.len() == 0 {
        Seq::empty()
    } else {
        insert_uentry(sort_uentries(s.drop_last()), s.last())
    }
}

/// `a` sorts before or equal to `b` by (start, end).
pub open spec fn range_le(a: C06ByteRange, b: C06ByteRange) -> bool {
    a.start < b.start || (a.start == b.start && a.end_exclusive <= b.end_exclusive)
}

/// Two distinct entries overlap: the earlier by (start, end) ends after the later starts.
pub open spec fn ranges_overlap(es: Seq<UEntryView>) -> bool {
    exists|i: int, j: int|
        0 <= i < es.len() && 0 <= j < es.len() && i != j && range_le((#[trigger] es[i]).range, (#[trigger] es[j]).range)
            && es[i].range.end_exclusive > es[j].range.start
}

/// Validated PAC entries: bounded count; each with a canonical path, bounded version, well-formed
/// digest, unique identifier and path, a range inside the source whose bytes have the declared
/// digest; sorted by (start, path); no two overlapping.
pub open spec fn uentries_spec(os: Seq<UnisocPacEntryObservation>, source: Seq<u8>, limits: C06Limits) -> Result<
    Seq<UEntryView>,
    C06Error,
> {
    if os.len() > limits.max_entries {
        Err(C06Error::TooManyEntries)
    } else {
        match uentries_fault(os, os.len() as int, source, limits) {
            Some(e) => Err(e),
            None => {
                let sorted = sort_uentries(os.map_values(|o: UnisocPacEntryObservation| uretained(o, source)));
                if ranges_overlap(sorted) {
                    Err(C06Error::OverlappingRanges)
                } else {
                    Ok(sorted)
                }
            },
        }
    }
}

proof fn lemma_ufault_persists(os: Seq<UnisocPacEntryObservation>, i: int, k: int, source: Seq<u8>, limits: C06Limits)
    requires
        0 <= i < k,
        uentries_fault(os, i, source, limits) is None,
        uentry_fault(os, i, source, limits) is Some,
    ensures
        uentries_fault(os, k, source, limits) == uentry_fault(os, i, source, limits),
    decreases k,
{
    if k > i + 1 {
        lemma_ufault_persists(os, i, k - 1, source, limits);
    }
}

proof fn lemma_insert_uentry_at(s: Seq<UEntryView>, x: UEntryView, p: int)
    requires
        0 <= p <= s.len(),
        forall|k: int| 0 <= k < p ==> !uentry_lt(x, #[trigger] s[k]),
        p < s.len() ==> uentry_lt(x, s[p]),
    ensures
        insert_uentry(s, x) == s.insert(p, x),
    decreases s.len(),
{
    if s.len() == 0 {
        assert(s.insert(p, x) =~= seq![x]);
    } else if p == 0 {
        assert(s.insert(0, x) =~= seq![x] + s);
    } else {
        assert forall|k: int| 0 <= k < p - 1 implies !uentry_lt(x, #[trigger] s.drop_first()[k]) by {
            assert(s.drop_first()[k] == s[k + 1]);
        }
        lemma_insert_uentry_at(s.drop_first(), x, p - 1);
        assert(s.insert(p, x) =~= seq![s[0]] + s.drop_first().insert(p - 1, x));
    }
}

fn copy_opt(o: &Option<String>) -> (r: Option<String>)
    ensures
        opt_view(r) == opt_view(*o),
{
    match o {
        Some(x) => Some(x.clone()),
        None => None,
    }
}

fn copy_uentry(e: &UnisocPacEntry) -> (r: UnisocPacEntry)
    ensures
        r@ == e@,
{
    UnisocPacEntry {
        file_id: e.file_id,
        path: e.path.clone(),
        file_version: copy_opt(&e.file_version),
        range: e.range,
        flags: e.flags,
        check_flag: e.check_flag,
        addresses: e.addresses,
        role: e.role,
        sha256: e.sha256.clone(),
    }
}

fn sort_uentries_exec(v: &Vec<UnisocPacEntry>) -> (r: Vec<UnisocPacEntry>)
    ensures
        uentry_views(r@) == sort_uentries(uentry_views(v@)),
{
    let ghost vv = uentry_views(v@);
    let mut r: Vec<UnisocPacEntry> = Vec::new();
    let n = v.len();
    let mut i: usize = 0;
    assert(vv.take(0) =~= Seq::<UEntryView>::empty());
    assert(uentry_views(r@) =~= Seq::<UEntryView>::empty());
    while i < n
        invariant
            n == v@.len(),
            vv == uentry_views(v@),
            i <= n,
            uentry_views(r@) == sort_uentries(vv.take(i as int)),
        decreases n - i,
    {
        let x = copy_uentry(&v[i]);
        let ghost sv = uentry_views(r@);
        let ghost xv = x@;
        assert(xv == vv[i as int]);
        let mut p: usize = 0;
        let mut found = false;
        while p < r.len() && !found
            invariant
                p <= r@.len(),
                sv == uentry_views(r@),
                xv == x@,
                forall|k: int| 0 <= k < p ==> !uentry_lt(xv, #[trigger] sv[k]),
                found ==> p < r@.len() && uentry_lt(xv, sv[p as int]),
            decreases r@.len() - p + (if found { 0int } else { 1int }),
        {
            assert(sv[p as int] == r@[p as int]@);
            let y = &r[p];
            if x.range.start < y.range.start || (x.range.start == y.range.start && text_less(&x.path, &y.path)) {
                found = true;
            } else {
                p = p + 1;
            }
        }
        proof {
            lemma_insert_uentry_at(sv, xv, p as int);
        }
        r.insert(p, x);
        assert(uentry_views(r@) =~= sv.insert(p as int, xv));
        assert(vv.take(i as int + 1).drop_last() =~= vv.take(i as int));
        i = i + 1;
    }
    assert(vv.take(n as int) =~= vv);
    r
}

fn check_overlap(es: &Vec<UnisocPacEntry>) -> (r: bool)
    ensures
        r == ranges_overlap(uentry_views(es@)),
{
    let ghost ev = uentry_views(es@);
    let n = es.len();
    let mut i: usize = 0;
    while i < n
        invariant
            i <= n == es@.len(),
            ev == uentry_views(es@),
            forall|a: int, b: int|
                0 <= a < i && 0 <= b < n && a != b ==> !(range_le(ev[a].range, ev[b].range) && ev[a].range.end_exclusive
                    > ev[b].range.start),
        decreases n - i,
    {
        let mut j: usize = 0;
        while j < n
            invariant
                i < n == es@.len(),
                j <= n,
                ev == uentry_views(es@),
                forall|a: int, b: int|
                    0 <= a < i && 0 <= b < n && a != b ==> !(range_le(ev[a].range, ev[b].range)
                        && ev[a].range.end_exclusive > ev[b].range.start),
                forall|b: int|
                    0 <= b < j && i != b ==> !(range_le(ev[i as int].range, ev[b].range) && ev[i as int].range.end_exclusive
                        > ev[b].range.start),
            decreases n - j,
        {
            let a = es[i].range;
            let b = es[j].range;
            assert(ev[i as int].range == a && ev[j as int].range == b);
            if i != j && (a.start < b.start || (a.start == b.start && a.end_exclusive <= b.end_exclusive))
                && a.end_exclusive > b.start {
                assert(range_le(ev[i as int].range, ev[j as int].range));
                return true;
            }
            j = j + 1;
        }
        i = i + 1;
    }
    false
}

/// Validate untrusted PAC entries against the immutable source.
pub fn validate_unisoc_entries(
    source: &[u8],
    observations: &Vec<UnisocPacEntryObservation>,
    limits: C06Limits,
) -> (r: Result<Vec<UnisocPacEntry>, C06Error>)
    ensures
        match uentries_spec(observations@, source@, limits) {
            Ok(v) => r matches Ok(x) && uentry_views(x@) == v,
            Err(e) => r == Err::<Vec<UnisocPacEntry>, C06Error>(e),
        },
{
    let ghost os = observations@;
    let n = observations.len();
    if n > limits.max_entries {
        return Err(C06Error::TooManyEntries);
    }
    let source_size = source.len() as u64;
    let mut retained: Vec<UnisocPacEntry> = Vec::new();
    let mut i: usize = 0;
    assert(uentry_views(retained@) =~= os.take(0).map_values(|o: UnisocPacEntryObservation| uretained(o, source@)));
    while i < n
        invariant
            i <= n == observations@.len(),
            n <= limits.max_entries,
            os == observations@,
            source_size == source@.len(),
            uentries_fault(os, i as int, source@, limits) is None,
            uentry_views(retained@) == os.take(i as int).map_values(
                |o: UnisocPacEntryObservation| uretained(o, source@),
            ),
        decreases n - i,
    {
        let o = &observations[i];
        if let Err(f) = check_path06(o.path.as_str(), limits) {
            proof {
                lemma_ufault_persists(os, i as int, n as int, source@, limits);
            }
            return Err(f);
        }
        if check_optional06(&o.file_version, limits).is_err() {
            proof {
                lemma_ufault_persists(os, i as int, n as int, source@, limits);
            }
            return Err(C06Error::InvalidString);
        }
        if !digest_text_valid(&o.expected_sha256) {
            proof {
                lemma_ufault_persists(os, i as int, n as int, source@, limits);
            }
            return Err(C06Error::DigestMismatch);
        }
        let mut j: usize = 0;
        while j < i
            invariant
                j <= i < n == observations@.len(),
                os == observations@,
                n <= limits.max_entries,
                uentries_fault(os, i as int, source@, limits) is None,
                path_fault(os[i as int].path@, limits) is None,
                optional_text_ok(opt_view(os[i as int].file_version), limits),
                digest_text_ok(os[i as int].expected_sha256@),
                forall|q: int| 0 <= q < j ==> !((#[trigger] os[q]).file_id == os[i as int].file_id || os[q].path@
                    == os[i as int].path@),
            decreases i - j,
        {
            if observations[j].file_id == observations[i].file_id || observations[j].path == observations[i].path {
                assert(os[j as int].file_id == os[i as int].file_id || os[j as int].path@ == os[i as int].path@);
                proof {
                    lemma_ufault_persists(os, i as int, n as int, source@, limits);
                }
                return Err(C06Error::DuplicateEntry);
            }
            j = j + 1;
        }
        let end = match o.data_offset.checked_add(o.byte_size) {
            Some(e) => e,
            None => {
                proof {
                    lemma_ufault_persists(os, i as int, n as int, source@, limits);
                }
                return Err(C06Error::RangeOverflow);
            },
        };
        if end > source_size {
            proof {
                lemma_ufault_persists(os, i as int, n as int, source@, limits);
            }
            return Err(C06Error::RangeOutsideSource);
        }
        assert(o.data_offset <= end <= source@.len());
        assert(source@.len() == source.len());
        assert(end <= usize::MAX);
        let start_index = o.data_offset as usize;
        let end_index = end as usize;
        assert(start_index == o.data_offset && end_index == end);
        let slice = vstd::slice::slice_subrange(source, start_index, end_index);
        assert(slice@ == source@.subrange(o.data_offset as int, o.data_offset + o.byte_size));
        let actual = sha256_hex(slice);
        if actual != o.expected_sha256 {
            proof {
                lemma_ufault_persists(os, i as int, n as int, source@, limits);
            }
            return Err(C06Error::DigestMismatch);
        }
        let entry = UnisocPacEntry {
            file_id: o.file_id,
            path: o.path.clone(),
            file_version: copy_opt(&o.file_version),
            range: C06ByteRange { start: o.data_offset, end_exclusive: end },
            flags: o.flags,
            check_flag: o.check_flag,
            addresses: o.addresses,
            role: o.role,
            sha256: actual,
        };
        assert(entry@ == uretained(os[i as int], source@));
        let ghost before = uentry_views(retained@);
        retained.push(entry);
        assert(uentry_views(retained@) =~= before.push(entry@));
        assert(os.take(i as int + 1).map_values(|o: UnisocPacEntryObservation| uretained(o, source@))
            =~= os.take(i as int).map_values(|o: UnisocPacEntryObservation| uretained(o, source@)).push(
            uretained(os[i as int], source@),
        ));
        i = i + 1;
    }
    assert(os.take(n as int) =~= os);
    let sorted = sort_uentries_exec(&retained);
    if check_overlap(&sorted) {
        return Err(C06Error::OverlappingRanges);
    }
    Ok(sorted)
}


/// Loader evidence of the FDL entries, in entry order.
pub open spec fn loaders_of(es: Seq<UEntryView>) -> Seq<LoaderView>
    decreases es.len(),
{
    if es.len() == 0 {
        Seq::empty()
    } else {
        let e = es.last();
        if e.role == UnisocComponentRole::Fdl1 || e.role == UnisocComponentRole::Fdl2 {
            loaders_of(es.drop_last()).push((e.role, e.path, e.sha256, e.addresses[0]))
        } else {
            loaders_of(es.drop_last())
        }
    }
}

fn loaders_exec(entries: &Vec<UnisocPacEntry>) -> (r: Vec<UnisocLoaderEvidence>)
    ensures
        loader_views(r@) == loaders_of(uentry_views(entries@)),
{
    let ghost ev = uentry_views(entries@);
    let mut out: Vec<UnisocLoaderEvidence> = Vec::new();
    let mut i: usize = 0;
    assert(loader_views(out@) =~= loaders_of(ev.take(0)));
    while i < entries.len()
        invariant
            i <= entries@.len(),
            ev == uentry_views(entries@),
            loader_views(out@) == loaders_of(ev.take(i as int)),
        decreases entries.len() - i,
    {
        assert(ev.take(i as int + 1).drop_last() =~= ev.take(i as int));
        let e = &entries[i];
        assert(ev[i as int] == e@);
        let is_loader = match e.role {
            UnisocComponentRole::Fdl1 | UnisocComponentRole::Fdl2 => true,
            _ => false,
        };
        if is_loader {
            let l = UnisocLoaderEvidence {
                role: e.role,
                component_path: e.path.clone(),
                sha256: e.sha256.clone(),
                base_address: e.addresses[0],
                compatibility: C06TrustAssessment::NotEstablished,
            };
            let ghost before = loader_views(out@);
            out.push(l);
            assert(loader_views(out@) =~= before.push((l.role, l.component_path@, l.sha256@, l.base_address)));
        }
        i = i + 1;
    }
    assert(ev.take(ev.len() as int) =~= ev);
    out
}

/// Source-bound Unisoc PAC report.
#[derive(Debug)]
pub struct UnisocPacReport {
    /// Exact PAC object revision.
    pub source_revision_ref: EntityRef,
    /// Exact immutable PAC SHA-256.
    pub source_sha256: String,
    /// Exact immutable PAC byte size.
    pub source_size: u64,
    /// Mechanical provider alias.
    pub provider_alias: String,
    /// Optional product name.
    pub product_name: Option<String>,
    /// Optional product version.
    pub product_version: Option<String>,
    /// Optional product alias.
    pub product_alias: Option<String>,
    /// Structural PAC validation evidence.
    pub validation: UnisocPacValidationObservation,
    /// Validated PAC entries.
    pub entries: Vec<UnisocPacEntry>,
    /// FDL1/FDL2 static evidence only.
    pub loaders: Vec<UnisocLoaderEvidence>,
    /// Structural and semantic truth.
    pub assessment: C06Assessment,
    /// Device mutation or execution trust.
    pub trust: C06TrustAssessment,
    /// Mechanically earned static proof level.
    pub proof_level: Option<C06StaticProofLevel>,
    /// Explicit unsupported or incomplete boundaries.
    pub limitations: Vec<String>,
}

/// Abstract value of a PAC report.
pub ghost struct UnisocReportView {
    /// Source revision.
    pub source_revision: (Seq<char>, Seq<char>),
    /// Source digest text.
    pub source_sha256: Seq<char>,
    /// Source size.
    pub source_size: u64,
    /// Provider alias.
    pub alias: Seq<char>,
    /// Product name.
    pub product_name: Option<Seq<char>>,
    /// Product version.
    pub product_version: Option<Seq<char>>,
    /// Product alias.
    pub product_alias: Option<Seq<char>>,
    /// Validation evidence.
    pub validation: UnisocPacValidationObservation,
    /// Entries.
    pub entries: Seq<UEntryView>,
    /// Loader evidence.
    pub loaders: Seq<LoaderView>,
    /// Assessment.
    pub assessment: C06Assessment,
    /// Trust.
    pub trust: C06TrustAssessment,
    /// Proof level.
    pub proof_level: Option<C06StaticProofLevel>,
    /// Limitations.
    pub limitations: Seq<Seq<char>>,
}

impl View for UnisocPacReport {
    type V = UnisocReportView;

    open spec fn view(&self) -> UnisocReportView {
        UnisocReportView {
            source_revision: self.source_revision_ref@,
            source_sha256: self.source_sha256@,
            source_size: self.source_size,
            alias: self.provider_alias@,
            product_name: opt_view(self.product_name),
            product_version: opt_view(self.product_version),
            product_alias: opt_view(self.product_alias),
            validation: self.validation,
            entries: uentry_views(self.entries@),
            loaders: loader_views(self.loaders@),
            assessment: self.assessment,
            trust: self.trust,
            proof_level: self.proof_level,
            limitations: string_views(self.limitations@),
        }
    }
}

/// Limitations recorded for missing completeness and unvalidated structure.
pub open spec fn validation_limitations(
    lims: Seq<Seq<char>>,
    complete: bool,
    v: UnisocPacValidationObservation,
) -> Seq<Seq<char>> {
    let l1 = if !complete { lims.push("PAC Provider did not claim complete C06-supported semantics"@) } else { lims };
    let l2 = if !v.magic_validated {
        l1.push("PAC magic/header family was not independently validated by Provider"@)
    } else {
        l1
    };
    let l3 = if !v.header_crc_validated { l2.push("PAC header CRC/check semantics were not validated"@) } else { l2 };
    if !v.table_crc_validated {
        l3.push("PAC file-table CRC/check semantics were not validated"@)
    } else {
        l3
    }
}

/// The report of an observation from a provider named `alias` for `source`.
#[verifier::opaque]
pub open spec fn unisoc_resolution_spec(
    revision: (Seq<char>, Seq<char>),
    source: Seq<u8>,
    alias: Seq<char>,
    obs: UnisocPacObservation,
    limits: C06Limits,
) -> Result<UnisocReportView, C06Error> {
    if !optional_text_ok(opt_view(obs.product_name), limits) || !optional_text_ok(opt_view(obs.product_version), limits)
        || !optional_text_ok(opt_view(obs.product_alias), limits) || !limitations_text_ok(
        string_views(obs.limitations@),
        limits,
    ) {
        Err(C06Error::InvalidString)
    } else {
        match uentries_spec(obs.entries@, source, limits) {
            Err(e) => Err(e),
            Ok(es) => {
                let v = obs.validation;
                let checks = v.magic_validated && v.header_crc_validated && v.table_crc_validated;
                let lims = validation_limitations(string_views(obs.limitations@), obs.complete_claim, v);
                Ok(
                    UnisocReportView {
                        source_revision: revision,
                        source_sha256: sha256_hex_of(source),
                        source_size: source.len() as u64,
                        alias,
                        product_name: opt_view(obs.product_name),
                        product_version: opt_view(obs.product_version),
                        product_alias: opt_view(obs.product_alias),
                        validation: v,
                        entries: es,
                        loaders: loaders_of(es),
                        assessment: if obs.complete_claim && checks && lims.len() == 0 {
                            C06Assessment::Complete
                        } else {
                            C06Assessment::Partial
                        },
                        trust: C06TrustAssessment::NotEstablished,
                        proof_level: if checks {
                            Some(C06StaticProofLevel::StructureChecked)
                        } else if es.len() == 0 {
                            None
                        } else {
                            Some(C06StaticProofLevel::InventoryOnly)
                        },
                        limitations: lims,
                    },
                )
            },
        }
    }
}

/// The inspection of `source`, given the provider's alias and answer.
pub open spec fn unisoc_spec(
    context: C06Context,
    source: Seq<u8>,
    limits: C06Limits,
    alias: Seq<char>,
    answer: Result<UnisocPacObservation, String>,
) -> Result<UnisocReportView, C06Error> {
    match c06_context_fault(context) {
        Some(e) => Err(e),
        None => if !c06_limits_valid(limits) {
            Err(C06Error::InvalidLimits)
        } else if source.len() > limits.max_source_bytes {
            Err(C06Error::SourceTooLarge)
        } else if !text_ok(alias, limits) {
            Err(C06Error::InvalidString)
        } else {
            match answer {
                Err(msg) => Err(C06Error::UnisocProvider(msg)),
                Ok(obs) => unisoc_resolution_spec(context.source_revision_ref@, source, alias, obs, limits),
            }
        },
    }
}

/// Whether a result agrees with an expected result.
pub open spec fn unisoc_agrees(r: Result<UnisocPacReport, C06Error>, expected: Result<UnisocReportView, C06Error>) -> bool {
    match r {
        Ok(rep) => expected == Ok::<UnisocReportView, C06Error>(rep@),
        Err(e) => expected == Err::<UnisocReportView, C06Error>(e),
    }
}

/// Build the report from an observation of `source`.
pub fn unisoc_report_from(
    context: &C06Context,
    source: &[u8],
    alias: &str,
    obs: UnisocPacObservation,
    limits: C06Limits,
) -> (r: Result<UnisocPacReport, C06Error>)
    ensures
        unisoc_agrees(r, unisoc_resolution_spec(context.source_revision_ref@, source@, alias@, obs, limits)),
        r matches Ok(rep) ==> entries_within(rep@),
{
    reveal(unisoc_resolution_spec);
    if check_optional06(&obs.product_name, limits).is_err() || check_optional06(&obs.product_version, limits).is_err()
        || check_optional06(&obs.product_alias, limits).is_err() || check_limitations06(&obs.limitations, limits).is_err() {
        return Err(C06Error::InvalidString);
    }
    let entries = match validate_unisoc_entries(source, &obs.entries, limits) {
        Ok(x) => x,
        Err(e) => {
            return Err(e);
        },
    };
    proof {
        lemma_validated_entries_within(obs.entries@, source@, limits);
    }
    let loaders = loaders_exec(&entries);
    let v = obs.validation;
    let checks = v.magic_validated && v.header_crc_validated && v.table_crc_validated;
    let mut limitations = copy_strings(&obs.limitations);
    if !obs.complete_claim {
        push_string(&mut limitations, owned("PAC Provider did not claim complete C06-supported semantics"));
    }
    if !v.magic_validated {
        push_string(&mut limitations, owned("PAC magic/header family was not independently validated by Provider"));
    }
    if !v.header_crc_validated {
        push_string(&mut limitations, owned("PAC header CRC/check semantics were not validated"));
    }
    if !v.table_crc_validated {
        push_string(&mut limitations, owned("PAC file-table CRC/check semantics were not validated"));
    }
    let assessment = if obs.complete_claim && checks && limitations.len() == 0 {
        C06Assessment::Complete
    } else {
        C06Assessment::Partial
    };
    let proof_level = if checks {
        Some(C06StaticProofLevel::StructureChecked)
    } else if entries.len() == 0 {
        None
    } else {
        Some(C06StaticProofLevel::InventoryOnly)
    };
    Ok(
        UnisocPacReport {
            source_revision_ref: context.source_revision_ref.duplicate(),
            source_sha256: sha256_hex(source),
            source_size: source.len() as u64,
            provider_alias: owned(alias),
            product_name: copy_opt(&obs.product_name),
            product_version: copy_opt(&obs.product_version),
            product_alias: copy_opt(&obs.product_alias),
            validation: v,
            entries,
            loaders,
            assessment,
            trust: C06TrustAssessment::NotEstablished,
            proof_level,
            limitations,
        },
    )
}

/// Inspect one immutable Unisoc PAC source through a bounded mechanical parser provider. No
/// FDL payload is uploaded or executed. The result is `unisoc_spec` of the alias and answer the
/// provider gave, whatever they were.
pub fn inspect_unisoc_pac(
    source: &[u8],
    context: &C06Context,
    limits: C06Limits,
    provider: &dyn UnisocPacProvider,
) -> (r: Result<UnisocPacReport, C06Error>)
    ensures
        exists|alias: Seq<char>, answer: Result<UnisocPacObservation, String>|
            (c06_context_fault(*context) is None && c06_limits_valid(limits) && source@.len() <= limits.max_source_bytes
                ==> provider.id_post(alias) && (text_ok(alias, limits) ==> provider.inspect_post(source@, limits, answer)))
                && unisoc_agrees(
                r,
                #[trigger] unisoc_spec(*context, source@, limits, alias, answer),
            ),
        r matches Ok(rep) ==> entries_within(rep@),
{
    let ghost any_alias: Seq<char> = vstd::pervasive::arbitrary();
    let ghost any_answer: Result<UnisocPacObservation, String> = vstd::pervasive::arbitrary();
    if let Err(e) = validate_c06_context(context) {
        assert(unisoc_agrees(Err(e), unisoc_spec(*context, source@, limits, any_alias, any_answer)));
        return Err(e);
    }
    if let Err(e) = validate_c06_limits(limits) {
        assert(unisoc_agrees(Err(e), unisoc_spec(*context, source@, limits, any_alias, any_answer)));
        return Err(e);
    }
    if source.len() as u64 > limits.max_source_bytes {
        assert(unisoc_agrees(Err(C06Error::SourceTooLarge), unisoc_spec(*context, source@, limits, any_alias, any_answer)));
        return Err(C06Error::SourceTooLarge);
    }
    let id = provider.provider_id();
    if let Err(e) = check_text06(id, limits) {
        assert(unisoc_agrees(Err(e), unisoc_spec(*context, source@, limits, id@, any_answer)));
        return Err(e);
    }
    let answer = provider.inspect_pac(source, limits);
    let ghost ga = answer;
    let obs = match answer {
        Err(msg) => {
            assert(unisoc_agrees(Err(C06Error::UnisocProvider(msg)), unisoc_spec(*context, source@, limits, id@, ga)));
            return Err(C06Error::UnisocProvider(msg));
        },
        Ok(o) => o,
    };
    let r = unisoc_report_from(context, source, id, obs, limits);
    assert(unisoc_agrees(r, unisoc_spec(*context, source@, limits, id@, ga)));
    r
}


/// Index of the first entry whose path is `f`, if any.
pub open spec fn uentry_index(es: Seq<UEntryView>, f: Seq<char>) -> Option<int> {
    if exists|i: int| 0 <= i < es.len() && (#[trigger] es[i]).path == f {
        Some(choose|i: int| 0 <= i < es.len() && es[i].path == f && forall|j: int| 0 <= j < i ==> (#[trigger] es[j]).path != f)
    } else {
        None
    }
}

fn find_uentry(entries: &Vec<UnisocPacEntry>, f: &String) -> (r: Option<usize>)
    ensures
        match r {
            Some(k) => uentry_index(uentry_views(entries@), f@) == Some(k as int),
            None => uentry_index(uentry_views(entries@), f@) is None,
        },
        r matches Some(k) ==> k < entries@.len(),
{
    let ghost es = uentry_views(entries@);
    let mut k: usize = 0;
    while k < entries.len()
        invariant
            k <= entries@.len(),
            es == uentry_views(entries@),
            forall|j: int| 0 <= j < k ==> (#[trigger] es[j]).path != f@,
        decreases entries.len() - k,
    {
        assert(es[k as int] == entries@[k as int]@);
        if entries[k].path == *f {
            let ghost c = choose|i: int|
                0 <= i < es.len() && es[i].path == f@ && forall|j: int| 0 <= j < i ==> (#[trigger] es[j]).path != f@;
            assert(0 <= k < es.len() && es[k as int].path == f@);
            assert(c == k) by {
                if c < k {
                    assert(es[c].path != f@);
                } else if c > k {
                    assert(es[k as int].path != f@);
                }
            }
            return Some(k);
        }
        k = k + 1;
    }
    None
}

/// Exact embedded PAC child.
#[derive(Debug)]
pub struct UnisocMaterialization {
    /// Canonical PAC entry path.
    pub name: String,
    /// Exact PAC source revision.
    pub source_revision_ref: EntityRef,
    /// Exact child SHA-256.
    pub sha256: String,
    bytes: Vec<u8>,
}

impl UnisocMaterialization {
    /// The abstract value: name, source revision, digest and bytes.
    pub closed spec fn mat_view(&self) -> (Seq<char>, (Seq<char>, Seq<char>), Seq<char>, Seq<u8>) {
        (self.name@, self.source_revision_ref@, self.sha256@, self.bytes@)
    }

    /// Read-only exact embedded bytes.
    pub fn bytes(&self) -> (r: &[u8])
        ensures
            r@ == self.mat_view().3,
    {
        self.bytes.as_slice()
    }
}

/// Every entry of a report ends inside the reported source.
pub open spec fn entries_within(r: UnisocReportView) -> bool {
    forall|i: int| 0 <= i < r.entries.len() ==> (#[trigger] r.entries[i]).range.end_exclusive <= r.source_size
}

/// The materialization of `path` from a PAC report of `source`.
pub open spec fn unisoc_materialize_spec(
    source: Seq<u8>,
    report: UnisocReportView,
    path: Seq<char>,
    context: C06Context,
    limits: C06Limits,
) -> Result<(Seq<char>, (Seq<char>, Seq<char>), Seq<char>, Seq<u8>), C06Error> {
    match c06_context_fault(context) {
        Some(e) => Err(e),
        None => if !c06_limits_valid(limits) {
            Err(C06Error::InvalidLimits)
        } else {
            match path_fault(path, limits) {
                Some(e) => Err(e),
                None => if !source_bound(source, report.source_size, report.source_sha256, report.source_revision, context) {
                    Err(C06Error::SourceBindingMismatch)
                } else {
                    match uentry_index(report.entries, path) {
                        None => Err(C06Error::ChildNotFound),
                        Some(i) => {
                            let e = report.entries[i];
                            if e.range.end_exclusive < e.range.start {
                                Err(C06Error::RangeOverflow)
                            } else if e.range.end_exclusive - e.range.start > limits.max_materialized_bytes {
                                Err(C06Error::MaterializationTooLarge)
                            } else if sha256_hex_of(source.subrange(e.range.start as int, e.range.end_exclusive as int))
                                != e.sha256 {
                                Err(C06Error::ReportIntegrityMismatch)
                            } else {
                                Ok(
                                    (
                                        e.path,
                                        report.source_revision,
                                        e.sha256,
                                        source.subrange(e.range.start as int, e.range.end_exclusive as int),
                                    ),
                                )
                            }
                        },
                    }
                },
            }
        },
    }
}

/// Materialize one exact embedded PAC component.
#[verifier::rlimit(40)]
pub fn materialize_unisoc_component(
    source: &[u8],
    report: &UnisocPacReport,
    path: &str,
    context: &C06Context,
    limits: C06Limits,
) -> (r: Result<UnisocMaterialization, C06Error>)
    requires
        entries_within(report@),
    ensures
        match unisoc_materialize_spec(source@, report@, path@, *context, limits) {
            Ok(v) => r matches Ok(m) && m.mat_view() == v,
            Err(e) => r == Err::<UnisocMaterialization, C06Error>(e),
        },
{
    if let Err(e) = validate_c06_context(context) {
        return Err(e);
    }
    if let Err(e) = validate_c06_limits(limits) {
        return Err(e);
    }
    if let Err(e) = check_path06(path, limits) {
        return Err(e);
    }
    if !report.source_revision_ref.same_as(&context.source_revision_ref) || report.source_size != source.len() as u64
        || report.source_sha256 != sha256_hex(source) {
        return Err(C06Error::SourceBindingMismatch);
    }
    let p = owned(path);
    let i = match find_uentry(&report.entries, &p) {
        Some(i) => i,
        None => {
            return Err(C06Error::ChildNotFound);
        },
    };
    let entry = &report.entries[i];
    assert(report@.entries[i as int] == entry@);
    if entry.range.end_exclusive < entry.range.start {
        return Err(C06Error::RangeOverflow);
    }
    let size = entry.range.end_exclusive - entry.range.start;
    if size > limits.max_materialized_bytes {
        return Err(C06Error::MaterializationTooLarge);
    }
    assert(entry.range.end_exclusive <= source@.len());
    assert(source@.len() == source.len());
    let bytes = vstd::slice::slice_subrange(source, entry.range.start as usize, entry.range.end_exclusive as usize);
    if sha256_hex(bytes) != entry.sha256 {
        return Err(C06Error::ReportIntegrityMismatch);
    }
    Ok(
        UnisocMaterialization {
            name: entry.path.clone(),
            source_revision_ref: report.source_revision_ref.duplicate(),
            sha256: entry.sha256.clone(),
            bytes: vstd::slice::slice_to_vec(bytes),
        },
    )
}

/// Source-bound Unisoc comparison.
#[derive(Debug)]
pub struct UnisocComparison {
    /// Left source revision.
    pub left_source_revision_ref: EntityRef,
    /// Right source revision.
    pub right_source_revision_ref: EntityRef,
    /// Strongest mechanically established level.
    pub level: C06ComparisonLevel,
    /// Deterministic differences.
    pub differences: Vec<String>,
}

/// The package structure of a report: product claims, validation evidence and entries without
/// their digests.
pub open spec fn unisoc_shape(
    r: UnisocReportView,
) -> (Option<Seq<char>>, Option<Seq<char>>, Option<Seq<char>>, UnisocPacValidationObservation, Seq<UEntryView>) {
    (
        r.product_name,
        r.product_version,
        r.product_alias,
        r.validation,
        r.entries.map_values(|e: UEntryView| UEntryView { sha256: Seq::empty(), ..e }),
    )
}

/// The retained component identities: identifier, path, size and digest.
pub open spec fn unisoc_components(r: UnisocReportView) -> Seq<(u32, Seq<char>, int, Seq<char>)> {
    r.entries.map_values(|e: UEntryView| (e.file_id, e.path, e.range.end_exclusive - e.range.start, e.sha256))
}

/// The strongest comparison level of two PAC reports.
pub open spec fn unisoc_level_spec(l: UnisocReportView, r: UnisocReportView) -> C06ComparisonLevel {
    let shape_eq = unisoc_shape(l) == unisoc_shape(r);
    let comp_eq = unisoc_components(l) == unisoc_components(r);
    if shape_eq && l.source_sha256 == r.source_sha256 && l.source_size == r.source_size && comp_eq {
        C06ComparisonLevel::ByteExact
    } else if shape_eq && comp_eq {
        C06ComparisonLevel::ComponentExact
    } else if shape_eq {
        C06ComparisonLevel::StructureOnly
    } else {
        C06ComparisonLevel::Different
    }
}

/// The differences two PAC reports show.
pub open spec fn unisoc_differences_spec(l: UnisocReportView, r: UnisocReportView) -> Seq<Seq<char>> {
    if unisoc_shape(l) != unisoc_shape(r) {
        seq!["pac_structure_changed"@]
    } else if unisoc_components(l) != unisoc_components(r) {
        seq!["pac_component_bytes_changed"@]
    } else {
        Seq::empty()
    }
}

fn same_opt(a: &Option<String>, b: &Option<String>) -> (r: bool)
    ensures
        r == (opt_view(*a) == opt_view(*b)),
{
    match (a, b) {
        (Some(x), Some(y)) => *x == *y,
        (None, None) => true,
        _ => false,
    }
}

fn same_addresses(a: &[Option<u64>; 5], b: &[Option<u64>; 5]) -> (r: bool)
    ensures
        r == (a@ == b@),
{
    let mut k: usize = 0;
    while k < 5
        invariant
            k <= 5,
            a@.len() == 5,
            b@.len() == 5,
            forall|j: int| 0 <= j < k ==> a@[j] == b@[j],
        decreases 5 - k,
    {
        let x = a[k];
        let y = b[k];
        let same = match (x, y) {
            (Some(p), Some(q)) => p == q,
            (None, None) => true,
            _ => false,
        };
        if !same {
            assert(a@[k as int] != b@[k as int]);
            return false;
        }
        k = k + 1;
    }
    assert(a@ =~= b@);
    true
}

fn same_unisoc_entries(a: &Vec<UnisocPacEntry>, b: &Vec<UnisocPacEntry>) -> (r: (bool, bool))
    ensures
        r.0 == (uentry_views(a@).map_values(|e: UEntryView| UEntryView { sha256: Seq::empty(), ..e }) == uentry_views(
            b@,
        ).map_values(|e: UEntryView| UEntryView { sha256: Seq::empty(), ..e })),
        r.1 == (uentry_views(a@).map_values(
            |e: UEntryView| (e.file_id, e.path, e.range.end_exclusive - e.range.start, e.sha256),
        ) == uentry_views(b@).map_values(
            |e: UEntryView| (e.file_id, e.path, e.range.end_exclusive - e.range.start, e.sha256),
        )),
{
    let ghost sa = uentry_views(a@).map_values(|e: UEntryView| UEntryView { sha256: Seq::empty(), ..e });
    let ghost sb = uentry_views(b@).map_values(|e: UEntryView| UEntryView { sha256: Seq::empty(), ..e });
    let ghost ca = uentry_views(a@).map_values(
        |e: UEntryView| (e.file_id, e.path, e.range.end_exclusive - e.range.start, e.sha256),
    );
    let ghost cb = uentry_views(b@).map_values(
        |e: UEntryView| (e.file_id, e.path, e.range.end_exclusive - e.range.start, e.sha256),
    );
    if a.len() != b.len() {
        assert(sa.len() != sb.len() && ca.len() != cb.len());
        return (false, false);
    }
    let mut shape = true;
    let mut comp = true;
    let mut i: usize = 0;
    while i < a.len()
        invariant
            i <= a@.len() == b@.len(),
            sa == uentry_views(a@).map_values(|e: UEntryView| UEntryView { sha256: Seq::empty(), ..e }),
            sb == uentry_views(b@).map_values(|e: UEntryView| UEntryView { sha256: Seq::empty(), ..e }),
            ca == uentry_views(a@).map_values(
                |e: UEntryView| (e.file_id, e.path, e.range.end_exclusive - e.range.start, e.sha256),
            ),
            cb == uentry_views(b@).map_values(
                |e: UEntryView| (e.file_id, e.path, e.range.end_exclusive - e.range.start, e.sha256),
            ),
            shape == (forall|j: int| 0 <= j < i ==> sa[j] == sb[j]),
            comp == (forall|j: int| 0 <= j < i ==> ca[j] == cb[j]),
        decreases a.len() - i,
    {
        let x = &a[i];
        let y = &b[i];
        assert(uentry_views(a@)[i as int] == x@ && uentry_views(b@)[i as int] == y@);
        let this_shape = x.file_id == y.file_id && x.path == y.path && same_opt(&x.file_version, &y.file_version)
            && x.range == y.range && x.flags == y.flags && x.check_flag == y.check_flag && same_addresses(
            &x.addresses,
            &y.addresses,
        ) && x.role == y.role;
        let sx = x.range.end_exclusive as u128 + y.range.start as u128;
        let sy = y.range.end_exclusive as u128 + x.range.start as u128;
        let this_comp = x.file_id == y.file_id && x.path == y.path && sx == sy && x.sha256 == y.sha256;
        proof {
            if !this_shape {
                assert(sa[i as int] != sb[i as int]);
            } else {
                assert(sa[i as int] == sb[i as int]);
            }
            if !this_comp {
                assert(ca[i as int] != cb[i as int]);
            } else {
                assert(ca[i as int] == cb[i as int]);
            }
        }
        shape = shape && this_shape;
        comp = comp && this_comp;
        i = i + 1;
    }
    proof {
        if shape {
            assert(sa =~= sb);
        }
        if comp {
            assert(ca =~= cb);
        }
    }
    (shape, comp)
}

/// Compare two PAC reports without manufacturing FDL or device compatibility.
pub fn compare_unisoc_packages(left: &UnisocPacReport, right: &UnisocPacReport) -> (r: UnisocComparison)
    ensures
        r.left_source_revision_ref@ == left.source_revision_ref@,
        r.right_source_revision_ref@ == right.source_revision_ref@,
        r.level == unisoc_level_spec(left@, right@),
        string_views(r.differences@) == unisoc_differences_spec(left@, right@),
{
    let (entries_shape, comp_eq) = same_unisoc_entries(&left.entries, &right.entries);
    let shape_eq = entries_shape && same_opt(&left.product_name, &right.product_name) && same_opt(
        &left.product_version,
        &right.product_version,
    ) && same_opt(&left.product_alias, &right.product_alias) && left.validation == right.validation;
    let mut differences: Vec<String> = Vec::new();
    if !shape_eq {
        differences.push(owned("pac_structure_changed"));
    } else if !comp_eq {
        differences.push(owned("pac_component_bytes_changed"));
    }
    assert(string_views(differences@) =~= unisoc_differences_spec(left@, right@));
    let level = if shape_eq && left.source_sha256 == right.source_sha256 && left.source_size == right.source_size
        && comp_eq {
        C06ComparisonLevel::ByteExact
    } else if shape_eq && comp_eq {
        C06ComparisonLevel::ComponentExact
    } else if shape_eq {
        C06ComparisonLevel::StructureOnly
    } else {
        C06ComparisonLevel::Different
    };
    UnisocComparison {
        left_source_revision_ref: left.source_revision_ref.duplicate(),
        right_source_revision_ref: right.source_revision_ref.duplicate(),
        level,
        differences,
    }
}

/// A PAC report compared with itself is byte-exact with no differences.
pub proof fn lemma_unisoc_compare_reflexive(r: UnisocReportView)
    ensures
        unisoc_level_spec(r, r) == C06ComparisonLevel::ByteExact,
        unisoc_differences_spec(r, r) == Seq::<Seq<char>>::empty(),
{
}

/// Every validated PAC entry ends inside the source it was validated against.
pub proof fn lemma_validated_entries_within(os: Seq<UnisocPacEntryObservation>, source: Seq<u8>, limits: C06Limits)
    requires
        uentries_spec(os, source, limits) is Ok,
    ensures
        forall|i: int|
            0 <= i < uentries_spec(os, source, limits)->Ok_0.len() ==> (#[trigger] uentries_spec(
                os,
                source,
                limits,
            )->Ok_0[i]).range.end_exclusive <= source.len(),
{
    lemma_retained_within(os, source, limits, os.len() as int);
    let rs = os.map_values(|o: UnisocPacEntryObservation| uretained(o, source));
    lemma_sort_keeps(rs, source.len() as int);
}

proof fn lemma_retained_within(os: Seq<UnisocPacEntryObservation>, source: Seq<u8>, limits: C06Limits, k: int)
    requires
        0 <= k <= os.len(),
        uentries_fault(os, k, source, limits) is None,
    ensures
        forall|i: int| 0 <= i < k ==> (#[trigger] uretained(os[i], source)).range.end_exclusive <= source.len(),
    decreases k,
{
    if k > 0 {
        lemma_retained_within(os, source, limits, k - 1);
    }
}

proof fn lemma_insert_keeps(s: Seq<UEntryView>, x: UEntryView, bound: int)
    requires
        forall|i: int| 0 <= i < s.len() ==> (#[trigger] s[i]).range.end_exclusive <= bound,
        x.range.end_exclusive <= bound,
    ensures
        forall|i: int| 0 <= i < insert_uentry(s, x).len() ==> (#[trigger] insert_uentry(s, x)[i]).range.end_exclusive
            <= bound,
        insert_uentry(s, x).len() == s.len() + 1,
    decreases s.len(),
{
    if s.len() > 0 && !uentry_lt(x, s[0]) {
        lemma_insert_keeps(s.drop_first(), x, bound);
        let t = insert_uentry(s.drop_first(), x);
        assert forall|i: int| 0 <= i < insert_uentry(s, x).len() implies (#[trigger] insert_uentry(
            s,
            x,
        )[i]).range.end_exclusive <= bound by {
            if i > 0 {
                assert(insert_uentry(s, x)[i] == t[i - 1]);
            }
        }
    }
}

proof fn lemma_sort_keeps(s: Seq<UEntryView>, bound: int)
    requires
        forall|i: int| 0 <= i < s.len() ==> (#[trigger] s[i]).range.end_exclusive <= bound,
    ensures
        forall|i: int| 0 <= i < sort_uentries(s).len() ==> (#[trigger] sort_uentries(s)[i]).range.end_exclusive
            <= bound,
    decreases s.len(),
{
    if s.len() > 0 {
        lemma_sort_keeps(s.drop_last(), bound);
        lemma_insert_keeps(sort_uentries(s.drop_last()), s.last(), bound);
    }
}

} // verus!
