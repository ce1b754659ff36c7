//! Validation of untrusted MediaTek bundle observations: bounded, canonical, unique,
//! digest-checked entries retained in path order, and their linkage to scatter partitions.
use vstd::prelude::*;
use crate::digest::{sha256_hex, sha256_hex_of};
use crate::mediatek::{
    BundleEntryView, C05Error, MediatekBundleEntry, MediatekBundleEntryObservation, MediatekBundleObservation,
    MediatekLimits, MediatekPartition, PartitionView, bundle_entry_views, opt_view, partition_views,
};
use crate::mediatek_scatter::{bounded_string, bundle_path, bundle_path_fault, scatter_string_ok};
use crate::partition_map::{copy_strings, push_string, string_views};
use crate::text::{decimal, numbered_message, owned};
use crate::text_ops::{chars_of, contains_text, dedup_spec, dedup_strings};

verus! {

/// Abstract value of a bundle-entry observation: path, bytes and declared digest.
pub type ObsView = (Seq<char>, Seq<u8>, Seq<char>);

/// Views of bundle-entry observations.
pub open spec fn obs_views(es: Seq<MediatekBundleEntryObservation>) -> Seq<ObsView> {
    es.map_values(|e: MediatekBundleEntryObservation| (e.path@, e.recovered_bytes@, e.expected_sha256@))
}

/// A lowercase hexadecimal digit.
pub open spec fn lower_hex(c: char) -> bool {
    (48 <= (c as u32) <= 57) || (97 <= (c as u32) <= 102)
}

/// A well-formed lowercase SHA-256 text: 64 lowercase hexadecimal digits.
pub open spec fn digest_text_ok(s: Seq<char>) -> bool {
    s.len() == 64 && forall|i: int| 0 <= i < s.len() ==> lower_hex(#[trigger] s[i])
}

/// Total recovered bytes of the first `k` observations.
pub open spec fn bytes_total(es: Seq<ObsView>, k: int) -> int
    decreases k,
{
    if k <= 0 {
        0
    } else {
        bytes_total(es, k - 1) + es[k - 1].1.len()
    }
}

/// Whether an earlier observation than `i` has the path of observation `i`.
pub open spec fn earlier_path(es: Seq<ObsView>, i: int) -> bool {
    exists|j: int| 0 <= j < i && (#[trigger] es[j]).0 == es[i].0
}

/// The failure raised by observation `i`, given that none before it failed.
pub open spec fn entry_fault(es: Seq<ObsView>, i: int, limits: MediatekLimits) -> Option<C05Error> {
    let e = es[i];
    match bundle_path_fault(e.0, limits) {
        Some(f) => Some(f),
        None => if earlier_path(es, i) {
            Some(C05Error::DuplicateBundlePath)
        } else if !digest_text_ok(e.2) || sha256_hex_of(e.1) != e.2 {
            Some(C05Error::DigestMismatch)
        } else if bytes_total(es, i + 1) > u64::MAX {
            Some(C05Error::AccountingOverflow)
        } else if bytes_total(es, i + 1) > limits.max_recovered_bytes {
            Some(C05Error::TooManyRecoveredBytes)
        } else {
            None
        },
    }
}

/// The first failure among the first `k` observations.
pub open spec fn entries_fault(es: Seq<ObsView>, k: int, limits: MediatekLimits) -> Option<C05Error>
    decreases k,
{
    if k <= 0 {
        None
    } else {
        match entries_fault(es, k - 1, limits) {
            Some(e) => Some(e),
            None => entry_fault(es, k - 1, limits),
        }
    }
}

/// The retained value of a validated observation: path, size, recomputed digest and bytes.
pub open spec fn retained_view(e: ObsView) -> BundleEntryView {
    (e.0, e.1.len() as u64, sha256_hex_of(e.1), e.1)
}

/// Code-point lexicographic order of texts, which is the byte order of their UTF-8 encodings.
pub open spec fn text_lt(a: Seq<char>, b: Seq<char>) -> bool
    decreases a.len(),
{
    if a.len() == 0 {
        b.len() > 0
    } else if b.len() == 0 {
        false
    } else if a[0] != b[0] {
        (a[0] as u32) < (b[0] as u32)
    } else {
        text_lt(a.drop_first(), b.drop_first())
    }
}

/// Insert `x` before the first entry whose path it sorts before.
pub open spec fn insert_entry(s: Seq<BundleEntryView>, x: BundleEntryView) -> Seq<BundleEntryView>
    decreases s.len(),
{
    if s.len() == 0 {
        seq![x]
    } else if text_lt(x.0, s[0].0) {
        seq![x] + s
    } else {
        seq![s[0]] + insert_entry(s.drop_first(), x)
    }
}

/// Entries in ascending path order (stable).
pub open spec fn sort_entries(s: Seq<BundleEntryView>) -> Seq<BundleEntryView>
    decreases s.len(),
{
    if s.len() == 0 {
        Seq::empty()
    } else {
        insert_entry(sort_entries(s.drop_last()), s.last())
    }
}

/// An entry whose recorded size and digest are those of its bytes.
pub open spec fn bundle_entry_sound(e: BundleEntryView) -> bool {
    e.1 == e.3.len() as u64 && e.2 == sha256_hex_of(e.3)
}

/// An entry recovered from observations `es`: some observation has its path and exactly its
/// bytes.
pub open spec fn entry_from(es: Seq<ObsView>, e: BundleEntryView) -> bool {
    exists|j: int| 0 <= j < es.len() && (#[trigger] es[j]).0 == e.0 && es[j].1 == e.3
}

proof fn lemma_insert_entry_all(s: Seq<BundleEntryView>, x: BundleEntryView, pred: spec_fn(BundleEntryView) -> bool)
    requires
        forall|k: int| 0 <= k < s.len() ==> pred(#[trigger] s[k]),
        pred(x),
    ensures
        forall|k: int| 0 <= k < insert_entry(s, x).len() ==> pred(#[trigger] insert_entry(s, x)[k]),
    decreases s.len(),
{
    if s.len() == 0 {
        assert(insert_entry(s, x) =~= seq![x]);
    } else if text_lt(x.0, s[0].0) {
        let t = seq![x] + s;
        assert forall|k: int| 0 <= k < t.len() implies pred(#[trigger] t[k]) by {
            if k > 0 {
                assert(t[k] == s[k - 1]);
            }
        }
    } else {
        lemma_insert_entry_all(s.drop_first(), x, pred);
        let u = insert_entry(s.drop_first(), x);
        let t = seq![s[0]] + u;
        assert forall|k: int| 0 <= k < t.len() implies pred(#[trigger] t[k]) by {
            if k > 0 {
                assert(t[k] == u[k - 1]);
            }
        }
    }
}

proof fn lemma_sort_entries_all(s: Seq<BundleEntryView>, pred: spec_fn(BundleEntryView) -> bool)
    requires
        forall|k: int| 0 <= k < s.len() ==> pred(#[trigger] s[k]),
    ensures
        forall|k: int| 0 <= k < sort_entries(s).len() ==> pred(#[trigger] sort_entries(s)[k]),
    decreases s.len(),
{
    if s.len() > 0 {
        lemma_sort_entries_all(s.drop_last(), pred);
        lemma_insert_entry_all(sort_entries(s.drop_last()), s.last(), pred);
    }
}

/// Every retained bundle entry records the size and the SHA-256 digest of exactly its bytes, and
/// is, path and bytes, one the observations recovered.
pub proof fn lemma_bundle_entries_sound(
    es: Seq<ObsView>,
    complete: bool,
    lims: Seq<Seq<char>>,
    limits: MediatekLimits,
)
    ensures
        bundle_observation_spec(es, complete, lims, limits) matches Ok(v) ==> forall|k: int|
            0 <= k < v.0.len() ==> bundle_entry_sound(#[trigger] v.0[k]) && entry_from(es, v.0[k]),
{
    let m = es.map_values(|e: ObsView| retained_view(e));
    let pred = |e: BundleEntryView| bundle_entry_sound(e) && entry_from(es, e);
    assert forall|k: int| 0 <= k < m.len() implies pred(#[trigger] m[k]) by {
        assert(m[k] == retained_view(es[k]));
        assert(es[k].0 == m[k].0 && es[k].1 == m[k].3);
    }
    lemma_sort_entries_all(m, pred);
}

/// Every limitation is a bounded string.
pub open spec fn scatter_limitations_ok(values: Seq<Seq<char>>, limits: MediatekLimits) -> bool {
    forall|i: int| 0 <= i < values.len() ==> scatter_string_ok(#[trigger] values[i], limits)
}

/// The validated form of a bundle observation: retained entries in path order, the
/// completeness claim and the provider's limitations.
pub open spec fn bundle_observation_spec(
    es: Seq<ObsView>,
    complete: bool,
    lims: Seq<Seq<char>>,
    limits: MediatekLimits,
) -> Result<(Seq<BundleEntryView>, bool, Seq<Seq<char>>), C05Error> {
    if es.len() > limits.max_bundle_entries {
        Err(C05Error::TooManyEntries)
    } else if !scatter_limitations_ok(lims, limits) {
        Err(C05Error::InvalidString)
    } else {
        match entries_fault(es, es.len() as int, limits) {
            Some(e) => Err(e),
            None => Ok((sort_entries(es.map_values(|e: ObsView| retained_view(e))), complete, lims)),
        }
    }
}

/// Validate bounded text from a provider.
pub fn check_text(value: &str, limits: MediatekLimits) -> (r: Result<(), C05Error>)
    ensures
        r is Ok <==> scatter_string_ok(value@, limits),
        r matches Err(e) ==> e is InvalidString,
{
    let cs = chars_of(value);
    match bounded_string(&cs, limits) {
        Ok(_) => Ok(()),
        Err(_) => Err(C05Error::InvalidString),
    }
}

/// Validate every limitation.
pub fn check_limitations(values: &Vec<String>, limits: MediatekLimits) -> (r: Result<(), C05Error>)
    ensures
        r is Ok <==> scatter_limitations_ok(string_views(values@), limits),
        r matches Err(e) ==> e is InvalidString,
{
    let ghost sv = string_views(values@);
    let mut i: usize = 0;
    while i < values.len()
        invariant
            i <= values@.len(),
            sv == string_views(values@),
            forall|j: int| 0 <= j < i ==> scatter_string_ok(#[trigger] sv[j], limits),
        decreases values.len() - i,
    {
        assert(sv[i as int] == values@[i as int]@);
        if check_text(values[i].as_str(), limits).is_err() {
            return Err(C05Error::InvalidString);
        }
        i = i + 1;
    }
    Ok(())
}

/// Whether `value` is 64 lowercase hexadecimal digits.
pub fn digest_text_valid(value: &String) -> (r: bool)
    ensures
        r == digest_text_ok(value@),
{
    let cs = chars_of(value.as_str());
    if cs.len() != 64 {
        return false;
    }
    let mut i: usize = 0;
    while i < cs.len()
        invariant
            i <= cs@.len() == 64,
            cs@ == value@,
            forall|j: int| 0 <= j < i ==> lower_hex(#[trigger] cs@[j]),
        decreases cs.len() - i,
    {
        let n = cs[i] as u32;
        if !((48 <= n && n <= 57) || (97 <= n && n <= 102)) {
            assert(!lower_hex(cs@[i as int]));
            return false;
        }
        i = i + 1;
    }
    true
}

/// Whether `a` sorts strictly before `b`.
pub fn text_less(a: &String, b: &String) -> (r: bool)
    ensures
        r == text_lt(a@, b@),
{
    let x = chars_of(a.as_str());
    let y = chars_of(b.as_str());
    let mut k: usize = 0;
    assert(x@.skip(0) =~= x@ && y@.skip(0) =~= y@);
    while k < x.len() && k < y.len() && x[k] == y[k]
        invariant
            k <= x@.len(),
            k <= y@.len(),
            x@ == a@,
            y@ == b@,
            text_lt(a@, b@) == text_lt(x@.skip(k as int), y@.skip(k as int)),
        decreases x.len() - k,
    {
        assert(x@.skip(k as int).drop_first() =~= x@.skip(k as int + 1));
        assert(y@.skip(k as int).drop_first() =~= y@.skip(k as int + 1));
        k = k + 1;
    }
    if k == x.len() {
        k < y.len()
    } else if k == y.len() {
        false
    } else {
        assert(x@.skip(k as int)[0] == x@[k as int] && y@.skip(k as int)[0] == y@[k as int]);
        (x[k] as u32) < (y[k] as u32)
    }
}

proof fn lemma_insert_entry_at(s: Seq<BundleEntryView>, x: BundleEntryView, p: int)
    requires
        0 <= p <= s.len(),
        forall|k: int| 0 <= k < p ==> !text_lt(x.0, (#[trigger] s[k]).0),
        p < s.len() ==> text_lt(x.0, s[p].0),
    ensures
        insert_entry(s, x) == s.insert(p, x),
    decreases s.len(),
{
    if s.len() == 0 {
        assert(s.insert(p, x) =~= seq![x]);
    } else if p == 0 {
        assert(s.insert(0, x) =~= seq![x] + s);
    } else {
        assert forall|k: int| 0 <= k < p - 1 implies !text_lt(x.0, (#[trigger] s.drop_first()[k]).0) by {
            assert(s.drop_first()[k] == s[k + 1]);
        }
        lemma_insert_entry_at(s.drop_first(), x, p - 1);
        assert(s.insert(p, x) =~= seq![s[0]] + s.drop_first().insert(p - 1, x));
    }
}

/// Stable insertion sort of retained entries by path.
fn sort_by_path(v: Vec<MediatekBundleEntry>) -> (r: Vec<MediatekBundleEntry>)
    ensures
        bundle_entry_views(r@) == sort_entries(bundle_entry_views(v@)),
{
    let ghost vv = bundle_entry_views(v@);
    let mut r: Vec<MediatekBundleEntry> = Vec::new();
    let n = v.len();
    let mut i: usize = 0;
    assert(vv.take(0) =~= Seq::<BundleEntryView>::empty());
    assert(bundle_entry_views(r@) =~= Seq::<BundleEntryView>::empty());
    while i < n
        invariant
            n == v@.len(),
            vv == bundle_entry_views(v@),
            i <= n,
            bundle_entry_views(r@) == sort_entries(vv.take(i as int)),
        decreases n - i,
    {
        let x = v[i].duplicate();
        let ghost sv = bundle_entry_views(r@);
        let ghost xv = x.entry_view();
        assert(xv == vv[i as int]);
        let mut p: usize = 0;
        let mut found = false;
        while p < r.len() && !found
            invariant
                p <= r@.len(),
                sv == bundle_entry_views(r@),
                xv == x.entry_view(),
                forall|k: int| 0 <= k < p ==> !text_lt(xv.0, (#[trigger] sv[k]).0),
                found ==> p < r@.len() && text_lt(xv.0, sv[p as int].0),
            decreases r@.len() - p + (if found { 0int } else { 1int }),
        {
            assert(sv[p as int] == r@[p as int].entry_view());
            if text_less(x.path_text(), r[p].path_text()) {
                found = true;
            } else {
                p = p + 1;
            }
        }
        proof {
            lemma_insert_entry_at(sv, xv, p as int);
        }
        r.insert(p, x);
        assert(bundle_entry_views(r@) =~= sv.insert(p as int, xv));
        assert(vv.take(i as int + 1).drop_last() =~= vv.take(i as int));
        i = i + 1;
    }
    assert(vv.take(n as int) =~= vv);
    r
}

proof fn lemma_fault_persists(es: Seq<ObsView>, i: int, k: int, limits: MediatekLimits)
    requires
        0 <= i < k,
        entries_fault(es, i, limits) is None,
        entry_fault(es, i, limits) is Some,
    ensures
        entries_fault(es, k, limits) == entry_fault(es, i, limits),
    decreases k,
{
    if k > i + 1 {
        lemma_fault_persists(es, i, k - 1, limits);
    }
}

/// Validate an untrusted bundle observation: bounded count and limitations; each entry with a
/// canonical unique path, a well-formed declared digest equal to the digest of its bytes, and a
/// bounded running byte total; retained entries sorted by path.
pub fn validate_bundle_observation(obs: &MediatekBundleObservation, limits: MediatekLimits) -> (r: Result<
    (Vec<MediatekBundleEntry>, bool, Vec<String>),
    C05Error,
>)
    ensures
        match bundle_observation_spec(
            obs_views(obs.entries@),
            obs.complete_claim,
            string_views(obs.limitations@),
            limits,
        ) {
            Ok(v) => r matches Ok(x) && bundle_entry_views(x.0@) == v.0 && x.1 == v.1 && string_views(x.2@) == v.2,
            Err(e) => r == Err::<(Vec<MediatekBundleEntry>, bool, Vec<String>), C05Error>(e),
        },
{
    let ghost es = obs_views(obs.entries@);
    let n = obs.entries.len();
    if n > limits.max_bundle_entries {
        return Err(C05Error::TooManyEntries);
    }
    if let Err(e) = check_limitations(&obs.limitations, limits) {
        return Err(e);
    }
    let mut retained: Vec<MediatekBundleEntry> = Vec::new();
    let mut total: u64 = 0;
    let mut i: usize = 0;
    assert(bundle_entry_views(retained@) =~= es.take(0).map_values(|e: ObsView| retained_view(e)));
    while i < n
        invariant
            i <= n == obs.entries@.len(),
            n <= limits.max_bundle_entries,
            scatter_limitations_ok(string_views(obs.limitations@), limits),
            es == obs_views(obs.entries@),
            entries_fault(es, i as int, limits) is None,
            total == bytes_total(es, i as int),
            bundle_entry_views(retained@) == es.take(i as int).map_values(|e: ObsView| retained_view(e)),
        decreases n - i,
    {
        let e = &obs.entries[i];
        assert(es[i as int] == (e.path@, e.recovered_bytes@, e.expected_sha256@));
        let pcs = chars_of(e.path.as_str());
        match bundle_path(&pcs, limits) {
            Ok(_) => {},
            Err(f) => {
                proof {
                    lemma_fault_persists(es, i as int, n as int, limits);
                }
                return Err(f);
            },
        }
        let mut j: usize = 0;
        while j < i
            invariant
                j <= i < n == obs.entries@.len(),
                es == obs_views(obs.entries@),
                n <= limits.max_bundle_entries,
                scatter_limitations_ok(string_views(obs.limitations@), limits),
                entries_fault(es, i as int, limits) is None,
                bundle_path_fault(es[i as int].0, limits) is None,
                forall|q: int| 0 <= q < j ==> (#[trigger] es[q]).0 != es[i as int].0,
            decreases i - j,
        {
            assert(es[j as int].0 == obs.entries@[j as int].path@);
            if obs.entries[j].path == obs.entries[i].path {
                assert(earlier_path(es, i as int));
                proof {
                    lemma_fault_persists(es, i as int, n as int, limits);
                }
                return Err(C05Error::DuplicateBundlePath);
            }
            j = j + 1;
        }
        assert(!earlier_path(es, i as int));
        if !digest_text_valid(&e.expected_sha256) {
            proof {
                lemma_fault_persists(es, i as int, n as int, limits);
            }
            return Err(C05Error::DigestMismatch);
        }
        let actual = sha256_hex(e.recovered_bytes.as_slice());
        if actual != e.expected_sha256 {
            proof {
                lemma_fault_persists(es, i as int, n as int, limits);
            }
            return Err(C05Error::DigestMismatch);
        }
        let size = e.recovered_bytes.len() as u64;
        let t = total.checked_add(size);
        if t.is_none() {
            proof {
                lemma_fault_persists(es, i as int, n as int, limits);
            }
            return Err(C05Error::AccountingOverflow);
        }
        let t = t.unwrap();
        if t > limits.max_recovered_bytes {
            proof {
                lemma_fault_persists(es, i as int, n as int, limits);
            }
            return Err(C05Error::TooManyRecoveredBytes);
        }
        total = t;
        let entry = MediatekBundleEntry::from_parts(e.path.clone(), size, actual, e.recovered_bytes.clone());
        let ghost before = bundle_entry_views(retained@);
        retained.push(entry);
        assert(bundle_entry_views(retained@) =~= before.push(entry.entry_view()));
        assert(es.take(i as int + 1).map_values(|e: ObsView| retained_view(e)) =~= es.take(i as int).map_values(
            |e: ObsView| retained_view(e),
        ).push(retained_view(es[i as int])));
        i = i + 1;
    }
    assert(es.take(n as int) =~= es);
    let sorted = sort_by_path(retained);
    Ok((sorted, obs.complete_claim, copy_strings(&obs.limitations)))
}


/// Index of the first entry whose path is `f`, if any.
pub open spec fn entry_index(es: Seq<BundleEntryView>, f: Seq<char>) -> Option<int> {
    if exists|i: int| 0 <= i < es.len() && (#[trigger] es[i]).0 == f {
        Some(choose|i: int| 0 <= i < es.len() && es[i].0 == f && forall|j: int| 0 <= j < i ==> (#[trigger] es[j]).0 != f)
    } else {
        None
    }
}

/// A partition with the size and digest of the bundle entry its file name resolves to.
pub open spec fn link_partition(p: PartitionView, es: Seq<BundleEntryView>) -> PartitionView {
    match p.file_name {
        Some(f) => match entry_index(es, f) {
            Some(i) => PartitionView { linked_size: Some(es[i].1), linked_sha256: Some(es[i].2), ..p },
            None => p,
        },
        None => p,
    }
}

/// Every partition linked to the bundle entries.
pub open spec fn link_all(ps: Seq<PartitionView>, es: Seq<BundleEntryView>) -> Seq<PartitionView> {
    ps.map_values(|p: PartitionView| link_partition(p, es))
}

/// Index of the first entry whose path is `f`.
pub fn find_entry(entries: &Vec<MediatekBundleEntry>, f: &String) -> (r: Option<usize>)
    ensures
        match r {
            Some(k) => entry_index(bundle_entry_views(entries@), f@) == Some(k as int),
            None => entry_index(bundle_entry_views(entries@), f@) is None,
        },
        r matches Some(k) ==> k < entries@.len(),
{
    let ghost es = bundle_entry_views(entries@);
    let mut k: usize = 0;
    while k < entries.len()
        invariant
            k <= entries@.len(),
            es == bundle_entry_views(entries@),
            forall|j: int| 0 <= j < k ==> (#[trigger] es[j]).0 != f@,
        decreases entries.len() - k,
    {
        assert(es[k as int] == entries@[k as int].entry_view());
        let pk: &String = entries[k].path_text();
        if *pk == *f {
            let ghost c = choose|i: int|
                0 <= i < es.len() && es[i].0 == f@ && forall|j: int| 0 <= j < i ==> (#[trigger] es[j]).0 != f@;
            assert(0 <= k < es.len() && es[k as int].0 == f@);
            assert(c == k) by {
                if c < k {
                    assert(es[c].0 != f@);
                } else if c > k {
                    assert(es[k as int].0 != f@);
                }
            }
            return Some(k);
        }
        k = k + 1;
    }
    None
}

/// Copy of a partition relationship.
pub fn copy_partition(p: &MediatekPartition) -> (r: MediatekPartition)
    ensures
        r@ == p@,
{
    MediatekPartition {
        partition_index: p.partition_index.clone(),
        partition_name: p.partition_name.clone(),
        file_name: match &p.file_name {
            Some(f) => Some(f.clone()),
            None => None,
        },
        is_download: p.is_download,
        image_type: p.image_type.clone(),
        linear_range: p.linear_range,
        physical_range: p.physical_range,
        region: p.region.clone(),
        storage: p.storage.clone(),
        linked_component_size: p.linked_component_size,
        linked_component_sha256: match &p.linked_component_sha256 {
            Some(d) => Some(d.clone()),
            None => None,
        },
    }
}

/// Record, on each partition whose file name resolves to a bundle entry, that entry's size and
/// digest.
pub fn link_partition_components(partitions: &Vec<MediatekPartition>, entries: &Vec<MediatekBundleEntry>) -> (r: Vec<
    MediatekPartition,
>)
    ensures
        partition_views(r@) == link_all(partition_views(partitions@), bundle_entry_views(entries@)),
{
    let ghost pv = partition_views(partitions@);
    let ghost es = bundle_entry_views(entries@);
    let mut out: Vec<MediatekPartition> = Vec::new();
    let mut i: usize = 0;
    while i < partitions.len()
        invariant
            i <= partitions@.len(),
            pv == partition_views(partitions@),
            es == bundle_entry_views(entries@),
            partition_views(out@) == link_all(pv.take(i as int), es),
        decreases partitions.len() - i,
    {
        let mut p = copy_partition(&partitions[i]);
        assert(p@ == pv[i as int]);
        let found = match &p.file_name {
            Some(f) => find_entry(entries, f),
            None => None,
        };
        match found {
            Some(k) => {
                assert(es[k as int] == entries@[k as int].entry_view());
                p.linked_component_size = Some(entries[k].size());
                p.linked_component_sha256 = Some(entries[k].digest_text().clone());
            },
            None => {},
        }
        assert(p@ == link_partition(pv[i as int], es));
        let ghost before = partition_views(out@);
        out.push(p);
        assert(partition_views(out@) =~= before.push(p@));
        assert(link_all(pv.take(i as int + 1), es) =~= link_all(pv.take(i as int), es).push(
            link_partition(pv[i as int], es),
        ));
        i = i + 1;
    }
    assert(pv.take(pv.len() as int) =~= pv);
    out
}

/// Referenced sibling paths of partitions, in order, with repeats.
pub open spec fn file_names(ps: Seq<PartitionView>) -> Seq<Seq<char>>
    decreases ps.len(),
{
    if ps.len() == 0 {
        Seq::empty()
    } else {
        match ps.last().file_name {
            Some(f) => file_names(ps.drop_last()).push(f),
            None => file_names(ps.drop_last()),
        }
    }
}

/// Distinct referenced sibling paths, in order of first reference.
pub open spec fn referenced_spec(ps: Seq<PartitionView>) -> Seq<Seq<char>> {
    dedup_spec(file_names(ps))
}

/// Distinct referenced sibling paths, in order of first reference.
pub fn referenced_paths(partitions: &Vec<MediatekPartition>) -> (r: Vec<String>)
    ensures
        string_views(r@) == referenced_spec(partition_views(partitions@)),
{
    let ghost pv = partition_views(partitions@);
    let mut names: Vec<String> = Vec::new();
    let mut i: usize = 0;
    assert(string_views(names@) =~= file_names(pv.take(0)));
    while i < partitions.len()
        invariant
            i <= partitions@.len(),
            pv == partition_views(partitions@),
            string_views(names@) == file_names(pv.take(i as int)),
        decreases partitions.len() - i,
    {
        assert(pv.take(i as int + 1).drop_last() =~= pv.take(i as int));
        assert(pv[i as int] == partitions@[i as int]@);
        match &partitions[i].file_name {
            Some(f) => push_string(&mut names, f.clone()),
            None => {},
        }
        i = i + 1;
    }
    assert(pv.take(pv.len() as int) =~= pv);
    dedup_strings(&mut names);
    names
}

/// Number of referenced paths that no bundle entry resolves.
pub open spec fn unresolved_count(refs: Seq<Seq<char>>, es: Seq<BundleEntryView>) -> nat
    decreases refs.len(),
{
    if refs.len() == 0 {
        0
    } else {
        unresolved_count(refs.drop_last(), es) + (if entry_index(es, refs.last()) is None {
            1nat
        } else {
            0nat
        })
    }
}

/// Note recorded when sibling components are referenced but no bundle provider was supplied.
pub open spec fn no_bundle_note() -> Seq<char> {
    "scatter references sibling components but no MediaTek bundle Provider was supplied"@
}

/// Note recorded when the bundle provider did not claim a complete inventory.
pub open spec fn incomplete_bundle_note() -> Seq<char> {
    "bundle Provider did not claim complete C05-supported inventory"@
}

/// Note recorded when referenced components stay unresolved.
pub open spec fn unresolved_note(n: nat) -> Seq<char> {
    decimal(n) + " scatter-referenced bundle component(s) unresolved"@
}

/// Resolved bundle state for a report.
pub struct BundleResolution {
    /// Backend-local provider alias when one was used.
    pub provider_alias: Option<String>,
    /// Retained entries in path order.
    pub entries: Vec<MediatekBundleEntry>,
    /// Every referenced component resolved under a complete inventory.
    pub linked: bool,
    /// Some supported bundle semantics remain unestablished.
    pub partial: bool,
    /// Explicit limitations.
    pub limitations: Vec<String>,
}

/// Abstract value of a bundle resolution.
pub ghost struct BundleResolutionView {
    /// Provider alias.
    pub alias: Option<Seq<char>>,
    /// Retained entries.
    pub entries: Seq<BundleEntryView>,
    /// Linked flag.
    pub linked: bool,
    /// Partial flag.
    pub partial: bool,
    /// Limitations.
    pub limitations: Seq<Seq<char>>,
}

impl View for BundleResolution {
    type V = BundleResolutionView;

    open spec fn view(&self) -> BundleResolutionView {
        BundleResolutionView {
            alias: opt_view(self.provider_alias),
            entries: bundle_entry_views(self.entries@),
            linked: self.linked,
            partial: self.partial,
            limitations: string_views(self.limitations@),
        }
    }
}

/// Resolution when no sibling component is referenced.
pub open spec fn unreferenced_resolution() -> BundleResolutionView {
    BundleResolutionView { alias: None, entries: Seq::empty(), linked: true, partial: false, limitations: Seq::empty() }
}

/// Resolution when components are referenced but no provider was supplied.
pub open spec fn unprovided_resolution() -> BundleResolutionView {
    BundleResolutionView {
        alias: None,
        entries: Seq::empty(),
        linked: false,
        partial: true,
        limitations: seq![no_bundle_note()],
    }
}

/// Resolution from a validated observation of a provider named `alias`.
pub open spec fn observed_resolution(
    refs: Seq<Seq<char>>,
    alias: Seq<char>,
    es: Seq<BundleEntryView>,
    complete: bool,
    lims: Seq<Seq<char>>,
) -> BundleResolutionView {
    let unresolved = unresolved_count(refs, es);
    let l1 = if !complete { lims.push(incomplete_bundle_note()) } else { lims };
    let l2 = if unresolved != 0 { l1.push(unresolved_note(unresolved)) } else { l1 };
    BundleResolutionView {
        alias: Some(alias),
        entries: es,
        linked: complete && unresolved == 0,
        partial: !complete || unresolved != 0,
        limitations: l2,
    }
}

/// The bundle resolution for referenced paths `refs` from a provider named `alias` whose answer
/// was `answer`.
pub open spec fn bundle_answer_spec(
    refs: Seq<Seq<char>>,
    alias: Seq<char>,
    answer: Result<MediatekBundleObservation, String>,
    limits: MediatekLimits,
) -> Result<BundleResolutionView, C05Error> {
    match answer {
        Err(msg) => Err(C05Error::BundleProvider(msg)),
        Ok(obs) => match bundle_observation_spec(
            obs_views(obs.entries@),
            obs.complete_claim,
            string_views(obs.limitations@),
            limits,
        ) {
            Err(e) => Err(e),
            Ok(v) => Ok(observed_resolution(refs, alias, v.0, v.1, v.2)),
        },
    }
}

fn count_unresolved(refs: &Vec<String>, entries: &Vec<MediatekBundleEntry>) -> (r: u64)
    ensures
        r == unresolved_count(string_views(refs@), bundle_entry_views(entries@)),
{
    let ghost rv = string_views(refs@);
    let ghost es = bundle_entry_views(entries@);
    let mut n: u64 = 0;
    let mut i: usize = 0;
    assert(rv.take(0) =~= Seq::<Seq<char>>::empty());
    while i < refs.len()
        invariant
            i <= refs@.len(),
            rv == string_views(refs@),
            es == bundle_entry_views(entries@),
            n == unresolved_count(rv.take(i as int), es),
            n <= i,
        decreases refs.len() - i,
    {
        assert(rv.take(i as int + 1).drop_last() =~= rv.take(i as int));
        assert(rv[i as int] == refs@[i as int]@);
        if find_entry(entries, &refs[i]).is_none() {
            n = n + 1;
        }
        i = i + 1;
    }
    assert(rv.take(rv.len() as int) =~= rv);
    n
}

/// The bundle resolution from a provider's answer: the answer's failure, the observation's
/// validation failure, or the validated entries with completeness, linkage and limitations.
pub fn bundle_from_answer(
    refs: &Vec<String>,
    alias: &str,
    answer: Result<MediatekBundleObservation, String>,
    limits: MediatekLimits,
) -> (r: Result<BundleResolution, C05Error>)
    ensures
        match bundle_answer_spec(string_views(refs@), alias@, answer, limits) {
            Ok(v) => r matches Ok(b) && b@ == v,
            Err(e) => r == Err::<BundleResolution, C05Error>(e),
        },
{
    let obs = match answer {
        Err(msg) => {
            return Err(C05Error::BundleProvider(msg));
        },
        Ok(o) => o,
    };
    let (entries, complete, mut limitations) = match validate_bundle_observation(&obs, limits) {
        Ok(x) => x,
        Err(e) => {
            return Err(e);
        },
    };
    let unresolved = count_unresolved(refs, &entries);
    if !complete {
        push_string(&mut limitations, owned("bundle Provider did not claim complete C05-supported inventory"));
    }
    if unresolved != 0 {
        push_string(
            &mut limitations,
            numbered_message("", unresolved, " scatter-referenced bundle component(s) unresolved"),
        );
        proof {
            reveal_strlit("");
            assert(""@ + decimal(unresolved as nat) + " scatter-referenced bundle component(s) unresolved"@
                =~= unresolved_note(unresolved as nat));
        }
    }
    Ok(
        BundleResolution {
            provider_alias: Some(owned(alias)),
            entries,
            linked: complete && unresolved == 0,
            partial: !complete || unresolved != 0,
            limitations,
        },
    )
}

/// Resolution when no sibling component is referenced.
pub fn unreferenced_bundle() -> (r: BundleResolution)
    ensures
        r@ == unreferenced_resolution(),
{
    let r = BundleResolution {
        provider_alias: None,
        entries: Vec::new(),
        linked: true,
        partial: false,
        limitations: Vec::new(),
    };
    assert(bundle_entry_views(r.entries@) =~= Seq::<BundleEntryView>::empty());
    assert(string_views(r.limitations@) =~= Seq::<Seq<char>>::empty());
    r
}

/// Resolution when components are referenced but no provider was supplied.
pub fn unprovided_bundle() -> (r: BundleResolution)
    ensures
        r@ == unprovided_resolution(),
{
    let mut limitations: Vec<String> = Vec::new();
    push_string(
        &mut limitations,
        owned("scatter references sibling components but no MediaTek bundle Provider was supplied"),
    );
    assert(string_views(limitations@) =~= seq![no_bundle_note()]);
    let r = BundleResolution { provider_alias: None, entries: Vec::new(), linked: false, partial: true, limitations };
    assert(bundle_entry_views(r.entries@) =~= Seq::<BundleEntryView>::empty());
    r
}

} // verus!
