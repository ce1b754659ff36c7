//! Validation of untrusted Apple build-manifest and restore-manifest observations: bounded
//! strings, canonical component paths, unique component names, and resolution of each
//! referenced path to an exact retained archive entry.
use vstd::prelude::*;
use crate::apple::{
    AppleArchiveEntry, AppleEntryView, AppleFirmwareLimits, AppleManifest, AppleManifestComponent,
    AppleManifestObservation, AppleManifestView, C04Error, ManifestComponentView, apple_entry_views,
    manifest_component_views,
};
use crate::apple_archive::{
    apple_limitations_ok, apple_optional_ok, apple_text_ok, archive_path_fault, check_apple_limitations,
    check_apple_optional, check_apple_text, check_archive_path,
};
use crate::mediatek::opt_view;
use crate::mediatek_bundle::{text_less, text_lt};
use crate::partition_map::{copy_strings, push_string, string_views};
use crate::text::owned;

verus! {

/// Abstract value of a manifest observation: build identity, product version, component
/// (name, path) references, completeness claim and limitations.
pub type ManifestObsView = (Option<Seq<char>>, Option<Seq<char>>, Seq<(Seq<char>, Seq<char>)>, bool, Seq<Seq<char>>);

/// The abstract value of a manifest observation.
pub open spec fn manifest_obs_view(o: AppleManifestObservation) -> ManifestObsView {
    (
        opt_view(o.build_id),
        opt_view(o.product_version),
        o.components@.map_values(|c: crate::apple::AppleManifestComponentObservation| (c.name@, c.path@)),
        o.complete_claim,
        string_views(o.limitations@),
    )
}

/// Insert `x` before the first element whose key it sorts before.
pub open spec fn insert_keyed<T>(s: Seq<T>, x: T, key: spec_fn(T) -> Seq<char>) -> Seq<T>
    decreases s.len(),
{
    if s.len() == 0 {
        seq![x]
    } else if text_lt(key(x), key(s[0])) {
        seq![x] + s
    } else {
        seq![s[0]] + insert_keyed(s.drop_first(), x, key)
    }
}

/// Elements in ascending key order (stable).
pub open spec fn sort_keyed<T>(s: Seq<T>, key: spec_fn(T) -> Seq<char>) -> Seq<T>
    decreases s.len(),
{
    if s.len() == 0 {
        Seq::empty()
    } else {
        insert_keyed(sort_keyed(s.drop_last(), key), s.last(), key)
    }
}

/// The component name as sort key.
pub open spec fn by_name() -> spec_fn(ManifestComponentView) -> Seq<char> {
    |c: ManifestComponentView| c.0
}

/// A text as its own sort key.
pub open spec fn by_text() -> spec_fn(Seq<char>) -> Seq<char> {
    |t: Seq<char>| t
}

proof fn lemma_insert_keyed_at<T>(s: Seq<T>, x: T, key: spec_fn(T) -> Seq<char>, p: int)
    requires
        0 <= p <= s.len(),
        forall|k: int| 0 <= k < p ==> !text_lt(key(x), key(#[trigger] s[k])),
        p < s.len() ==> text_lt(key(x), key(s[p])),
    ensures
        insert_keyed(s, x, key) == s.insert(p, x),
    decreases s.len(),
{
    if s.len() == 0 {
        assert(s.insert(p, x) =~= seq![x]);
    } else if p == 0 {
        assert(s.insert(0, x) =~= seq![x] + s);
    } else {
        assert forall|k: int| 0 <= k < p - 1 implies !text_lt(key(x), key(#[trigger] s.drop_first()[k])) by {
            assert(s.drop_first()[k] == s[k + 1]);
        }
        lemma_insert_keyed_at(s.drop_first(), x, key, p - 1);
        assert(s.insert(p, x) =~= seq![s[0]] + s.drop_first().insert(p - 1, x));
    }
}

fn copy_component(c: &AppleManifestComponent) -> (r: AppleManifestComponent)
    ensures
        manifest_component_views(seq![r]) == manifest_component_views(seq![*c]),
{
    let r = AppleManifestComponent {
        name: c.name.clone(),
        path: c.path.clone(),
        entry_sha256: c.entry_sha256.clone(),
        byte_size: c.byte_size,
    };
    assert(manifest_component_views(seq![r]) =~= manifest_component_views(seq![*c]));
    r
}

/// Stable insertion sort of resolved components by name.
fn sort_components(v: Vec<AppleManifestComponent>) -> (r: Vec<AppleManifestComponent>)
    ensures
        manifest_component_views(r@) == sort_keyed(manifest_component_views(v@), by_name()),
{
    let ghost vv = manifest_component_views(v@);
    let mut r: Vec<AppleManifestComponent> = Vec::new();
    let n = v.len();
    let mut i: usize = 0;
    assert(vv.take(0) =~= Seq::<ManifestComponentView>::empty());
    assert(manifest_component_views(r@) =~= Seq::<ManifestComponentView>::empty());
    while i < n
        invariant
            n == v@.len(),
            vv == manifest_component_views(v@),
            i <= n,
            manifest_component_views(r@) == sort_keyed(vv.take(i as int), by_name()),
        decreases n - i,
    {
        let x = copy_component(&v[i]);
        let ghost sv = manifest_component_views(r@);
        let ghost xv = manifest_component_views(seq![x])[0];
        assert(xv == vv[i as int]);
        let mut p: usize = 0;
        let mut found = false;
        while p < r.len() && !found
            invariant
                p <= r@.len(),
                sv == manifest_component_views(r@),
                xv == (x.name@, x.path@, x.entry_sha256@, x.byte_size),
                forall|k: int| 0 <= k < p ==> !text_lt(by_name()(xv), by_name()(#[trigger] sv[k])),
                found ==> p < r@.len() && text_lt(by_name()(xv), by_name()(sv[p as int])),
            decreases r@.len() - p + (if found { 0int } else { 1int }),
        {
            assert(sv[p as int].0 == r@[p as int].name@);
            if text_less(&x.name, &r[p].name) {
                found = true;
            } else {
                p = p + 1;
            }
        }
        proof {
            lemma_insert_keyed_at(sv, xv, by_name(), p as int);
        }
        r.insert(p, x);
        assert(manifest_component_views(r@) =~= sv.insert(p as int, xv));
        assert(vv.take(i as int + 1).drop_last() =~= vv.take(i as int));
        i = i + 1;
    }
    assert(vv.take(n as int) =~= vv);
    r
}

/// Stable insertion sort of texts.
fn sort_texts(v: Vec<String>) -> (r: Vec<String>)
    ensures
        string_views(r@) == sort_keyed(string_views(v@), by_text()),
{
    let ghost vv = string_views(v@);
    let mut r: Vec<String> = Vec::new();
    let n = v.len();
    let mut i: usize = 0;
    assert(vv.take(0) =~= Seq::<Seq<char>>::empty());
    assert(string_views(r@) =~= Seq::<Seq<char>>::empty());
    while i < n
        invariant
            n == v@.len(),
            vv == string_views(v@),
            i <= n,
            string_views(r@) == sort_keyed(vv.take(i as int), by_text()),
        decreases n - i,
    {
        let x = v[i].clone();
        let ghost sv = string_views(r@);
        let ghost xv = x@;
        assert(xv == vv[i as int]);
        let mut p: usize = 0;
        let mut found = false;
        while p < r.len() && !found
            invariant
                p <= r@.len(),
                sv == string_views(r@),
                xv == x@,
                forall|k: int| 0 <= k < p ==> !text_lt(by_text()(xv), by_text()(#[trigger] sv[k])),
                found ==> p < r@.len() && text_lt(by_text()(xv), by_text()(sv[p as int])),
            decreases r@.len() - p + (if found { 0int } else { 1int }),
        {
            assert(sv[p as int] == r@[p as int]@);
            if text_less(&x, &r[p]) {
                found = true;
            } else {
                p = p + 1;
            }
        }
        proof {
            lemma_insert_keyed_at(sv, xv, by_text(), p as int);
        }
        r.insert(p, x);
        assert(string_views(r@) =~= sv.insert(p as int, xv));
        assert(vv.take(i as int + 1).drop_last() =~= vv.take(i as int));
        i = i + 1;
    }
    assert(vv.take(n as int) =~= vv);
    r
}

/// The first retained entry with path `p`.
pub open spec fn entry_at(es: Seq<AppleEntryView>, p: Seq<char>) -> Option<AppleEntryView>
    decreases es.len(),
{
    if es.len() == 0 {
        None
    } else if es[0].0 == p {
        Some(es[0])
    } else {
        entry_at(es.drop_first(), p)
    }
}

/// Whether an earlier component than `i` has the name of component `i`.
pub open spec fn earlier_name(cs: Seq<(Seq<char>, Seq<char>)>, i: int) -> bool {
    exists|j: int| 0 <= j < i && (#[trigger] cs[j]).0 == cs[i].0
}

/// The failure raised by component `i`: an unbounded name, a non-canonical path, or a repeated
/// name.
pub open spec fn component_fault(cs: Seq<(Seq<char>, Seq<char>)>, i: int, limits: AppleFirmwareLimits) -> Option<
    C04Error,
> {
    if !apple_text_ok(cs[i].0, limits) {
        Some(C04Error::InvalidString)
    } else {
        match archive_path_fault(cs[i].1, limits) {
            Some(e) => Some(e),
            None => if earlier_name(cs, i) {
                Some(C04Error::InvalidManifestObservation)
            } else {
                None
            },
        }
    }
}

/// The first failure among the first `k` components.
pub open spec fn components_fault(cs: Seq<(Seq<char>, Seq<char>)>, k: int, limits: AppleFirmwareLimits) -> Option<
    C04Error,
>
    decreases k,
{
    if k <= 0 {
        None
    } else {
        match components_fault(cs, k - 1, limits) {
            Some(e) => Some(e),
            None => component_fault(cs, k - 1, limits),
        }
    }
}

/// Components whose path resolves, with the digest and size of the entry they name.
pub open spec fn resolved_spec(cs: Seq<(Seq<char>, Seq<char>)>, es: Seq<AppleEntryView>) -> Seq<ManifestComponentView>
    decreases cs.len(),
{
    if cs.len() == 0 {
        Seq::empty()
    } else {
        let c = cs.last();
        resolved_spec(cs.drop_last(), es) + match entry_at(es, c.1) {
            Some(e) => seq![(c.0, c.1, e.2, e.1)],
            None => Seq::empty(),
        }
    }
}

/// Paths of components that resolve to no retained entry.
pub open spec fn unresolved_spec(cs: Seq<(Seq<char>, Seq<char>)>, es: Seq<AppleEntryView>) -> Seq<Seq<char>>
    decreases cs.len(),
{
    if cs.len() == 0 {
        Seq::empty()
    } else {
        let c = cs.last();
        unresolved_spec(cs.drop_last(), es) + match entry_at(es, c.1) {
            Some(_) => Seq::empty(),
            None => seq![c.1],
        }
    }
}

/// Limitation recorded when the manifest provider does not claim complete semantics.
pub open spec fn incomplete_manifest_note() -> Seq<char> {
    "manifest Provider did not claim complete supported semantics"@
}

/// The validated manifest projection of an observation of the candidate entry.
pub open spec fn manifest_spec(
    provider: Seq<char>,
    candidate: AppleEntryView,
    es: Seq<AppleEntryView>,
    o: ManifestObsView,
    limits: AppleFirmwareLimits,
) -> Result<AppleManifestView, C04Error> {
    if !apple_optional_ok(o.0, limits) || !apple_optional_ok(o.1, limits) || !apple_limitations_ok(o.4, limits) {
        Err(C04Error::InvalidString)
    } else if o.2.len() > limits.max_manifest_components {
        Err(C04Error::TooManyManifestComponents)
    } else {
        match components_fault(o.2, o.2.len() as int, limits) {
            Some(e) => Err(e),
            None => Ok(
                AppleManifestView {
                    manifest_path: candidate.0,
                    manifest_sha256: candidate.2,
                    provider_alias: provider,
                    build_id: o.0,
                    product_version: o.1,
                    components: sort_keyed(resolved_spec(o.2, es), by_name()),
                    unresolved_paths: sort_keyed(unresolved_spec(o.2, es), by_text()),
                    limitations: if o.3 {
                        o.4
                    } else {
                        o.4.push(incomplete_manifest_note())
                    },
                    complete_claim: o.3,
                },
            ),
        }
    }
}

/// The first retained entry with the given path.
pub fn find_archive_entry(entries: &Vec<AppleArchiveEntry>, path: &String) -> (r: Option<usize>)
    ensures
        match entry_at(apple_entry_views(entries@), path@) {
            Some(e) => r matches Some(i) && i < entries@.len() && entries@[i as int].entry_view() == e,
            None => r is None,
        },
{
    let ghost es = apple_entry_views(entries@);
    let mut i: usize = 0;
    assert(es.skip(0) =~= es);
    while i < entries.len()
        invariant
            i <= entries@.len(),
            es == apple_entry_views(entries@),
            entry_at(es, path@) == entry_at(es.skip(i as int), path@),
        decreases entries.len() - i,
    {
        assert(es.skip(i as int).len() > 0);
        assert(es.skip(i as int)[0] == entries@[i as int].entry_view());
        if *entries[i].path_text() == *path {
            return Some(i);
        }
        assert(es.skip(i as int).drop_first() =~= es.skip(i as int + 1));
        i = i + 1;
    }
    assert(es.skip(i as int) =~= Seq::<AppleEntryView>::empty());
    None
}

proof fn lemma_component_fault_persists(cs: Seq<(Seq<char>, Seq<char>)>, i: int, k: int, limits: AppleFirmwareLimits)
    requires
        0 <= i < k,
        components_fault(cs, i, limits) is None,
        component_fault(cs, i, limits) is Some,
    ensures
        components_fault(cs, k, limits) == component_fault(cs, i, limits),
    decreases k,
{
    if k > i + 1 {
        lemma_component_fault_persists(cs, i, k - 1, limits);
    }
}

/// Validate a manifest observation of the candidate entry against the retained entries.
pub fn validate_manifest_observation(
    provider_id: &str,
    candidate: &AppleArchiveEntry,
    entries: &Vec<AppleArchiveEntry>,
    obs: &AppleManifestObservation,
    limits: AppleFirmwareLimits,
) -> (r: Result<AppleManifest, C04Error>)
    ensures
        match manifest_spec(provider_id@, candidate.entry_view(), apple_entry_views(entries@), manifest_obs_view(*obs), limits) {
            Ok(v) => r matches Ok(m) && m@ == v,
            Err(e) => r == Err::<AppleManifest, C04Error>(e),
        },
{
    check_apple_optional(&obs.build_id, limits)?;
    check_apple_optional(&obs.product_version, limits)?;
    check_apple_limitations(&obs.limitations, limits)?;
    let n = obs.components.len();
    if n > limits.max_manifest_components {
        return Err(C04Error::TooManyManifestComponents);
    }
    let ghost cs = manifest_obs_view(*obs).2;
    let ghost es = apple_entry_views(entries@);
    let mut resolved: Vec<AppleManifestComponent> = Vec::new();
    let mut unresolved: Vec<String> = Vec::new();
    let mut i: usize = 0;
    assert(cs.take(0) =~= Seq::<(Seq<char>, Seq<char>)>::empty());
    assert(manifest_component_views(resolved@) =~= Seq::<ManifestComponentView>::empty());
    assert(string_views(unresolved@) =~= Seq::<Seq<char>>::empty());
    while i < n
        invariant
            i <= n == obs.components@.len() == cs.len(),
            n <= limits.max_manifest_components,
            cs == manifest_obs_view(*obs).2,
            apple_optional_ok(manifest_obs_view(*obs).0, limits),
            apple_optional_ok(manifest_obs_view(*obs).1, limits),
            apple_limitations_ok(manifest_obs_view(*obs).4, limits),
            es == apple_entry_views(entries@),
            components_fault(cs, i as int, limits) is None,
            manifest_component_views(resolved@) == resolved_spec(cs.take(i as int), es),
            string_views(unresolved@) == unresolved_spec(cs.take(i as int), es),
        decreases n - i,
    {
        let c = &obs.components[i];
        assert(cs[i as int] == (c.name@, c.path@));
        if check_apple_text(c.name.as_str(), limits).is_err() {
            proof {
                lemma_component_fault_persists(cs, i as int, n as int, limits);
            }
            return Err(C04Error::InvalidString);
        }
        if let Err(e) = check_archive_path(c.path.as_str(), limits) {
            proof {
                lemma_component_fault_persists(cs, i as int, n as int, limits);
            }
            return Err(e);
        }
        let mut j: usize = 0;
        while j < i
            invariant
                j <= i < n == obs.components@.len() == cs.len(),
                n <= limits.max_manifest_components,
                cs == manifest_obs_view(*obs).2,
                apple_optional_ok(manifest_obs_view(*obs).0, limits),
                apple_optional_ok(manifest_obs_view(*obs).1, limits),
                apple_limitations_ok(manifest_obs_view(*obs).4, limits),
                components_fault(cs, i as int, limits) is None,
                apple_text_ok(cs[i as int].0, limits),
                archive_path_fault(cs[i as int].1, limits) is None,
                forall|q: int| 0 <= q < j ==> (#[trigger] cs[q]).0 != cs[i as int].0,
            decreases i - j,
        {
            assert(cs[j as int].0 == obs.components@[j as int].name@);
            if obs.components[j].name == obs.components[i].name {
                assert(earlier_name(cs, i as int));
                proof {
                    lemma_component_fault_persists(cs, i as int, n as int, limits);
                }
                return Err(C04Error::InvalidManifestObservation);
            }
            j = j + 1;
        }
        assert(!earlier_name(cs, i as int));
        let ghost prefix = cs.take(i as int + 1);
        assert(prefix.drop_last() =~= cs.take(i as int));
        assert(prefix.last() == cs[i as int]);
        match find_archive_entry(entries, &c.path) {
            Some(k) => {
                let comp = AppleManifestComponent {
                    name: c.name.clone(),
                    path: c.path.clone(),
                    entry_sha256: entries[k].digest_text().clone(),
                    byte_size: entries[k].size(),
                };
                let ghost before = manifest_component_views(resolved@);
                resolved.push(comp);
                assert(manifest_component_views(resolved@) =~= before + seq![
                    (c.name@, c.path@, entries@[k as int].entry_view().2, entries@[k as int].entry_view().1),
                ]);
            },
            None => {
                let ghost before = string_views(unresolved@);
                push_string(&mut unresolved, c.path.clone());
                assert(string_views(unresolved@) =~= before + seq![c.path@]);
            },
        }
        i = i + 1;
    }
    assert(cs.take(n as int) =~= cs);
    let components = sort_components(resolved);
    let unresolved_paths = sort_texts(unresolved);
    let mut lims = copy_strings(&obs.limitations);
    if !obs.complete_claim {
        push_string(&mut lims, owned("manifest Provider did not claim complete supported semantics"));
    }
    let m = AppleManifest {
        manifest_path: candidate.path_text().clone(),
        manifest_sha256: candidate.digest_text().clone(),
        provider_alias: owned(provider_id),
        build_id: match &obs.build_id {
            Some(s) => Some(s.clone()),
            None => None,
        },
        product_version: match &obs.product_version {
            Some(s) => Some(s.clone()),
            None => None,
        },
        components,
        unresolved_paths,
        limitations: lims,
        complete_claim: obs.complete_claim,
    };
    Ok(m)
}

} // verus!
