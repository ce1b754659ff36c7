//! IMG4-family object structure: markers, IM4P payloads, IM4M signing material, IM4R payloads
//! and IMG4 context wrappers, each retained as an exact source-backed component.
use vstd::prelude::*;
use crate::apple::{
    der_component_values, AppleDerComponent, AppleDerComponentKind, AppleFirmwareArtifactKind, AppleFirmwareLimits,
    C04Error, DerComponentValue,
};
use crate::apple_der::{
    constructed_spec, parse_constructed, DerTlv, DER_CONTEXT_0, DER_CONTEXT_1, DER_IA5_STRING, DER_OCTET_STRING,
    DER_SEQUENCE,
};
use crate::digest::{sha256_hex, sha256_hex_of};
use crate::text::{decimal, owned, push_char, push_decimal};
use crate::text_map::key_bytes;

verus! {

/// A bounded component name: non-empty, without NUL, within the string bound.
pub open spec fn name_ok(name: Seq<char>, limits: AppleFirmwareLimits) -> bool {
    name.len() > 0 && key_bytes(name).len() <= limits.max_string_bytes && !name.contains('\0')
}

fn check_name(name: &String, limits: AppleFirmwareLimits) -> (r: bool)
    ensures
        r == name_ok(name@, limits),
{
    let cs = crate::text_ops::chars_of(name.as_str());
    if cs.len() == 0 || name.as_str().as_bytes().len() > limits.max_string_bytes {
        return false;
    }
    let mut i: usize = 0;
    while i < cs.len()
        invariant
            i <= cs@.len(),
            cs@ == name@,
            forall|j: int| 0 <= j < i ==> cs@[j] != '\0',
        decreases cs.len() - i,
    {
        if cs[i] == '\0' {
            assert(name@.contains('\0'));
            return false;
        }
        i = i + 1;
    }
    true
}

/// Append the component for source bytes `[start, end)`.
pub open spec fn push_component_spec(
    s: Seq<u8>,
    comps: Seq<DerComponentValue>,
    kind: AppleDerComponentKind,
    name: Seq<char>,
    start: int,
    end: int,
    limits: AppleFirmwareLimits,
) -> Result<Seq<DerComponentValue>, C04Error> {
    if !name_ok(name, limits) {
        Err(C04Error::InvalidString)
    } else if !(0 <= start <= end <= s.len()) {
        Err(C04Error::MalformedDer("DER component exceeds source"))
    } else {
        Ok(comps.push((kind, name, start as u64, end as u64, sha256_hex_of(s.subrange(start, end)))))
    }
}

fn push_component(
    source: &[u8],
    comps: &mut Vec<AppleDerComponent>,
    kind: AppleDerComponentKind,
    name: String,
    start: usize,
    end: usize,
    limits: AppleFirmwareLimits,
) -> (r: Result<(), C04Error>)
    ensures
        match r {
            Ok(_) => push_component_spec(source@, der_component_values(old(comps)@), kind, name@, start as int, end as int, limits)
                == Ok::<Seq<DerComponentValue>, C04Error>(der_component_values(final(comps)@)),
            Err(e) => push_component_spec(source@, der_component_values(old(comps)@), kind, name@, start as int, end as int, limits)
                == Err::<Seq<DerComponentValue>, C04Error>(e),
        },
{
    if !check_name(&name, limits) {
        return Err(C04Error::InvalidString);
    }
    if !(start <= end && end <= source.len()) {
        return Err(C04Error::MalformedDer("DER component exceeds source"));
    }
    let digest = sha256_hex(vstd::slice::slice_subrange(source, start, end));
    let ghost before = der_component_values(comps@);
    comps.push(AppleDerComponent { kind, name, byte_start: start as u64, byte_end_exclusive: end as u64, sha256: digest });
    assert(der_component_values(comps@) =~= before.push(der_component_values(comps@).last()));
    Ok(())
}

/// The text of an IA5String element: ASCII content within the string bound, without NUL.
pub open spec fn der_text_spec(s: Seq<u8>, t: DerTlv, limits: AppleFirmwareLimits) -> Result<Seq<char>, C04Error> {
    if t.tag != DER_IA5_STRING {
        Err(C04Error::MalformedDer("expected IA5String"))
    } else if !(t.content_start <= t.end <= s.len()) {
        Err(C04Error::MalformedDer("IA5String exceeds source"))
    } else {
        let b = s.subrange(t.content_start as int, t.end as int);
        if exists|i: int| 0 <= i < b.len() && (#[trigger] b[i]) >= 128 {
            Err(C04Error::InvalidString)
        } else if b.len() == 0 || b.len() > limits.max_string_bytes || b.contains(0u8) {
            Err(C04Error::InvalidString)
        } else {
            Ok(b.map_values(|x: u8| x as char))
        }
    }
}

fn der_text(source: &[u8], t: DerTlv, limits: AppleFirmwareLimits) -> (r: Result<String, C04Error>)
    ensures
        match r {
            Ok(v) => der_text_spec(source@, t, limits) == Ok::<Seq<char>, C04Error>(v@),
            Err(e) => der_text_spec(source@, t, limits) == Err::<Seq<char>, C04Error>(e),
        },
{
    if t.tag != DER_IA5_STRING {
        return Err(C04Error::MalformedDer("expected IA5String"));
    }
    if !(t.content_start <= t.end && t.end <= source.len()) {
        return Err(C04Error::MalformedDer("IA5String exceeds source"));
    }
    let ghost b = source@.subrange(t.content_start as int, t.end as int);
    let mut i: usize = t.content_start;
    while i < t.end
        invariant
            t.content_start <= i <= t.end <= source@.len(),
            t.tag == DER_IA5_STRING,
            b == source@.subrange(t.content_start as int, t.end as int),
            forall|j: int| 0 <= j < i - t.content_start ==> b[j] < 128,
        decreases t.end - i,
    {
        if source[i] >= 128 {
            assert(b[i - t.content_start] >= 128);
            return Err(C04Error::InvalidString);
        }
        i = i + 1;
    }
    let len = t.end - t.content_start;
    let mut has_nul = false;
    let mut k: usize = t.content_start;
    while k < t.end
        invariant
            t.content_start <= k <= t.end <= source@.len(),
            b == source@.subrange(t.content_start as int, t.end as int),
            has_nul <==> exists|j: int| 0 <= j < k - t.content_start && b[j] == 0u8,
        decreases t.end - k,
    {
        assert(b[k - t.content_start] == source@[k as int]);
        if source[k] == 0 {
            has_nul = true;
        }
        k = k + 1;
    }
    if len == 0 || len > limits.max_string_bytes || has_nul {
        return Err(C04Error::InvalidString);
    }
    let mut out = String::new();
    let mut q: usize = t.content_start;
    while q < t.end
        invariant
            t.content_start <= q <= t.end <= source@.len(),
            b == source@.subrange(t.content_start as int, t.end as int),
            out@ == b.take(q - t.content_start).map_values(|x: u8| x as char),
        decreases t.end - q,
    {
        push_char(&mut out, source[q] as char);
        assert(b.take(q - t.content_start + 1).map_values(|x: u8| x as char) =~= b.take(q - t.content_start).map_values(
            |x: u8| x as char,
        ).push(source@[q as int] as char));
        q = q + 1;
    }
    assert(b.take(b.len() as int) =~= b);
    Ok(out)
}

/// The marker of a sequence: its first element, as IA5String text.
pub open spec fn marker_spec(s: Seq<u8>, kids: Seq<DerTlv>, limits: AppleFirmwareLimits) -> Result<Seq<char>, C04Error> {
    if kids.len() == 0 {
        Err(C04Error::MalformedDer("DER sequence is empty"))
    } else if kids[0].tag != DER_IA5_STRING {
        Err(C04Error::MalformedDer("IMG4-family marker is not IA5String"))
    } else {
        der_text_spec(s, kids[0], limits)
    }
}

fn marker(source: &[u8], kids: &Vec<DerTlv>, limits: AppleFirmwareLimits) -> (r: Result<String, C04Error>)
    ensures
        match r {
            Ok(v) => marker_spec(source@, kids@, limits) == Ok::<Seq<char>, C04Error>(v@),
            Err(e) => marker_spec(source@, kids@, limits) == Err::<Seq<char>, C04Error>(e),
        },
{
    if kids.len() == 0 {
        return Err(C04Error::MalformedDer("DER sequence is empty"));
    }
    if kids[0].tag != DER_IA5_STRING {
        return Err(C04Error::MalformedDer("IMG4-family marker is not IA5String"));
    }
    der_text(source, kids[0], limits)
}

/// The sequence carries the marker `expected`.
pub open spec fn require_marker_spec(s: Seq<u8>, kids: Seq<DerTlv>, expected: Seq<char>, limits: AppleFirmwareLimits) -> Result<
    (),
    C04Error,
> {
    match marker_spec(s, kids, limits) {
        Err(e) => Err(e),
        Ok(m) => if m != expected {
            Err(C04Error::MalformedDer("IMG4-family marker mismatch"))
        } else {
            Ok(())
        },
    }
}

fn require_marker(source: &[u8], kids: &Vec<DerTlv>, expected: &str, limits: AppleFirmwareLimits) -> (r: Result<(), C04Error>)
    ensures
        r == require_marker_spec(source@, kids@, expected@, limits),
{
    let m = marker(source, kids, limits)?;
    if m != owned(expected) {
        return Err(C04Error::MalformedDer("IMG4-family marker mismatch"));
    }
    Ok(())
}

/// `prefix` followed by `suffix`.
fn suffixed(prefix: &str, suffix: &str) -> (s: String)
    ensures
        s@ == prefix@ + suffix@,
{
    let mut s = owned(prefix);
    s.append(suffix);
    s
}

/// The IM4P payload component: type and description texts, then the payload octets.
pub open spec fn im4p_spec(
    s: Seq<u8>,
    kids: Seq<DerTlv>,
    prefix: Seq<char>,
    comps: Seq<DerComponentValue>,
    limits: AppleFirmwareLimits,
) -> Result<Seq<DerComponentValue>, C04Error> {
    match require_marker_spec(s, kids, "IM4P"@, limits) {
        Err(e) => Err(e),
        Ok(_) => if kids.len() < 4 || kids[1].tag != DER_IA5_STRING || kids[2].tag != DER_IA5_STRING || kids[3].tag
            != DER_OCTET_STRING {
            Err(C04Error::MalformedDer("IM4P required fields are missing"))
        } else {
            match der_text_spec(s, kids[1], limits) {
                Err(e) => Err(e),
                Ok(ct) => match der_text_spec(s, kids[2], limits) {
                    Err(e) => Err(e),
                    Ok(desc) => if ct.len() == 0 || desc.len() == 0 {
                        Err(C04Error::MalformedDer("IM4P type/description is empty"))
                    } else {
                        push_component_spec(
                            s,
                            comps,
                            AppleDerComponentKind::Im4pPayload,
                            prefix + ".payload"@,
                            kids[3].content_start as int,
                            kids[3].end as int,
                            limits,
                        )
                    },
                },
            }
        },
    }
}

fn inspect_im4p(source: &[u8], kids: &Vec<DerTlv>, prefix: &str, comps: &mut Vec<AppleDerComponent>, limits: AppleFirmwareLimits) -> (r:
    Result<(), C04Error>)
    ensures
        match r {
            Ok(_) => im4p_spec(source@, kids@, prefix@, der_component_values(old(comps)@), limits) == Ok::<
                Seq<DerComponentValue>,
                C04Error,
            >(der_component_values(final(comps)@)),
            Err(e) => im4p_spec(source@, kids@, prefix@, der_component_values(old(comps)@), limits) == Err::<
                Seq<DerComponentValue>,
                C04Error,
            >(e),
        },
{
    require_marker(source, kids, "IM4P", limits)?;
    if kids.len() < 4 || kids[1].tag != DER_IA5_STRING || kids[2].tag != DER_IA5_STRING || kids[3].tag != DER_OCTET_STRING {
        return Err(C04Error::MalformedDer("IM4P required fields are missing"));
    }
    let ct = der_text(source, kids[1], limits)?;
    let desc = der_text(source, kids[2], limits)?;
    if ct.as_str().unicode_len() == 0 || desc.as_str().unicode_len() == 0 {
        return Err(C04Error::MalformedDer("IM4P type/description is empty"));
    }
    push_component(
        source,
        comps,
        AppleDerComponentKind::Im4pPayload,
        suffixed(prefix, ".payload"),
        kids[3].content_start,
        kids[3].end,
        limits,
    )
}

/// Signing-material components among elements `1..n`: the components and how many there are.
pub open spec fn signing_fold(
    s: Seq<u8>,
    kids: Seq<DerTlv>,
    prefix: Seq<char>,
    n: int,
    comps: Seq<DerComponentValue>,
    limits: AppleFirmwareLimits,
) -> Result<(Seq<DerComponentValue>, nat), C04Error>
    decreases n,
{
    if n <= 1 {
        Ok((comps, 0))
    } else {
        match signing_fold(s, kids, prefix, n - 1, comps, limits) {
            Err(e) => Err(e),
            Ok((cs, idx)) => if kids[n - 1].tag == DER_OCTET_STRING {
                match push_component_spec(
                    s,
                    cs,
                    AppleDerComponentKind::SigningMaterial,
                    prefix + ".signing."@ + decimal(idx),
                    kids[n - 1].content_start as int,
                    kids[n - 1].end as int,
                    limits,
                ) {
                    Err(e) => Err(e),
                    Ok(cs2) => Ok((cs2, idx + 1)),
                }
            } else {
                Ok((cs, idx))
            },
        }
    }
}

/// The IM4M signing-material components; at least one is required.
pub open spec fn im4m_spec(
    s: Seq<u8>,
    kids: Seq<DerTlv>,
    prefix: Seq<char>,
    comps: Seq<DerComponentValue>,
    limits: AppleFirmwareLimits,
) -> Result<Seq<DerComponentValue>, C04Error> {
    match require_marker_spec(s, kids, "IM4M"@, limits) {
        Err(e) => Err(e),
        Ok(_) => match signing_fold(s, kids, prefix, kids.len() as int, comps, limits) {
            Err(e) => Err(e),
            Ok((cs, idx)) => if idx == 0 {
                Err(C04Error::MalformedDer("IM4M contains no signing material octets"))
            } else {
                Ok(cs)
            },
        },
    }
}

proof fn lemma_signing_fold_err(
    s: Seq<u8>,
    kids: Seq<DerTlv>,
    prefix: Seq<char>,
    j: int,
    n: int,
    comps: Seq<DerComponentValue>,
    limits: AppleFirmwareLimits,
)
    requires
        j <= n,
        signing_fold(s, kids, prefix, j, comps, limits) is Err,
    ensures
        signing_fold(s, kids, prefix, n, comps, limits) == signing_fold(s, kids, prefix, j, comps, limits),
    decreases n - j,
{
    if j < n {
        lemma_signing_fold_err(s, kids, prefix, j, n - 1, comps, limits);
    }
}

fn inspect_im4m(source: &[u8], kids: &Vec<DerTlv>, prefix: &str, comps: &mut Vec<AppleDerComponent>, limits: AppleFirmwareLimits) -> (r:
    Result<(), C04Error>)
    ensures
        match r {
            Ok(_) => im4m_spec(source@, kids@, prefix@, der_component_values(old(comps)@), limits) == Ok::<
                Seq<DerComponentValue>,
                C04Error,
            >(der_component_values(final(comps)@)),
            Err(e) => im4m_spec(source@, kids@, prefix@, der_component_values(old(comps)@), limits) == Err::<
                Seq<DerComponentValue>,
                C04Error,
            >(e),
        },
{
    require_marker(source, kids, "IM4M", limits)?;
    assert(kids@.len() >= 1);
    let ghost c0 = der_component_values(comps@);
    let mut index: u64 = 0;
    let mut i: usize = 1;
    while i < kids.len()
        invariant
            1 <= i <= kids@.len(),
            require_marker_spec(source@, kids@, "IM4M"@, limits) == Ok::<(), C04Error>(()),
            signing_fold(source@, kids@, prefix@, i as int, c0, limits) == Ok::<(Seq<DerComponentValue>, nat), C04Error>(
                (der_component_values(comps@), index as nat),
            ),
            index <= i,
            c0 == der_component_values(old(comps)@),
        decreases kids.len() - i,
    {
        if kids[i].tag == DER_OCTET_STRING {
            let mut name = suffixed(prefix, ".signing.");
            push_decimal(&mut name, index);
            let r = push_component(source, comps, AppleDerComponentKind::SigningMaterial, name, kids[i].content_start, kids[i].end, limits);
            if let Err(e) = r {
                proof { lemma_signing_fold_err(source@, kids@, prefix@, i as int + 1, kids@.len() as int, c0, limits); }
                return Err(e);
            }
            index = index + 1;
        }
        i = i + 1;
    }
    if index == 0 {
        return Err(C04Error::MalformedDer("IM4M contains no signing material octets"));
    }
    Ok(())
}

/// Index of the first octet string among elements `1..`, if any.
pub open spec fn first_octet(kids: Seq<DerTlv>) -> Option<int> {
    if exists|i: int| 1 <= i < kids.len() && kids[i].tag == DER_OCTET_STRING {
        Some(choose|i: int| 1 <= i < kids.len() && kids[i].tag == DER_OCTET_STRING && forall|j: int| 1 <= j < i ==> kids[j].tag != DER_OCTET_STRING)
    } else {
        None
    }
}

/// The IM4R payload component: the first octet string after the marker, when there is one.
pub open spec fn im4r_spec(
    s: Seq<u8>,
    kids: Seq<DerTlv>,
    prefix: Seq<char>,
    comps: Seq<DerComponentValue>,
    limits: AppleFirmwareLimits,
) -> Result<Seq<DerComponentValue>, C04Error> {
    match require_marker_spec(s, kids, "IM4R"@, limits) {
        Err(e) => Err(e),
        Ok(_) => match first_octet(kids) {
            None => Ok(comps),
            Some(i) => push_component_spec(
                s,
                comps,
                AppleDerComponentKind::Im4rPayload,
                prefix + ".payload"@,
                kids[i].content_start as int,
                kids[i].end as int,
                limits,
            ),
        },
    }
}

fn inspect_im4r(source: &[u8], kids: &Vec<DerTlv>, prefix: &str, comps: &mut Vec<AppleDerComponent>, limits: AppleFirmwareLimits) -> (r:
    Result<(), C04Error>)
    ensures
        match r {
            Ok(_) => im4r_spec(source@, kids@, prefix@, der_component_values(old(comps)@), limits) == Ok::<
                Seq<DerComponentValue>,
                C04Error,
            >(der_component_values(final(comps)@)),
            Err(e) => im4r_spec(source@, kids@, prefix@, der_component_values(old(comps)@), limits) == Err::<
                Seq<DerComponentValue>,
                C04Error,
            >(e),
        },
{
    require_marker(source, kids, "IM4R", limits)?;
    let mut i: usize = 1;
    while i < kids.len()
        invariant
            1 <= i,
            require_marker_spec(source@, kids@, "IM4R"@, limits) == Ok::<(), C04Error>(()),
            comps@ == old(comps)@,
            forall|j: int| 1 <= j < i && j < kids@.len() ==> kids@[j].tag != DER_OCTET_STRING,
        decreases kids.len() - i,
    {
        if kids[i].tag == DER_OCTET_STRING {
            proof {
                let c = choose|c: int| 1 <= c < kids@.len() && kids@[c].tag == DER_OCTET_STRING && forall|j: int| 1 <= j < c ==> kids@[j].tag != DER_OCTET_STRING;
                assert(1 <= i < kids@.len() && kids@[i as int].tag == DER_OCTET_STRING && forall|j: int| 1 <= j < i ==> kids@[j].tag != DER_OCTET_STRING);
                if c < i {
                    assert(kids@[c].tag != DER_OCTET_STRING);
                } else if c > i {
                    assert(kids@[i as int].tag != DER_OCTET_STRING);
                }
                assert(first_octet(kids@) == Some(i as int));
            }
            return push_component(source, comps, AppleDerComponentKind::Im4rPayload, suffixed(prefix, ".payload"), kids[i].content_start, kids[i].end, limits);
        }
        i = i + 1;
    }
    assert(first_octet(kids@) is None);
    Ok(())
}

/// An IMG4 context wrapper holding one IM4M (`[0]`) or IM4R (`[1]`) sequence: the components
/// and the new element count.
#[verifier::opaque]
pub open spec fn wrapper_spec(
    s: Seq<u8>,
    w: DerTlv,
    comps: Seq<DerComponentValue>,
    count: int,
    limits: AppleFirmwareLimits,
) -> Result<(Seq<DerComponentValue>, int), C04Error> {
    match constructed_spec(s, w.start as int, w.tag, 1, count, limits) {
        Err(e) => Err(e),
        Ok((_, wrapped, c1)) => if wrapped.len() != 1 || wrapped[0].tag != DER_SEQUENCE {
            Err(C04Error::MalformedDer("IMG4 context wrapper must contain one sequence"))
        } else {
            let child = wrapped[0];
            match constructed_spec(s, child.start as int, DER_SEQUENCE, 2, c1, limits) {
                Err(e) => Err(e),
                Ok((_, elems, c2)) => {
                    let (marker, kind, name) = if w.tag == DER_CONTEXT_0 {
                        ("IM4M"@, AppleDerComponentKind::Im4mObject, "img4.im4m"@)
                    } else {
                        ("IM4R"@, AppleDerComponentKind::Im4rObject, "img4.im4r"@)
                    };
                    if w.tag != DER_CONTEXT_0 && w.tag != DER_CONTEXT_1 {
                        Err(C04Error::MalformedDer("unsupported IMG4 context wrapper"))
                    } else {
                        match require_marker_spec(s, elems, marker, limits) {
                            Err(e) => Err(e),
                            Ok(_) => match push_component_spec(s, comps, kind, name, child.start as int, child.end as int, limits) {
                                Err(e) => Err(e),
                                Ok(cs) => {
                                    let inner = if w.tag == DER_CONTEXT_0 {
                                        im4m_spec(s, elems, name, cs, limits)
                                    } else {
                                        im4r_spec(s, elems, name, cs, limits)
                                    };
                                    match inner {
                                        Err(e) => Err(e),
                                        Ok(cs2) => Ok((cs2, c2)),
                                    }
                                },
                            },
                        }
                    }
                },
            }
        },
    }
}

fn inspect_wrapper(
    source: &[u8],
    w: DerTlv,
    comps: &mut Vec<AppleDerComponent>,
    count: &mut usize,
    limits: AppleFirmwareLimits,
) -> (r: Result<(), C04Error>)
    ensures
        match r {
            Ok(_) => wrapper_spec(source@, w, der_component_values(old(comps)@), *old(count) as int, limits) == Ok::<
                (Seq<DerComponentValue>, int),
                C04Error,
            >((der_component_values(final(comps)@), *final(count) as int)),
            Err(e) => wrapper_spec(source@, w, der_component_values(old(comps)@), *old(count) as int, limits) == Err::<
                (Seq<DerComponentValue>, int),
                C04Error,
            >(e),
        },
{
    reveal(wrapper_spec);
    let (_, wrapped) = parse_constructed(source, w.start, w.tag, 1, count, limits)?;
    if wrapped.len() != 1 || wrapped[0].tag != DER_SEQUENCE {
        return Err(C04Error::MalformedDer("IMG4 context wrapper must contain one sequence"));
    }
    let child = wrapped[0];
    let (_, elems) = parse_constructed(source, child.start, DER_SEQUENCE, 2, count, limits)?;
    if w.tag == DER_CONTEXT_0 {
        require_marker(source, &elems, "IM4M", limits)?;
        push_component(source, comps, AppleDerComponentKind::Im4mObject, owned("img4.im4m"), child.start, child.end, limits)?;
        inspect_im4m(source, &elems, "img4.im4m", comps, limits)
    } else if w.tag == DER_CONTEXT_1 {
        require_marker(source, &elems, "IM4R", limits)?;
        push_component(source, comps, AppleDerComponentKind::Im4rObject, owned("img4.im4r"), child.start, child.end, limits)?;
        inspect_im4r(source, &elems, "img4.im4r", comps, limits)
    } else {
        Err(C04Error::MalformedDer("unsupported IMG4 context wrapper"))
    }
}

/// Context wrappers among elements `2..n`, each tag at most once: the components, the count and
/// which wrappers were seen.
pub open spec fn wrappers_fold(
    s: Seq<u8>,
    kids: Seq<DerTlv>,
    n: int,
    comps: Seq<DerComponentValue>,
    count: int,
    limits: AppleFirmwareLimits,
) -> Result<(Seq<DerComponentValue>, int, bool, bool), C04Error>
    decreases n,
{
    if n <= 2 {
        Ok((comps, count, false, false))
    } else {
        match wrappers_fold(s, kids, n - 1, comps, count, limits) {
            Err(e) => Err(e),
            Ok((cs, c, seen0, seen1)) => {
                let w = kids[n - 1];
                if !(w.tag == DER_CONTEXT_0 || w.tag == DER_CONTEXT_1) || (w.tag == DER_CONTEXT_0 && seen0) || (w.tag
                    == DER_CONTEXT_1 && seen1) {
                    Err(C04Error::MalformedDer("invalid or duplicate IMG4 context wrapper"))
                } else {
                    match wrapper_spec(s, w, cs, c, limits) {
                        Err(e) => Err(e),
                        Ok((cs2, c2)) => Ok((cs2, c2, seen0 || w.tag == DER_CONTEXT_0, seen1 || w.tag == DER_CONTEXT_1)),
                    }
                }
            },
        }
    }
}

proof fn lemma_wrappers_fold_err(
    s: Seq<u8>,
    kids: Seq<DerTlv>,
    j: int,
    n: int,
    comps: Seq<DerComponentValue>,
    count: int,
    limits: AppleFirmwareLimits,
)
    requires
        j <= n,
        wrappers_fold(s, kids, j, comps, count, limits) is Err,
    ensures
        wrappers_fold(s, kids, n, comps, count, limits) == wrappers_fold(s, kids, j, comps, count, limits),
    decreases n - j,
{
    if j < n {
        lemma_wrappers_fold_err(s, kids, j, n - 1, comps, count, limits);
    }
}

/// An IMG4 container: its IM4P sequence (object and payload), then its context wrappers.
pub open spec fn img4_spec(
    s: Seq<u8>,
    kids: Seq<DerTlv>,
    comps: Seq<DerComponentValue>,
    count: int,
    limits: AppleFirmwareLimits,
) -> Result<(Seq<DerComponentValue>, int), C04Error> {
    if kids.len() < 2 || kids[1].tag != DER_SEQUENCE {
        Err(C04Error::MalformedDer("IMG4 does not contain IM4P sequence"))
    } else {
        match constructed_spec(s, kids[1].start as int, DER_SEQUENCE, 1, count, limits) {
            Err(e) => Err(e),
            Ok((_, pk, c1)) => match require_marker_spec(s, pk, "IM4P"@, limits) {
                Err(e) => Err(e),
                Ok(_) => match push_component_spec(
                    s,
                    comps,
                    AppleDerComponentKind::Im4pObject,
                    "img4.im4p"@,
                    kids[1].start as int,
                    kids[1].end as int,
                    limits,
                ) {
                    Err(e) => Err(e),
                    Ok(cs) => match im4p_spec(s, pk, "img4.im4p"@, cs, limits) {
                        Err(e) => Err(e),
                        Ok(cs2) => match wrappers_fold(s, kids, kids.len() as int, cs2, c1, limits) {
                            Err(e) => Err(e),
                            Ok((cs3, c3, _, _)) => Ok((cs3, c3)),
                        },
                    },
                },
            },
        }
    }
}

fn inspect_img4(
    source: &[u8],
    kids: &Vec<DerTlv>,
    comps: &mut Vec<AppleDerComponent>,
    count: &mut usize,
    limits: AppleFirmwareLimits,
) -> (r: Result<(), C04Error>)
    ensures
        match r {
            Ok(_) => img4_spec(source@, kids@, der_component_values(old(comps)@), *old(count) as int, limits) == Ok::<
                (Seq<DerComponentValue>, int),
                C04Error,
            >((der_component_values(final(comps)@), *final(count) as int)),
            Err(e) => img4_spec(source@, kids@, der_component_values(old(comps)@), *old(count) as int, limits) == Err::<
                (Seq<DerComponentValue>, int),
                C04Error,
            >(e),
        },
{
    if kids.len() < 2 || kids[1].tag != DER_SEQUENCE {
        return Err(C04Error::MalformedDer("IMG4 does not contain IM4P sequence"));
    }
    let (_, pk) = parse_constructed(source, kids[1].start, DER_SEQUENCE, 1, count, limits)?;
    require_marker(source, &pk, "IM4P", limits)?;
    push_component(source, comps, AppleDerComponentKind::Im4pObject, owned("img4.im4p"), kids[1].start, kids[1].end, limits)?;
    inspect_im4p(source, &pk, "img4.im4p", comps, limits)?;
    let ghost cs2 = der_component_values(comps@);
    let ghost c1 = *count as int;
    let ghost total = img4_spec(source@, kids@, der_component_values(old(comps)@), *old(count) as int, limits);
    assert(total == match wrappers_fold(source@, kids@, kids@.len() as int, cs2, c1, limits) {
        Err(e) => Err::<(Seq<DerComponentValue>, int), C04Error>(e),
        Ok((a, b, _, _)) => Ok::<(Seq<DerComponentValue>, int), C04Error>((a, b)),
    });
    let mut seen0 = false;
    let mut seen1 = false;
    let mut i: usize = 2;
    while i < kids.len()
        invariant
            2 <= i <= kids@.len(),
            total == img4_spec(source@, kids@, der_component_values(old(comps)@), *old(count) as int, limits),
            total == match wrappers_fold(source@, kids@, kids@.len() as int, cs2, c1, limits) {
                Err(e) => Err::<(Seq<DerComponentValue>, int), C04Error>(e),
                Ok((a, b, _, _)) => Ok::<(Seq<DerComponentValue>, int), C04Error>((a, b)),
            },
            wrappers_fold(source@, kids@, i as int, cs2, c1, limits) == Ok::<
                (Seq<DerComponentValue>, int, bool, bool),
                C04Error,
            >((der_component_values(comps@), *count as int, seen0, seen1)),
        decreases kids.len() - i,
    {
        let w = kids[i];
        if !(w.tag == DER_CONTEXT_0 || w.tag == DER_CONTEXT_1) || (w.tag == DER_CONTEXT_0 && seen0) || (w.tag
            == DER_CONTEXT_1 && seen1) {
            proof { lemma_wrappers_fold_err(source@, kids@, i as int + 1, kids@.len() as int, cs2, c1, limits); }
            return Err(C04Error::MalformedDer("invalid or duplicate IMG4 context wrapper"));
        }
        if let Err(e) = inspect_wrapper(source, w, comps, count, limits) {
            proof { lemma_wrappers_fold_err(source@, kids@, i as int + 1, kids@.len() as int, cs2, c1, limits); }
            return Err(e);
        }
        if w.tag == DER_CONTEXT_0 {
            seen0 = true;
        } else {
            seen1 = true;
        }
        i = i + 1;
    }
    Ok(())
}

/// The artifact kind and exact components of an IMG4-family object: a single top-level DER
/// sequence whose marker selects IMG4, IM4P, IM4M or IM4R structure.
pub open spec fn der_object_spec(s: Seq<u8>, limits: AppleFirmwareLimits) -> Result<
    (AppleFirmwareArtifactKind, Seq<DerComponentValue>),
    C04Error,
> {
    if s.len() == 0 || s[0] != DER_SEQUENCE {
        Err(C04Error::UnsupportedArtifact)
    } else {
        match constructed_spec(s, 0, DER_SEQUENCE, 0, 0, limits) {
            Err(e) => Err(e),
            Ok((outer, kids, c)) => if outer.end != s.len() {
                Err(C04Error::MalformedDer("trailing bytes after top-level sequence"))
            } else {
                match marker_spec(s, kids, limits) {
                    Err(e) => Err(e),
                    Ok(m) => if m == "IMG4"@ {
                        match img4_spec(s, kids, Seq::empty(), c, limits) {
                            Err(e) => Err(e),
                            Ok((cs, _)) => Ok((AppleFirmwareArtifactKind::Img4, cs)),
                        }
                    } else if m == "IM4P"@ {
                        match im4p_spec(s, kids, "im4p"@, Seq::empty(), limits) {
                            Err(e) => Err(e),
                            Ok(cs) => Ok((AppleFirmwareArtifactKind::Im4p, cs)),
                        }
                    } else if m == "IM4M"@ {
                        match im4m_spec(s, kids, "im4m"@, Seq::empty(), limits) {
                            Err(e) => Err(e),
                            Ok(cs) => Ok((AppleFirmwareArtifactKind::Im4m, cs)),
                        }
                    } else if m == "IM4R"@ {
                        match im4r_spec(s, kids, "im4r"@, Seq::empty(), limits) {
                            Err(e) => Err(e),
                            Ok(cs) => Ok((AppleFirmwareArtifactKind::Im4r, cs)),
                        }
                    } else {
                        Err(C04Error::MalformedDer("unsupported IMG4-family marker"))
                    }
                }
            },
        }
    }
}

/// Parse an IMG4-family object into its artifact kind and exact source-backed components.
pub fn inspect_der(source: &[u8], limits: AppleFirmwareLimits) -> (r: Result<
    (AppleFirmwareArtifactKind, Vec<AppleDerComponent>),
    C04Error,
>)
    ensures
        match r {
            Ok((k, cs)) => der_object_spec(source@, limits) == Ok::<(AppleFirmwareArtifactKind, Seq<DerComponentValue>), C04Error>(
                (k, der_component_values(cs@)),
            ),
            Err(e) => der_object_spec(source@, limits) == Err::<(AppleFirmwareArtifactKind, Seq<DerComponentValue>), C04Error>(
                e,
            ),
        },
{
    if source.len() == 0 || source[0] != DER_SEQUENCE {
        return Err(C04Error::UnsupportedArtifact);
    }
    let mut count: usize = 0;
    let (outer, kids) = parse_constructed(source, 0, DER_SEQUENCE, 0, &mut count, limits)?;
    if outer.end != source.len() {
        return Err(C04Error::MalformedDer("trailing bytes after top-level sequence"));
    }
    let m = marker(source, &kids, limits)?;
    let mut comps: Vec<AppleDerComponent> = Vec::new();
    assert(der_component_values(comps@) =~= Seq::<DerComponentValue>::empty());
    if m == owned("IMG4") {
        inspect_img4(source, &kids, &mut comps, &mut count, limits)?;
        Ok((AppleFirmwareArtifactKind::Img4, comps))
    } else if m == owned("IM4P") {
        inspect_im4p(source, &kids, "im4p", &mut comps, limits)?;
        Ok((AppleFirmwareArtifactKind::Im4p, comps))
    } else if m == owned("IM4M") {
        inspect_im4m(source, &kids, "im4m", &mut comps, limits)?;
        Ok((AppleFirmwareArtifactKind::Im4m, comps))
    } else if m == owned("IM4R") {
        inspect_im4r(source, &kids, "im4r", &mut comps, limits)?;
        Ok((AppleFirmwareArtifactKind::Im4r, comps))
    } else {
        Err(C04Error::MalformedDer("unsupported IMG4-family marker"))
    }
}

} // verus!
