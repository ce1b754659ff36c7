//! Bounded, minimal-form DER parsing of IMG4-family objects into exact source-backed components.
use vstd::prelude::*;
use crate::apple::{
    der_component_values, AppleDerComponent, AppleDerComponentKind, AppleFirmwareArtifactKind, AppleFirmwareLimits,
    C04Error, DerComponentValue,
};
use crate::bytes::be_value;
use crate::digest::{sha256_hex, sha256_hex_of};
use crate::text::{decimal, numbered_message, owned, push_char};

verus! {

/// DER tag of a sequence.
pub const DER_SEQUENCE: u8 = 0x30;

/// DER tag of an IA5String.
pub const DER_IA5_STRING: u8 = 0x16;

/// DER tag of an octet string.
pub const DER_OCTET_STRING: u8 = 0x04;

/// DER tag of context-specific constructed element 0.
pub const DER_CONTEXT_0: u8 = 0xa0;

/// DER tag of context-specific constructed element 1.
pub const DER_CONTEXT_1: u8 = 0xa1;

/// One parsed tag-length-value element.
#[derive(Debug, Clone, Copy, PartialEq, Eq, Structural)]
pub struct DerTlv {
    /// Tag octet.
    pub tag: u8,
    /// Offset of the tag octet.
    pub start: usize,
    /// Offset of the first content octet.
    pub content_start: usize,
    /// Exclusive end of the content.
    pub end: usize,
}

/// Bytes in a machine word.
pub open spec fn word_bytes() -> int {
    usize::BITS as int / 8
}

/// The length field at `off`: its value and the number of octets it occupies.
pub open spec fn der_length_spec(s: Seq<u8>, off: int) -> Result<(int, int), C04Error> {
    if off < 0 || off >= s.len() {
        Err(C04Error::MalformedDer("truncated DER length"))
    } else if s[off] < 0x80 {
        Ok((s[off] as int, 1))
    } else if s[off] == 0x80 {
        Err(C04Error::MalformedDer("indefinite DER length is forbidden"))
    } else {
        let width = s[off] - 0x80;
        if width > word_bytes() {
            Err(C04Error::MalformedDer("unsupported DER length width"))
        } else if off + 1 + width > usize::MAX {
            Err(C04Error::AccountingOverflow)
        } else if off + 1 + width > s.len() {
            Err(C04Error::MalformedDer("truncated long-form DER length"))
        } else if s[off + 1] == 0 {
            Err(C04Error::MalformedDer("non-minimal DER length has leading zero"))
        } else if be_value(s, off + 1, width as nat) > usize::MAX {
            Err(C04Error::AccountingOverflow)
        } else if be_value(s, off + 1, width as nat) < 128 {
            Err(C04Error::MalformedDer("non-minimal long-form DER length"))
        } else {
            Ok((be_value(s, off + 1, width as nat), width + 1))
        }
    }
}

/// Read a DER length field at `offset`.
pub fn parse_der_length(source: &[u8], offset: usize) -> (r: Result<(usize, usize), C04Error>)
    ensures
        match r {
            Ok((v, w)) => der_length_spec(source@, offset as int) == Ok::<(int, int), C04Error>((v as int, w as int)),
            Err(e) => der_length_spec(source@, offset as int) == Err::<(int, int), C04Error>(e),
        },
{
    if offset >= source.len() {
        return Err(C04Error::MalformedDer("truncated DER length"));
    }
    let first = source[offset];
    if first < 0x80 {
        return Ok((first as usize, 1));
    }
    if first == 0x80 {
        return Err(C04Error::MalformedDer("indefinite DER length is forbidden"));
    }
    let width = (first - 0x80) as usize;
    let word = (usize::BITS / 8) as usize;
    if width > word {
        return Err(C04Error::MalformedDer("unsupported DER length width"));
    }
    if width > usize::MAX - 1 - offset {
        return Err(C04Error::AccountingOverflow);
    }
    let start = offset + 1;
    let end = start + width;
    if end > source.len() {
        return Err(C04Error::MalformedDer("truncated long-form DER length"));
    }
    if source[start] == 0 {
        return Err(C04Error::MalformedDer("non-minimal DER length has leading zero"));
    }
    let mut value: u128 = 0;
    let mut i: usize = 0;
    let n = source.len();
    while i < width
        invariant
            i <= width <= 8,
            n == source@.len(),
            start + width <= source@.len(),
            value == be_value(source@, start as int, i as nat),
            value < crate::bytes::pow256(i as nat),
        decreases width - i,
    {
        proof {
            assert(crate::bytes::pow256(i as nat + 1) == 256 * crate::bytes::pow256(i as nat));
            lemma_pow256_le(i as nat + 1, 8);
            reveal_with_fuel(crate::bytes::pow256, 9);
            assert(crate::bytes::pow256(8) == 0x1_0000_0000_0000_0000);
            assert(value * 256 + 255 < 256 * crate::bytes::pow256(i as nat)) by (nonlinear_arith)
                requires
                    value < crate::bytes::pow256(i as nat),
            ;
        }
        assert(start + i < source@.len());
        let byte = source[start + i];
        value = value * 256 + byte as u128;
        i = i + 1;
    }
    if value > usize::MAX as u128 {
        return Err(C04Error::AccountingOverflow);
    }
    if value < 128 {
        return Err(C04Error::MalformedDer("non-minimal long-form DER length"));
    }
    Ok((value as usize, width + 1))
}

proof fn lemma_pow256_le(a: nat, b: nat)
    requires
        a <= b,
    ensures
        crate::bytes::pow256(a) <= crate::bytes::pow256(b),
        crate::bytes::pow256(a) >= 1,
    decreases b,
{
    if a < b {
        lemma_pow256_le(a, (b - 1) as nat);
    } else if a > 0 {
        lemma_pow256_le((a - 1) as nat, (a - 1) as nat);
    }
}

/// One element at `off` at nesting `depth`, after `count` elements were parsed: the element and
/// the new count.
pub open spec fn tlv_spec(s: Seq<u8>, off: int, depth: int, count: int, limits: AppleFirmwareLimits) -> Result<
    (DerTlv, int),
    C04Error,
> {
    if depth > limits.max_der_depth {
        Err(C04Error::DerDepthExceeded)
    } else if count + 1 > usize::MAX {
        Err(C04Error::AccountingOverflow)
    } else if count + 1 > limits.max_der_elements {
        Err(C04Error::DerElementsExceeded)
    } else if off < 0 || off >= s.len() {
        Err(C04Error::MalformedDer("truncated DER tag"))
    } else if s[off] % 32 == 31 {
        Err(C04Error::MalformedDer("high-tag-number form is outside C04"))
    } else {
        match der_length_spec(s, off + 1) {
            Err(e) => Err(e),
            Ok((len, w)) => if off + 1 + w + len > usize::MAX {
                Err(C04Error::AccountingOverflow)
            } else if off + 1 + w + len > s.len() {
                Err(C04Error::MalformedDer("DER value exceeds source bounds"))
            } else {
                Ok(
                    (
                        DerTlv {
                            tag: s[off],
                            start: off as usize,
                            content_start: (off + 1 + w) as usize,
                            end: (off + 1 + w + len) as usize,
                        },
                        count + 1,
                    ),
                )
            },
        }
    }
}

/// The extent of a DER element: its tag octet at `off` is followed by a length field; a short
/// form (octet below 0x80) is that one octet and gives the content length, and a long form
/// 0x80 + w is followed by w big-endian length octets, so it occupies w + 1 octets. The content
/// starts right after the length field, spans the stated length and lies inside `s`.
pub proof fn lemma_tlv_extent(s: Seq<u8>, off: int, depth: int, count: int, limits: AppleFirmwareLimits)
    requires
        tlv_spec(s, off, depth, count, limits) is Ok,
    ensures
        ({
            let t = tlv_spec(s, off, depth, count, limits)->Ok_0.0;
            &&& 0 <= off && off + 1 < s.len()
            &&& t.tag == s[off]
            &&& t.start == off
            &&& s[off + 1] < 0x80 ==> t.content_start == off + 2 && t.end == off + 2 + s[off + 1]
            &&& s[off + 1] > 0x80 ==> t.content_start == off + 2 + (s[off + 1] - 0x80) && t.end == t.content_start
                + be_value(s, off + 2, (s[off + 1] - 0x80) as nat)
            &&& s[off + 1] != 0x80
            &&& t.content_start <= t.end <= s.len()
        }),
{
}

/// Parse one element.
pub fn parse_tlv(source: &[u8], offset: usize, depth: usize, count: &mut usize, limits: AppleFirmwareLimits) -> (r:
    Result<DerTlv, C04Error>)
    ensures
        match r {
            Ok(t) => tlv_spec(source@, offset as int, depth as int, *old(count) as int, limits) == Ok::<(DerTlv, int), C04Error>(
                (t, *final(count) as int),
            ),
            Err(e) => tlv_spec(source@, offset as int, depth as int, *old(count) as int, limits) == Err::<
                (DerTlv, int),
                C04Error,
            >(e),
        },
{
    if depth > limits.max_der_depth {
        return Err(C04Error::DerDepthExceeded);
    }
    if *count == usize::MAX {
        return Err(C04Error::AccountingOverflow);
    }
    *count = *count + 1;
    if *count > limits.max_der_elements {
        return Err(C04Error::DerElementsExceeded);
    }
    if offset >= source.len() {
        return Err(C04Error::MalformedDer("truncated DER tag"));
    }
    let tag = source[offset];
    if tag % 32 == 31 {
        return Err(C04Error::MalformedDer("high-tag-number form is outside C04"));
    }
    let length_offset = offset + 1;
    let (length, width) = parse_der_length(source, length_offset)?;
    if width > usize::MAX - length_offset {
        return Err(C04Error::AccountingOverflow);
    }
    let content_start = length_offset + width;
    if length > usize::MAX - content_start {
        return Err(C04Error::AccountingOverflow);
    }
    let end = content_start + length;
    if end > source.len() {
        return Err(C04Error::MalformedDer("DER value exceeds source bounds"));
    }
    Ok(DerTlv { tag, start: offset, content_start, end })
}

pub proof fn lemma_tlv_progress(s: Seq<u8>, off: int, depth: int, count: int, limits: AppleFirmwareLimits)
    ensures
        tlv_spec(s, off, depth, count, limits) matches Ok((t, c)) ==> t.end > off && t.end <= s.len() && t.start == off
            && off < t.content_start <= t.end && c == count + 1,
{
}

/// Child depth: one deeper, saturating at the largest depth.
pub open spec fn child_depth(depth: int) -> int {
    if depth >= usize::MAX {
        depth
    } else {
        depth + 1
    }
}

/// Children filling `[cursor, end)` at nesting `depth`: the elements and the new count.
pub open spec fn children_spec(s: Seq<u8>, cursor: int, end: int, depth: int, count: int, limits: AppleFirmwareLimits) -> Result<
    (Seq<DerTlv>, int),
    C04Error,
>
    decreases end - cursor,
{
    if cursor >= end {
        if cursor != end {
            Err(C04Error::MalformedDer("constructed DER length mismatch"))
        } else {
            Ok((Seq::empty(), count))
        }
    } else {
        match tlv_spec(s, cursor, depth, count, limits) {
            Err(e) => Err(e),
            Ok((child, c)) => if child.end > end {
                Err(C04Error::MalformedDer("child exceeds containing DER object"))
            } else {
                proof {
                    lemma_tlv_progress(s, cursor, depth, count, limits);
                }
                match children_spec(s, child.end as int, end, depth, c, limits) {
                    Err(e) => Err(e),
                    Ok((rest, c2)) => Ok((seq![child] + rest, c2)),
                }
            },
        }
    }
}

/// A constructed element with tag `expected` at `off`: the element, its children and the new count.
pub open spec fn constructed_spec(
    s: Seq<u8>,
    off: int,
    expected: u8,
    depth: int,
    count: int,
    limits: AppleFirmwareLimits,
) -> Result<(DerTlv, Seq<DerTlv>, int), C04Error> {
    match tlv_spec(s, off, depth, count, limits) {
        Err(e) => Err(e),
        Ok((outer, c1)) => if outer.tag != expected {
            Err(C04Error::MalformedDer("unexpected constructed DER tag"))
        } else {
            match children_spec(s, outer.content_start as int, outer.end as int, child_depth(depth), c1, limits) {
                Err(e) => Err(e),
                Ok((kids, c2)) => Ok((outer, kids, c2)),
            }
        },
    }
}

/// Parse a constructed element with tag `expected` and its children.
pub fn parse_constructed(
    source: &[u8],
    offset: usize,
    expected: u8,
    depth: usize,
    count: &mut usize,
    limits: AppleFirmwareLimits,
) -> (r: Result<(DerTlv, Vec<DerTlv>), C04Error>)
    ensures
        match r {
            Ok((t, kids)) => constructed_spec(source@, offset as int, expected, depth as int, *old(count) as int, limits)
                == Ok::<(DerTlv, Seq<DerTlv>, int), C04Error>((t, kids@, *final(count) as int)),
            Err(e) => constructed_spec(source@, offset as int, expected, depth as int, *old(count) as int, limits)
                == Err::<(DerTlv, Seq<DerTlv>, int), C04Error>(e),
        },
{
    let outer = parse_tlv(source, offset, depth, count, limits)?;
    if outer.tag != expected {
        return Err(C04Error::MalformedDer("unexpected constructed DER tag"));
    }
    let d = if depth == usize::MAX { depth } else { depth + 1 };
    let ghost c1 = *count as int;
    let ghost whole = children_spec(source@, outer.content_start as int, outer.end as int, d as int, c1, limits);
    let ghost total = constructed_spec(source@, offset as int, expected, depth as int, *old(count) as int, limits);
    assert(total == match whole {
        Ok((k, c)) => Ok::<(DerTlv, Seq<DerTlv>, int), C04Error>((outer, k, c)),
        Err(e) => Err::<(DerTlv, Seq<DerTlv>, int), C04Error>(e),
    });
    let mut kids: Vec<DerTlv> = Vec::new();
    let mut cursor = outer.content_start;
    while cursor < outer.end
        invariant
            outer.content_start <= cursor,
            cursor <= outer.end,
            outer.end <= source@.len(),
            total == constructed_spec(source@, offset as int, expected, depth as int, *old(count) as int, limits),
            total == match whole {
                Ok((k, c)) => Ok::<(DerTlv, Seq<DerTlv>, int), C04Error>((outer, k, c)),
                Err(e) => Err::<(DerTlv, Seq<DerTlv>, int), C04Error>(e),
            },
            whole == children_spec(source@, outer.content_start as int, outer.end as int, d as int, c1, limits),
            whole == match children_spec(source@, cursor as int, outer.end as int, d as int, *count as int, limits) {
                Ok((rest, c)) => Ok::<(Seq<DerTlv>, int), C04Error>((kids@ + rest, c)),
                Err(e) => Err::<(Seq<DerTlv>, int), C04Error>(e),
            },
        decreases outer.end - cursor,
    {
        let ghost before = *count as int;
        let child = match parse_tlv(source, cursor, d, count, limits) {
            Ok(c) => c,
            Err(e) => {
                return Err(e);
            },
        };
        proof {
            lemma_tlv_progress(source@, cursor as int, d as int, before, limits);
        }
        if child.end > outer.end {
            return Err(C04Error::MalformedDer("child exceeds containing DER object"));
        }
        let ghost old_kids = kids@;
        kids.push(child);
        proof {
            match children_spec(source@, child.end as int, outer.end as int, d as int, *count as int, limits) {
                Ok((rest, c)) => {
                    assert(old_kids + (seq![child] + rest) =~= kids@ + rest);
                },
                Err(e) => {},
            }
        }
        cursor = child.end;
    }
    if cursor != outer.end {
        return Err(C04Error::MalformedDer("constructed DER length mismatch"));
    }
    assert(kids@ + Seq::<DerTlv>::empty() =~= kids@);
    Ok((outer, kids))
}

} // verus!
