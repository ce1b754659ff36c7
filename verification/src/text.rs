//! Building text values: characters, decimal and hexadecimal renderings.
use vstd::prelude::*;

verus! {

/// Calls `String::push`: the string afterwards is the old string with `c` appended.
#[verifier::external_body]
pub(crate) fn push_char(s: &mut String, c: char)
    ensures
        final(s)@ == old(s)@.push(c),
{
    s.push(c);
}

/// The ASCII decimal digit for `d < 10`.
pub open spec fn decimal_digit(d: int) -> char {
    ((48 + d) as u8) as char
}

/// Shortest decimal rendering of `n` (no sign, no leading zeros).
pub open spec fn decimal(n: nat) -> Seq<char>
    decreases n,
{
    if n < 10 {
        seq![decimal_digit(n as int)]
    } else {
        decimal(n / 10).push(decimal_digit((n % 10) as int))
    }
}

fn digit_char(d: u64) -> (c: char)
    requires
        d < 10,
    ensures
        c == decimal_digit(d as int),
{
    ((48 + d) as u8) as char
}

/// Append the decimal rendering of `n`.
pub fn push_decimal(s: &mut String, n: u64)
    ensures
        final(s)@ == old(s)@ + decimal(n as nat),
    decreases n,
{
    if n >= 10 {
        push_decimal(s, n / 10);
    }
    let c = digit_char(n % 10);
    push_char(s, c);
    assert(final(s)@ =~= old(s)@ + decimal(n as nat));
}

/// Decimal rendering of `n` as a new string.
pub fn decimal_string(n: u64) -> (s: String)
    ensures
        s@ == decimal(n as nat),
{
    let mut s = String::new();
    push_decimal(&mut s, n);
    assert(s@ =~= decimal(n as nat));
    s
}

/// Lowercase hexadecimal digit for `d < 16`.
pub open spec fn hex_digit(d: int) -> char {
    if d < 10 {
        ((48 + d) as u8) as char
    } else {
        ((87 + d) as u8) as char
    }
}

/// Two lowercase hex digits per byte, most significant nibble first.
pub open spec fn hex_lower(s: Seq<u8>) -> Seq<char>
    decreases s.len(),
{
    if s.len() == 0 {
        Seq::empty()
    } else {
        hex_lower(s.drop_last()).push(hex_digit(s.last() as int / 16)).push(
            hex_digit(s.last() as int % 16),
        )
    }
}

/// Each byte renders as two digits.
pub proof fn lemma_hex_lower_len(s: Seq<u8>)
    ensures
        hex_lower(s).len() == 2 * s.len(),
    decreases s.len(),
{
    if s.len() > 0 {
        lemma_hex_lower_len(s.drop_last());
    }
}

/// The rendering of one byte is its two nibble digits.
pub proof fn lemma_hex_lower_single(b: u8)
    ensures
        hex_lower(seq![b]) == seq![hex_digit(b as int / 16), hex_digit(b as int % 16)],
{
    reveal_with_fuel(hex_lower, 2);
    assert(seq![b].drop_last() =~= Seq::<u8>::empty());
    assert(hex_lower(seq![b]) =~= seq![hex_digit(b as int / 16), hex_digit(b as int % 16)]);
}

fn hex_char(d: u8) -> (c: char)
    requires
        d < 16,
    ensures
        c == hex_digit(d as int),
{
    if d < 10 {
        (48 + d) as char
    } else {
        (87 + d) as char
    }
}

/// Append two lowercase hex digits for one byte.
pub fn push_hex_byte(s: &mut String, b: u8)
    ensures
        final(s)@ == old(s)@ + hex_lower(seq![b]),
{
    push_char(s, hex_char(b / 16));
    push_char(s, hex_char(b % 16));
    proof {
        lemma_hex_lower_single(b);
    }
    assert(final(s)@ =~= old(s)@ + hex_lower(seq![b]));
}

/// Append the lowercase hex rendering of `bytes[start..end]`.
pub fn push_hex_range(s: &mut String, bytes: &[u8], start: usize, end: usize)
    requires
        start <= end <= bytes@.len(),
    ensures
        final(s)@ == old(s)@ + hex_lower(bytes@.subrange(start as int, end as int)),
{
    let mut i = start;
    assert(bytes@.subrange(start as int, start as int) =~= Seq::<u8>::empty());
    while i < end
        invariant
            start <= i <= end <= bytes@.len(),
            s@ == old(s)@ + hex_lower(bytes@.subrange(start as int, i as int)),
        decreases end - i,
    {
        let ghost before = s@;
        push_hex_byte(s, bytes[i]);
        let ghost sub = bytes@.subrange(start as int, i as int + 1);
        assert(sub.drop_last() =~= bytes@.subrange(start as int, i as int));
        proof {
            lemma_hex_lower_single(bytes@[i as int]);
        }
        assert(s@ =~= old(s)@ + hex_lower(sub));
        i = i + 1;
    }
}

/// Lowercase hex rendering of `bytes`.
pub fn hex_string(bytes: &[u8]) -> (s: String)
    ensures
        s@ == hex_lower(bytes@),
{
    let mut s = String::new();
    push_hex_range(&mut s, bytes, 0, bytes.len());
    assert(bytes@.subrange(0, bytes@.len() as int) =~= bytes@);
    assert(s@ =~= hex_lower(bytes@));
    s
}


/// `prefix`, the decimal rendering of `n`, then `suffix`.
pub fn numbered_message(prefix: &str, n: u64, suffix: &str) -> (s: String)
    ensures
        s@ == prefix@ + decimal(n as nat) + suffix@,
{
    let mut s = String::from_str(prefix);
    push_decimal(&mut s, n);
    s.append(suffix);
    s
}

/// A new string holding `text`.
pub fn owned(text: &str) -> (s: String)
    ensures
        s@ == text@,
{
    String::from_str(text)
}

} // verus!
