//! Character-level text normalization: whitespace trimming, ASCII case folding, UTF-8 bounded
//! truncation, first-occurrence deduplication and joining.
use vstd::prelude::*;
use crate::text::push_char;
use crate::partition_map::{push_string, string_views};

verus! {

/// The characters of `s`, in order.
pub fn chars_of(s: &str) -> (r: Vec<char>)
    ensures
        r@ == s@,
{
    broadcast use vstd::string::axiom_spec_iter;
    let mut out: Vec<char> = Vec::new();
    for c in it: s.chars()
        invariant
            out@ == it.seq().take(it.index() as int),
            it.seq() == s@,
    {
        out.push(c);
    }
    out
}

/// Rust's `char::is_whitespace`: the Unicode `White_Space` property.
pub open spec fn is_white(c: char) -> bool {
    let n = c as u32;
    ||| 0x9 <= n <= 0xd
    ||| n == 0x20
    ||| n == 0x85
    ||| n == 0xa0
    ||| n == 0x1680
    ||| 0x2000 <= n <= 0x200a
    ||| n == 0x2028
    ||| n == 0x2029
    ||| n == 0x202f
    ||| n == 0x205f
    ||| n == 0x3000
}

/// Whether `c` is Unicode white space.
pub fn white(c: char) -> (r: bool)
    ensures
        r == is_white(c),
{
    let n = c as u32;
    (0x9 <= n && n <= 0xd) || n == 0x20 || n == 0x85 || n == 0xa0 || n == 0x1680 || (0x2000 <= n && n <= 0x200a)
        || n == 0x2028 || n == 0x2029 || n == 0x202f || n == 0x205f || n == 0x3000
}

/// Index of the first non-white character of `s` at or after `i`, or `s.len()`.
pub open spec fn first_kept(s: Seq<char>, i: int) -> int
    decreases s.len() - i,
{
    if i < 0 || i >= s.len() {
        s.len() as int
    } else if !is_white(s[i]) {
        i
    } else {
        first_kept(s, i + 1)
    }
}

/// One past the last non-white character of `s` before `j`, or `0`.
pub open spec fn last_kept_end(s: Seq<char>, j: int) -> int
    decreases j,
{
    if j <= 0 || j > s.len() {
        0
    } else if !is_white(s[j - 1]) {
        j
    } else {
        last_kept_end(s, j - 1)
    }
}

/// `s` without leading and trailing white space (Rust's `str::trim`).
pub open spec fn trim_spec(s: Seq<char>) -> Seq<char> {
    let a = first_kept(s, 0);
    let b = last_kept_end(s, s.len() as int);
    if a < b {
        s.subrange(a, b)
    } else {
        Seq::empty()
    }
}

proof fn lemma_first_kept_range(s: Seq<char>, i: int)
    requires
        0 <= i <= s.len(),
    ensures
        i <= first_kept(s, i) <= s.len(),
    decreases s.len() - i,
{
    if i < s.len() && is_white(s[i]) {
        lemma_first_kept_range(s, i + 1);
    }
}

proof fn lemma_last_kept_range(s: Seq<char>, j: int)
    requires
        0 <= j <= s.len(),
    ensures
        0 <= last_kept_end(s, j) <= j,
    decreases j,
{
    if j > 0 && is_white(s[j - 1]) {
        lemma_last_kept_range(s, j - 1);
    }
}

/// The characters of `s` without leading and trailing white space.
pub fn trim_chars(s: &str) -> (r: Vec<char>)
    ensures
        r@ == trim_spec(s@),
{
    let cs = chars_of(s);
    let n = cs.len();
    let mut a: usize = 0;
    while a < n && white(cs[a])
        invariant
            a <= n,
            n == cs@.len(),
            first_kept(cs@, 0) == first_kept(cs@, a as int),
        decreases n - a,
    {
        a = a + 1;
    }
    let mut b: usize = n;
    while b > 0 && white(cs[b - 1])
        invariant
            b <= n,
            n == cs@.len(),
            last_kept_end(cs@, n as int) == last_kept_end(cs@, b as int),
        decreases b,
    {
        b = b - 1;
    }
    let mut out: Vec<char> = Vec::new();
    if a < b {
        let mut k: usize = a;
        while k < b
            invariant
                a <= k <= b,
                b <= n,
                n == cs@.len(),
                out@ == cs@.subrange(a as int, k as int),
            decreases b - k,
        {
            out.push(cs[k]);
            assert(cs@.subrange(a as int, k as int + 1) =~= cs@.subrange(a as int, k as int).push(cs@[k as int]));
            k = k + 1;
        }
    } else {
        assert(out@ =~= Seq::<char>::empty());
    }
    out
}

/// ASCII upper-case letters folded to lower case; every other character unchanged.
pub open spec fn lower_char(c: char) -> char {
    if 65 <= (c as u32) <= 90 {
        ((c as u32) + 32) as char
    } else {
        c
    }
}

/// Rust's `str::to_ascii_lowercase` on characters.
pub open spec fn ascii_lower(s: Seq<char>) -> Seq<char> {
    s.map_values(|c: char| lower_char(c))
}

pub(crate) fn lower(c: char) -> (r: char)
    ensures
        r == lower_char(c),
{
    let n = c as u32;
    if 65 <= n && n <= 90 {
        let b = (n + 32) as u8;
        b as char
    } else {
        c
    }
}

/// Build a string from characters.
pub fn string_of(cs: &[char]) -> (s: String)
    ensures
        s@ == cs@,
{
    let mut s = String::new();
    let mut i: usize = 0;
    while i < cs.len()
        invariant
            i <= cs@.len(),
            s@ == cs@.take(i as int),
        decreases cs.len() - i,
    {
        push_char(&mut s, cs[i]);
        assert(cs@.take(i as int + 1) =~= cs@.take(i as int).push(cs@[i as int]));
        i = i + 1;
    }
    assert(cs@.take(cs@.len() as int) =~= cs@);
    s
}

/// A type or media-type token: trimmed and ASCII lower-cased.
pub open spec fn normalize_type_spec(s: Seq<char>) -> Seq<char> {
    ascii_lower(trim_spec(s))
}

/// Normalize a type token: trim white space and fold ASCII letters to lower case.
pub fn normalize_type(value: &str) -> (r: String)
    ensures
        r@ == normalize_type_spec(value@),
{
    let t = trim_chars(value);
    let mut s = String::new();
    let mut i: usize = 0;
    while i < t.len()
        invariant
            i <= t@.len(),
            s@ == ascii_lower(t@).take(i as int),
        decreases t.len() - i,
    {
        push_char(&mut s, lower(t[i]));
        assert(ascii_lower(t@).take(i as int + 1) =~= ascii_lower(t@).take(i as int).push(lower_char(t@[i as int])));
        i = i + 1;
    }
    assert(ascii_lower(t@).take(t@.len() as int) =~= ascii_lower(t@));
    s
}

/// `s` trimmed of white space, as a string.
pub fn trimmed(value: &str) -> (r: String)
    ensures
        r@ == trim_spec(value@),
{
    let t = trim_chars(value);
    string_of(t.as_slice())
}

/// First occurrences of `s`, in order (a later repeat of an earlier value is dropped).
pub open spec fn dedup_spec(s: Seq<Seq<char>>) -> Seq<Seq<char>>
    decreases s.len(),
{
    if s.len() == 0 {
        Seq::empty()
    } else {
        let d = dedup_spec(s.drop_last());
        if d.contains(s.last()) {
            d
        } else {
            d.push(s.last())
        }
    }
}

/// Whether `values` holds a string equal to `x`.
pub fn contains_text(values: &Vec<String>, x: &String) -> (r: bool)
    ensures
        r == string_views(values@).contains(x@),
{
    let ghost v = string_views(values@);
    let mut i: usize = 0;
    while i < values.len()
        invariant
            i <= values@.len(),
            v == string_views(values@),
            forall|j: int| 0 <= j < i ==> v[j] != x@,
        decreases values.len() - i,
    {
        assert(v[i as int] == values@[i as int]@);
        if values[i] == *x {
            assert(v.contains(x@)) by {
                assert(v[i as int] == x@);
            }
            return true;
        }
        i = i + 1;
    }
    false
}

/// Keep only the first occurrence of each value, in order.
pub fn dedup_strings(values: &mut Vec<String>)
    ensures
        string_views(final(values)@) == dedup_spec(string_views(old(values)@)),
{
    let mut input: Vec<String> = Vec::new();
    std::mem::swap(&mut input, values);
    let ghost src = string_views(input@);
    let mut out: Vec<String> = Vec::new();
    let mut i: usize = 0;
    while i < input.len()
        invariant
            i <= input@.len(),
            src == string_views(input@),
            string_views(out@) == dedup_spec(src.take(i as int)),
        decreases input.len() - i,
    {
        let x = input[i].clone();
        assert(src.take(i as int + 1).drop_last() =~= src.take(i as int));
        assert(src.take(i as int + 1).last() == x@);
        if !contains_text(&out, &x) {
            push_string(&mut out, x);
        }
        i = i + 1;
    }
    assert(src.take(src.len() as int) =~= src);
    *values = out;
}

/// Byte length of the UTF-8 encoding of one character.
pub open spec fn char_width(c: char) -> nat {
    vstd::utf8::encode_scalar(c as u32).len()
}

/// Byte length of the UTF-8 encoding of a text.
pub open spec fn utf8_len(s: Seq<char>) -> nat {
    vstd::utf8::encode_utf8(s).len()
}

/// UTF-8 encoding distributes over concatenation.
pub proof fn lemma_utf8_concat(a: Seq<char>, b: Seq<char>)
    ensures
        vstd::utf8::encode_utf8(a + b) == vstd::utf8::encode_utf8(a) + vstd::utf8::encode_utf8(b),
    decreases a.len(),
{
    if a.len() == 0 {
        assert(a + b =~= b);
        assert(vstd::utf8::encode_utf8(a) =~= Seq::<u8>::empty());
        assert(vstd::utf8::encode_utf8(a) + vstd::utf8::encode_utf8(b) =~= vstd::utf8::encode_utf8(b));
    } else {
        lemma_utf8_concat(a.drop_first(), b);
        assert((a + b).drop_first() =~= a.drop_first() + b);
        assert((a + b)[0] == a[0]);
        assert(vstd::utf8::encode_utf8(a + b) =~= vstd::utf8::encode_scalar(a[0] as u32) + (vstd::utf8::encode_utf8(
            a.drop_first(),
        ) + vstd::utf8::encode_utf8(b)));
    }
}

/// Appending a character adds its width to the encoded length.
pub proof fn lemma_utf8_push(a: Seq<char>, c: char)
    ensures
        utf8_len(a.push(c)) == utf8_len(a) + char_width(c),
{
    lemma_utf8_concat(a, seq![c]);
    assert(a.push(c) =~= a + seq![c]);
    assert(seq![c].drop_first() =~= Seq::<char>::empty());
    assert(vstd::utf8::encode_utf8(seq![c]) =~= vstd::utf8::encode_scalar(c as u32) + vstd::utf8::encode_utf8(
        Seq::<char>::empty(),
    ));
}

/// Byte width of a character's UTF-8 encoding.
pub fn width_of(c: char) -> (w: usize)
    ensures
        w == char_width(c),
        1 <= w <= 4,
{
    proof {
        vstd::utf8::char_is_scalar(c);
    }
    let n = c as u32;
    if n < 0x80 {
        1
    } else if n < 0x800 {
        2
    } else if n < 0x10000 {
        3
    } else {
        4
    }
}

/// Characters of `s` from index `i` that fit, greedily, in `max` bytes when `used` are taken.
pub open spec fn fit_count(s: Seq<char>, max: int, i: int, used: int) -> int
    decreases s.len() - i,
{
    if i < 0 || i >= s.len() || used + char_width(s[i]) > max {
        i
    } else {
        fit_count(s, max, i + 1, used + char_width(s[i]))
    }
}

/// Rust's truncation of text to at most `max` bytes at a character boundary: the text and
/// `false` when it already fits, else the longest fitting prefix and `true`.
pub open spec fn truncate_spec(s: Seq<char>, max: int) -> (Seq<char>, bool) {
    if utf8_len(s) <= max {
        (s, false)
    } else {
        (s.take(fit_count(s, max, 0, 0)), true)
    }
}

proof fn lemma_fit_count_range(s: Seq<char>, max: int, i: int, used: int)
    requires
        0 <= i <= s.len(),
    ensures
        i <= fit_count(s, max, i, used) <= s.len(),
    decreases s.len() - i,
{
    if i < s.len() && used + char_width(s[i]) <= max {
        lemma_fit_count_range(s, max, i + 1, used + char_width(s[i]));
    }
}

/// Truncate `value` to at most `max_bytes` UTF-8 bytes at a character boundary; the flag tells
/// whether anything was cut.
pub fn truncate_utf8(value: &str, max_bytes: usize) -> (r: (String, bool))
    ensures
        (r.0@, r.1) == truncate_spec(value@, max_bytes as int),
        utf8_len(r.0@) <= max_bytes || !r.1,
{
    if value.as_bytes().len() <= max_bytes {
        return (value.to_owned(), false);
    }
    let cs = chars_of(value);
    let mut used: usize = 0;
    let mut i: usize = 0;
    let mut stop = false;
    assert(cs@.take(0) =~= Seq::<char>::empty());
    assert(vstd::utf8::encode_utf8(Seq::<char>::empty()) =~= Seq::<u8>::empty());
    while i < cs.len() && !stop
        invariant
            i <= cs@.len(),
            cs@ == value@,
            used <= max_bytes,
            used == utf8_len(cs@.take(i as int)),
            fit_count(cs@, max_bytes as int, 0, 0) == fit_count(cs@, max_bytes as int, i as int, used as int),
            stop ==> i < cs@.len() && used + char_width(cs@[i as int]) > max_bytes,
        decreases cs.len() - i + (if stop { 0int } else { 1int }),
    {
        let w = width_of(cs[i]);
        if w > max_bytes - used {
            stop = true;
        } else {
            proof {
                lemma_utf8_push(cs@.take(i as int), cs@[i as int]);
                assert(cs@.take(i as int + 1) =~= cs@.take(i as int).push(cs@[i as int]));
            }
            used = used + w;
            i = i + 1;
        }
    }
    assert(cs@.take(cs@.len() as int) =~= cs@);
    let mut out = String::new();
    let mut k: usize = 0;
    while k < i
        invariant
            k <= i <= cs@.len(),
            out@ == cs@.take(k as int),
        decreases i - k,
    {
        push_char(&mut out, cs[k]);
        assert(cs@.take(k as int + 1) =~= cs@.take(k as int).push(cs@[k as int]));
        k = k + 1;
    }
    (out, true)
}

/// Texts joined with a separator.
pub open spec fn join_spec(s: Seq<Seq<char>>, sep: Seq<char>) -> Seq<char>
    decreases s.len(),
{
    if s.len() == 0 {
        Seq::empty()
    } else if s.len() == 1 {
        s[0]
    } else {
        join_spec(s.drop_last(), sep) + sep + s.last()
    }
}

/// Join texts with `sep` between consecutive ones.
pub fn join_strings(values: &Vec<String>, sep: &str) -> (r: String)
    ensures
        r@ == join_spec(string_views(values@), sep@),
{
    let ghost v = string_views(values@);
    let mut out = String::new();
    let mut i: usize = 0;
    while i < values.len()
        invariant
            i <= values@.len(),
            v == string_views(values@),
            out@ == join_spec(v.take(i as int), sep@),
        decreases values.len() - i,
    {
        assert(v.take(i as int + 1).drop_last() =~= v.take(i as int));
        assert(v[i as int] == values@[i as int]@);
        if i > 0 {
            out.append(sep);
        } else {
            assert(out@ =~= Seq::<char>::empty());
        }
        out.append(values[i].as_str());
        i = i + 1;
    }
    assert(v.take(v.len() as int) =~= v);
    out
}

/// Why a list of component identities is unusable.
#[derive(Debug)]
pub enum IdFault {
    /// An identity is empty after trimming.
    Empty,
    /// An identity (trimmed) repeats an earlier one.
    Duplicate(String),
}

/// Abstract value of an identity fault.
pub ghost enum IdFaultView {
    /// Empty identity.
    Empty,
    /// Repeated identity.
    Duplicate(Seq<char>),
}

impl View for IdFault {
    type V = IdFaultView;

    open spec fn view(&self) -> IdFaultView {
        match self {
            IdFault::Empty => IdFaultView::Empty,
            IdFault::Duplicate(s) => IdFaultView::Duplicate(s@),
        }
    }
}

/// Trimmed identities.
pub open spec fn trimmed_ids(ids: Seq<Seq<char>>) -> Seq<Seq<char>> {
    ids.map_values(|x: Seq<char>| trim_spec(x))
}

/// The first identity fault in `ids`, in order: an identity that is empty once trimmed, or one
/// whose trimmed form repeats an earlier trimmed identity.
pub open spec fn id_fault_spec(ids: Seq<Seq<char>>) -> Option<IdFaultView>
    decreases ids.len(),
{
    if ids.len() == 0 {
        None
    } else {
        match id_fault_spec(ids.drop_last()) {
            Some(f) => Some(f),
            None => {
                let t = trim_spec(ids.last());
                if t.len() == 0 {
                    Some(IdFaultView::Empty)
                } else if trimmed_ids(ids.drop_last()).contains(t) {
                    Some(IdFaultView::Duplicate(t))
                } else {
                    None
                }
            },
        }
    }
}

/// The first identity fault in `ids`, if any.
pub fn first_id_fault(ids: &Vec<String>) -> (r: Option<IdFault>)
    ensures
        match r {
            None => id_fault_spec(string_views(ids@)) is None,
            Some(f) => id_fault_spec(string_views(ids@)) == Some(f@),
        },
{
    let ghost v = string_views(ids@);
    let mut seen: Vec<String> = Vec::new();
    let mut i: usize = 0;
    while i < ids.len()
        invariant
            i <= ids@.len(),
            v == string_views(ids@),
            id_fault_spec(v.take(i as int)) is None,
            string_views(seen@) == trimmed_ids(v.take(i as int)),
        decreases ids.len() - i,
    {
        assert(v.take(i as int + 1).drop_last() =~= v.take(i as int));
        assert(v.take(i as int + 1).last() == ids@[i as int]@);
        let t = trimmed(ids[i].as_str());
        if t.as_str().unicode_len() == 0 {
            assert(id_fault_spec(v.take(i as int + 1)) == Some(IdFaultView::Empty));
            proof { lemma_id_fault_extends(v, i as int + 1); }
            return Some(IdFault::Empty);
        }
        if contains_text(&seen, &t) {
            assert(id_fault_spec(v.take(i as int + 1)) == Some(IdFaultView::Duplicate(t@)));
            proof { lemma_id_fault_extends(v, i as int + 1); }
            return Some(IdFault::Duplicate(t));
        }
        let ghost before = seen@;
        push_string(&mut seen, t);
        assert(trimmed_ids(v.take(i as int + 1)) =~= trimmed_ids(v.take(i as int)).push(trim_spec(v[i as int])));
        i = i + 1;
    }
    assert(v.take(v.len() as int) =~= v);
    None
}

proof fn lemma_id_fault_extends(v: Seq<Seq<char>>, k: int)
    requires
        0 <= k <= v.len(),
        id_fault_spec(v.take(k)) is Some,
    ensures
        id_fault_spec(v) == id_fault_spec(v.take(k)),
    decreases v.len() - k,
{
    if k < v.len() {
        assert(v.take(k + 1).drop_last() =~= v.take(k));
        lemma_id_fault_extends(v, k + 1);
    } else {
        assert(v.take(k) =~= v);
    }
}

/// A truncated text fits its bound.
pub proof fn lemma_truncate_fits(s: Seq<char>, max: int)
    requires
        max >= 0,
    ensures
        utf8_len(truncate_spec(s, max).0) <= max,
{
    if utf8_len(s) > max {
        assert(s.take(0) =~= Seq::<char>::empty());
        assert(vstd::utf8::encode_utf8(Seq::<char>::empty()) =~= Seq::<u8>::empty());
        lemma_fit_prefix(s, max, 0, 0);
    }
}

proof fn lemma_fit_prefix(s: Seq<char>, max: int, i: int, used: int)
    requires
        0 <= i <= s.len(),
        used == utf8_len(s.take(i)),
        used <= max,
    ensures
        utf8_len(s.take(fit_count(s, max, i, used))) <= max,
    decreases s.len() - i,
{
    if i < s.len() && used + char_width(s[i]) <= max {
        lemma_utf8_push(s.take(i), s[i]);
        assert(s.take(i + 1) =~= s.take(i).push(s[i]));
        lemma_fit_prefix(s, max, i + 1, used + char_width(s[i]));
    }
}

} // verus!
