//! Passive HTML handling: active-content detection, removal of active regions, title
//! extraction and tag-free text. Positions are character positions in the source and in its
//! ASCII lower-case fold, which has the same length.
use vstd::prelude::*;
use crate::text_ops::{ascii_lower, is_white, lower, lower_char, white};

verus! {

/// `p` occurs in `s` at `i`.
pub open spec fn occurs_at(s: Seq<char>, i: int, p: Seq<char>) -> bool {
    0 <= i && i + p.len() <= s.len() && s.subrange(i, i + p.len()) == p
}

/// The first occurrence of the non-empty `p` in `s` at or after `from`.
pub open spec fn find_from(s: Seq<char>, p: Seq<char>, from: int) -> Option<int>
    decreases s.len() - from,
{
    if from < 0 || from >= s.len() || from + p.len() > s.len() {
        None
    } else if occurs_at(s, from, p) {
        Some(from)
    } else {
        find_from(s, p, from + 1)
    }
}

/// A found occurrence lies at or after `from` and fits in `s`.
pub proof fn lemma_find_from_bounds(s: Seq<char>, p: Seq<char>, from: int)
    ensures
        find_from(s, p, from) matches Some(i) ==> from <= i && i + p.len() <= s.len() && occurs_at(s, i, p),
    decreases s.len() - from,
{
    if !(from < 0 || from >= s.len() || from + p.len() > s.len()) && !occurs_at(s, from, p) {
        lemma_find_from_bounds(s, p, from + 1);
    }
}

/// The first occurrence of `p` at or after `from`, computed.
pub fn find_chars(s: &Vec<char>, p: &Vec<char>, from: usize) -> (r: Option<usize>)
    requires
        p@.len() > 0,
    ensures
        r is Some <==> find_from(s@, p@, from as int) is Some,
        r matches Some(k) ==> (find_from(s@, p@, from as int) == Some(k as int) && from <= k && k + p@.len()
            <= s@.len()),
{
    proof {
        lemma_find_from_bounds(s@, p@, from as int);
    }
    let n = s.len();
    let m = p.len();
    let mut i = from;
    while i < n && m <= n - i
        invariant
            from <= i,
            n == s@.len(),
            m == p@.len() > 0,
            find_from(s@, p@, from as int) == find_from(s@, p@, i as int),
        decreases n - i,
    {
        let mut k: usize = 0;
        while k < m && s[i + k] == p[k]
            invariant
                k <= m,
                i + m <= n,
                n == s@.len(),
                m == p@.len(),
                forall|q: int| 0 <= q < k ==> s@[i + q] == p@[q],
            decreases m - k,
        {
            k = k + 1;
        }
        if k == m {
            assert(s@.subrange(i as int, i + m) =~= p@);
            return Some(i);
        }
        assert(s@.subrange(i as int, i + m)[k as int] != p@[k as int]);
        i = i + 1;
    }
    None
}

/// Rust's `u8::is_ascii_whitespace` on a character: space, tab, line feed, form feed or
/// carriage return.
pub open spec fn ascii_white(c: char) -> bool {
    c == ' ' || c == '\t' || c == '\n' || c == '\x0C' || c == '\r'
}

fn ascii_white_exec(c: char) -> (r: bool)
    ensures
        r == ascii_white(c),
{
    c == ' ' || c == '\t' || c == '\n' || c == '\x0C' || c == '\r'
}

/// Characters of `s` folded to ASCII lower case.
pub fn lower_chars(s: &Vec<char>) -> (r: Vec<char>)
    ensures
        r@ == ascii_lower(s@),
{
    let mut out: Vec<char> = Vec::new();
    let mut i: usize = 0;
    while i < s.len()
        invariant
            i <= s@.len(),
            out@ == ascii_lower(s@.take(i as int)),
        decreases s.len() - i,
    {
        out.push(lower(s[i]));
        assert(ascii_lower(s@.take(i as int + 1)) =~= ascii_lower(s@.take(i as int)).push(lower_char(s@[i as int])));
        i = i + 1;
    }
    assert(s@.take(s@.len() as int) =~= s@);
    out
}

/// Text without markup: `<` and `>` become spaces and characters between them are dropped;
/// the flag says whether a tag is open at the end.
pub open spec fn strip_tags(s: Seq<char>) -> (Seq<char>, bool)
    decreases s.len(),
{
    if s.len() == 0 {
        (Seq::empty(), false)
    } else {
        let prev = strip_tags(s.drop_last());
        let c = s.last();
        if c == '<' {
            (prev.0.push(' '), true)
        } else if c == '>' {
            (prev.0.push(' '), false)
        } else if !prev.1 {
            (prev.0.push(c), false)
        } else {
            prev
        }
    }
}

/// Every non-overlapping occurrence of the non-empty `p` replaced by `r`, scanning left to right.
pub open spec fn replace_all(s: Seq<char>, p: Seq<char>, r: Seq<char>) -> Seq<char>
    decreases s.len(),
{
    if p.len() == 0 || s.len() < p.len() {
        s
    } else if s.take(p.len() as int) == p {
        r + replace_all(s.skip(p.len() as int), p, r)
    } else {
        seq![s[0]] + replace_all(s.drop_first(), p, r)
    }
}

/// The six character references that passive text decodes, `&amp;` last.
pub open spec fn decode_entities(s: Seq<char>) -> Seq<char> {
    replace_all(
        replace_all(
            replace_all(
                replace_all(replace_all(replace_all(s, "&nbsp;"@, " "@), "&lt;"@, "<"@), "&gt;"@, ">"@),
                "&quot;"@,
                "\""@,
            ),
            "&#39;"@,
            "'"@,
        ),
        "&amp;"@,
        "&"@,
    )
}

/// White-space runs collapsed to one space, leading and trailing white space removed (the
/// white-space separated words joined by single spaces); the flag says whether a space is
/// pending before the next word.
pub open spec fn squeeze(s: Seq<char>) -> (Seq<char>, bool)
    decreases s.len(),
{
    if s.len() == 0 {
        (Seq::empty(), false)
    } else {
        let prev = squeeze(s.drop_last());
        let c = s.last();
        if is_white(c) {
            (prev.0, prev.0.len() > 0)
        } else if prev.1 {
            (prev.0.push(' ').push(c), false)
        } else {
            (prev.0.push(c), false)
        }
    }
}

/// Passive text of an HTML fragment: markup dropped, character references decoded and white
/// space collapsed.
pub open spec fn html_text_spec(s: Seq<char>) -> Seq<char> {
    squeeze(decode_entities(strip_tags(s).0)).0
}

fn strip_tags_exec(s: &Vec<char>) -> (r: Vec<char>)
    ensures
        r@ == strip_tags(s@).0,
{
    let mut out: Vec<char> = Vec::new();
    let mut in_tag = false;
    let mut i: usize = 0;
    while i < s.len()
        invariant
            i <= s@.len(),
            (out@, in_tag) == strip_tags(s@.take(i as int)),
        decreases s.len() - i,
    {
        let c = s[i];
        assert(s@.take(i as int + 1).drop_last() =~= s@.take(i as int));
        if c == '<' {
            in_tag = true;
            out.push(' ');
        } else if c == '>' {
            in_tag = false;
            out.push(' ');
        } else if !in_tag {
            out.push(c);
        }
        i = i + 1;
    }
    assert(s@.take(s@.len() as int) =~= s@);
    out
}

fn replace_all_exec(s: &Vec<char>, p: &Vec<char>, r: &Vec<char>) -> (out: Vec<char>)
    requires
        p@.len() > 0,
    ensures
        out@ == replace_all(s@, p@, r@),
{
    let n = s.len();
    let m = p.len();
    let mut out: Vec<char> = Vec::new();
    let mut i: usize = 0;
    assert(s@.skip(0) =~= s@);
    while i < n
        invariant
            i <= n == s@.len(),
            m == p@.len() > 0,
            out@ + replace_all(s@.skip(i as int), p@, r@) == replace_all(s@, p@, r@),
        decreases n - i,
    {
        let ghost rest = s@.skip(i as int);
        let mut matched = false;
        if m <= n - i {
            let mut k: usize = 0;
            while k < m && s[i + k] == p[k]
                invariant
                    k <= m,
                    i + m <= n,
                    n == s@.len(),
                    m == p@.len(),
                    forall|q: int| 0 <= q < k ==> s@[i + q] == p@[q],
                decreases m - k,
            {
                k = k + 1;
            }
            if k == m {
                assert(rest.take(m as int) =~= p@);
                matched = true;
            } else {
                assert(rest.take(m as int)[k as int] != p@[k as int]);
            }
        }
        if matched {
            let mut j: usize = 0;
            let ghost base = out@;
            while j < r.len()
                invariant
                    j <= r@.len(),
                    out@ == base + r@.take(j as int),
                decreases r.len() - j,
            {
                out.push(r[j]);
                assert(r@.take(j as int + 1) =~= r@.take(j as int).push(r@[j as int]));
                j = j + 1;
            }
            assert(r@.take(r@.len() as int) =~= r@);
            assert(rest.skip(m as int) =~= s@.skip(i + m));
            assert(out@ + replace_all(s@.skip(i + m), p@, r@) =~= base + (r@ + replace_all(rest.skip(m as int), p@, r@)));
            i = i + m;
        } else {
            let ghost base = out@;
            out.push(s[i]);
            assert(rest[0] == s@[i as int]);
            assert(rest.drop_first() =~= s@.skip(i + 1));
            assert(out@ + replace_all(s@.skip(i + 1), p@, r@) =~= base + (seq![rest[0]] + replace_all(
                rest.drop_first(),
                p@,
                r@,
            )));
            i = i + 1;
        }
    }
    assert(replace_all(s@.skip(n as int), p@, r@) =~= Seq::<char>::empty());
    assert(out@ + Seq::<char>::empty() =~= out@);
    out
}

fn squeeze_exec(s: &Vec<char>) -> (r: Vec<char>)
    ensures
        r@ == squeeze(s@).0,
{
    let mut out: Vec<char> = Vec::new();
    let mut pending = false;
    let mut i: usize = 0;
    while i < s.len()
        invariant
            i <= s@.len(),
            (out@, pending) == squeeze(s@.take(i as int)),
        decreases s.len() - i,
    {
        let c = s[i];
        assert(s@.take(i as int + 1).drop_last() =~= s@.take(i as int));
        if white(c) {
            pending = out.len() > 0;
        } else {
            if pending {
                out.push(' ');
            }
            out.push(c);
            pending = false;
        }
        i = i + 1;
    }
    assert(s@.take(s@.len() as int) =~= s@);
    out
}

fn chars_lit(s: &str) -> (r: Vec<char>)
    ensures
        r@ == s@,
{
    crate::text_ops::chars_of(s)
}

/// Passive text of an HTML fragment.
pub(crate) fn html_to_text_chars(s: &Vec<char>) -> (r: Vec<char>)
    ensures
        r@ == html_text_spec(s@),
{
    let stripped = strip_tags_exec(s);
    let a = chars_lit("&nbsp;");
    let b = chars_lit("&lt;");
    let c = chars_lit("&gt;");
    let d = chars_lit("&quot;");
    let e = chars_lit("&#39;");
    let f = chars_lit("&amp;");
    proof {
        reveal_strlit("&nbsp;");
        reveal_strlit("&lt;");
        reveal_strlit("&gt;");
        reveal_strlit("&quot;");
        reveal_strlit("&#39;");
        reveal_strlit("&amp;");
    }
    let t1 = replace_all_exec(&stripped, &a, &chars_lit(" "));
    let t2 = replace_all_exec(&t1, &b, &chars_lit("<"));
    let t3 = replace_all_exec(&t2, &c, &chars_lit(">"));
    let t4 = replace_all_exec(&t3, &d, &chars_lit("\""));
    let t5 = replace_all_exec(&t4, &e, &chars_lit("'"));
    let t6 = replace_all_exec(&t5, &f, &chars_lit("&"));
    squeeze_exec(&t6)
}

/// An attribute-name character: ASCII letter or digit, `_`, `-` or `:`.
pub open spec fn name_char(c: char) -> bool {
    (48 <= (c as u32) <= 57) || (65 <= (c as u32) <= 90) || (97 <= (c as u32) <= 122) || c == '_' || c == '-'
        || c == ':'
}

/// End of the run of attribute-name characters starting at `j`.
pub open spec fn name_end(l: Seq<char>, j: int) -> int
    decreases l.len() - j,
{
    if j < 0 || j >= l.len() || !name_char(l[j]) {
        j
    } else {
        name_end(l, j + 1)
    }
}

/// End of the run of ASCII white space starting at `j`.
pub open spec fn white_end(l: Seq<char>, j: int) -> int
    decreases l.len() - j,
{
    if j < 0 || j >= l.len() || !ascii_white(l[j]) {
        j
    } else {
        white_end(l, j + 1)
    }
}

/// An `on…=` event-handler attribute starts at `i + 1`: white space or `<` at `i`, then `on`,
/// at least one name character, optional white space and `=`.
pub open spec fn handler_at(l: Seq<char>, i: int) -> bool {
    &&& 0 <= i
    &&& i + 3 < l.len()
    &&& (ascii_white(l[i]) || l[i] == '<')
    &&& l[i + 1] == 'o'
    &&& l[i + 2] == 'n'
    &&& name_end(l, i + 3) > i + 3
    &&& white_end(l, name_end(l, i + 3)) < l.len()
    &&& l[white_end(l, name_end(l, i + 3))] == '='
}

/// Whether HTML text holds active content: a script, inline frame, object or embed tag, a
/// `javascript:` reference, or an event-handler attribute, ignoring ASCII case.
pub open spec fn active_content_spec(s: Seq<char>) -> bool {
    let l = ascii_lower(s);
    ||| find_from(l, "<script"@, 0) is Some
    ||| find_from(l, "<iframe"@, 0) is Some
    ||| find_from(l, "<object"@, 0) is Some
    ||| find_from(l, "<embed"@, 0) is Some
    ||| find_from(l, "javascript:"@, 0) is Some
    ||| exists|i: int| handler_at(l, i)
}

proof fn lemma_name_end_ge(l: Seq<char>, j: int)
    ensures
        name_end(l, j) >= j,
        j >= 0 ==> name_end(l, j) <= l.len() || name_end(l, j) == j,
    decreases l.len() - j,
{
    if !(j < 0 || j >= l.len() || !name_char(l[j])) {
        lemma_name_end_ge(l, j + 1);
    }
}

proof fn lemma_white_end_ge(l: Seq<char>, j: int)
    ensures
        white_end(l, j) >= j,
        0 <= j <= l.len() ==> white_end(l, j) <= l.len(),
    decreases l.len() - j,
{
    if !(j < 0 || j >= l.len() || !ascii_white(l[j])) {
        lemma_white_end_ge(l, j + 1);
    }
}

fn name_end_exec(l: &Vec<char>, j: usize) -> (r: usize)
    requires
        j <= l@.len(),
    ensures
        r == name_end(l@, j as int),
        j <= r <= l@.len(),
{
    let mut k = j;
    while k < l.len() && name_char_exec(l[k])
        invariant
            j <= k <= l@.len(),
            name_end(l@, j as int) == name_end(l@, k as int),
        decreases l.len() - k,
    {
        k = k + 1;
    }
    k
}

fn name_char_exec(c: char) -> (r: bool)
    ensures
        r == name_char(c),
{
    let n = c as u32;
    (48 <= n && n <= 57) || (65 <= n && n <= 90) || (97 <= n && n <= 122) || c == '_' || c == '-' || c == ':'
}

fn white_end_exec(l: &Vec<char>, j: usize) -> (r: usize)
    requires
        j <= l@.len(),
    ensures
        r == white_end(l@, j as int),
        j <= r <= l@.len(),
{
    let mut k = j;
    while k < l.len() && ascii_white_exec(l[k])
        invariant
            j <= k <= l@.len(),
            white_end(l@, j as int) == white_end(l@, k as int),
        decreases l.len() - k,
    {
        k = k + 1;
    }
    k
}

fn has_handler(l: &Vec<char>) -> (r: bool)
    ensures
        r == exists|i: int| handler_at(l@, i),
{
    let n = l.len();
    let mut i: usize = 0;
    while n > 3 && i < n - 3
        invariant
            n == l@.len(),
            forall|k: int| 0 <= k < i ==> !handler_at(l@, k),
        decreases n - i,
    {
        if (ascii_white_exec(l[i]) || l[i] == '<') && l[i + 1] == 'o' && l[i + 2] == 'n' {
            let ne = name_end_exec(l, i + 3);
            if ne > i + 3 {
                let we = white_end_exec(l, ne);
                if we < n && l[we] == '=' {
                    assert(handler_at(l@, i as int));
                    return true;
                }
            }
        }
        assert(!handler_at(l@, i as int));
        i = i + 1;
    }
    assert forall|k: int| !handler_at(l@, k) by {
        if 0 <= k < i {
        } else {
        }
    }
    false
}

/// Whether HTML text holds active content.
pub(crate) fn html_contains_active_content_chars(s: &Vec<char>) -> (r: bool)
    ensures
        r == active_content_spec(s@),
{
    let l = lower_chars(s);
    let a = chars_lit("<script");
    let b = chars_lit("<iframe");
    let c = chars_lit("<object");
    let d = chars_lit("<embed");
    let e = chars_lit("javascript:");
    proof {
        reveal_strlit("<script");
        reveal_strlit("<iframe");
        reveal_strlit("<object");
        reveal_strlit("<embed");
        reveal_strlit("javascript:");
    }
    find_chars(&l, &a, 0).is_some() || find_chars(&l, &b, 0).is_some() || find_chars(&l, &c, 0).is_some()
        || find_chars(&l, &d, 0).is_some() || find_chars(&l, &e, 0).is_some() || has_handler(&l)
}


/// A tag name ends at `b`: the end of the text, ASCII white space, `>` or `/`.
pub open spec fn boundary_ok(l: Seq<char>, b: int) -> bool {
    b >= l.len() || ascii_white(l[b]) || l[b] == '>' || l[b] == '/'
}

/// The first occurrence of `needle` at or after `from` that is followed by a tag-name boundary.
pub open spec fn find_tag(l: Seq<char>, needle: Seq<char>, from: int) -> Option<int>
    decreases l.len() - from,
{
    if needle.len() == 0 || from < 0 {
        None
    } else {
        match find_from(l, needle, from) {
            None => None,
            Some(st) => if boundary_ok(l, st + needle.len()) {
                Some(st)
            } else {
                proof {
                    lemma_find_from_bounds(l, needle, from);
                }
                find_tag(l, needle, st + needle.len())
            },
        }
    }
}

/// A found tag lies at or after `from` and fits in `l`.
pub proof fn lemma_find_tag_bounds(l: Seq<char>, needle: Seq<char>, from: int)
    ensures
        find_tag(l, needle, from) matches Some(i) ==> from <= i && i + needle.len() <= l.len(),
    decreases l.len() - from,
{
    if needle.len() > 0 && from >= 0 {
        lemma_find_from_bounds(l, needle, from);
        if let Some(st) = find_from(l, needle, from) {
            if !boundary_ok(l, st + needle.len()) {
                lemma_find_tag_bounds(l, needle, st + needle.len());
            }
        }
    }
}

fn find_tag_exec(l: &Vec<char>, needle: &Vec<char>, from: usize) -> (r: Option<usize>)
    requires
        needle@.len() > 0,
    ensures
        r is Some <==> find_tag(l@, needle@, from as int) is Some,
        r matches Some(k) ==> (find_tag(l@, needle@, from as int) == Some(k as int) && from <= k && k
            + needle@.len() <= l@.len()),
{
    proof {
        lemma_find_tag_bounds(l@, needle@, from as int);
    }
    let mut cursor = from;
    loop
        invariant
            from <= cursor,
            needle@.len() > 0,
            find_tag(l@, needle@, from as int) == find_tag(l@, needle@, cursor as int),
        decreases l@.len() + 1 - cursor,
    {
        proof {
            lemma_find_from_bounds(l@, needle@, cursor as int);
        }
        match find_chars(l, needle, cursor) {
            None => {
                return None;
            },
            Some(st) => {
                assert(st + needle@.len() <= l@.len());
                assert(needle@.len() == needle.len());
                assert(l@.len() == l.len());
                let b = st + needle.len();
                if b >= l.len() || ascii_white_exec(l[b]) || l[b] == '>' || l[b] == '/' {
                    return Some(st);
                }
                cursor = b;
            },
        }
    }
}

/// The last character of `l[start..k]` that is not white space is `/`.
pub open spec fn slash_before(l: Seq<char>, start: int, k: int) -> bool
    decreases k - start,
{
    if k <= start {
        false
    } else if is_white(l[k - 1]) {
        slash_before(l, start, k - 1)
    } else {
        l[k - 1] == '/'
    }
}

fn slash_before_exec(l: &Vec<char>, start: usize, k: usize) -> (r: bool)
    requires
        start <= k <= l@.len(),
    ensures
        r == slash_before(l@, start as int, k as int),
{
    let mut j = k;
    while j > start && white(l[j - 1])
        invariant
            start <= j <= k <= l@.len(),
            slash_before(l@, start as int, k as int) == slash_before(l@, start as int, j as int),
        decreases j,
    {
        j = j - 1;
    }
    j > start && l[j - 1] == '/'
}

/// The position of the nearer of an opening and a closing tag, and whether it is the closing one.
pub open spec fn nearer(o: Option<int>, c: Option<int>) -> Option<(int, bool)> {
    match (o, c) {
        (Some(a), Some(b)) => if a < b {
            Some((a, false))
        } else {
            Some((b, true))
        },
        (None, Some(b)) => Some((b, true)),
        (Some(a), None) => Some((a, false)),
        (None, None) => None,
    }
}

/// Where the element opened before `scan` ends, at nesting `depth`: just after the `>` of its
/// matching closing tag, or `None` when it is never closed.
pub open spec fn close_scan(l: Seq<char>, open: Seq<char>, close: Seq<char>, scan: int, depth: nat) -> Option<int>
    decreases l.len() - scan,
{
    if scan < 0 || scan > l.len() || depth == 0 || open.len() == 0 || close.len() == 0 {
        None
    } else {
        match nearer(find_tag(l, open, scan), find_tag(l, close, scan)) {
            None => None,
            Some(n) => match find_from(l, seq!['>'], n.0) {
                None => None,
                Some(end) => {
                    proof {
                        lemma_find_tag_bounds(l, open, scan);
                        lemma_find_tag_bounds(l, close, scan);
                        lemma_find_from_bounds(l, seq!['>'], n.0);
                    }
                    if n.1 {
                        if depth == 1 {
                            Some(end + 1)
                        } else {
                            close_scan(l, open, close, end + 1, (depth - 1) as nat)
                        }
                    } else if !slash_before(l, n.0, end) {
                        close_scan(l, open, close, end + 1, depth + 1)
                    } else {
                        close_scan(l, open, close, end + 1, depth)
                    }
                },
            },
        }
    }
}

/// A found element end lies after `scan` and within `l`.
pub proof fn lemma_close_scan_bounds(l: Seq<char>, open: Seq<char>, close: Seq<char>, scan: int, depth: nat)
    ensures
        close_scan(l, open, close, scan, depth) matches Some(e) ==> scan < e <= l.len(),
    decreases l.len() - scan,
{
    if !(scan < 0 || scan > l.len() || depth == 0 || open.len() == 0 || close.len() == 0) {
        lemma_find_tag_bounds(l, open, scan);
        lemma_find_tag_bounds(l, close, scan);
        if let Some(n) = nearer(find_tag(l, open, scan), find_tag(l, close, scan)) {
            lemma_find_from_bounds(l, seq!['>'], n.0);
            if let Some(end) = find_from(l, seq!['>'], n.0) {
                if n.1 {
                    if depth != 1 {
                        lemma_close_scan_bounds(l, open, close, end + 1, (depth - 1) as nat);
                    }
                } else if !slash_before(l, n.0, end) {
                    lemma_close_scan_bounds(l, open, close, end + 1, depth + 1);
                } else {
                    lemma_close_scan_bounds(l, open, close, end + 1, depth);
                }
            }
        }
    }
}

/// `v` from `cursor` on with every `open`…`close` element removed, nesting respected; an
/// element that is never closed removes the rest of the text. `l` is the lower-case fold of `v`.
pub open spec fn remove_elem(v: Seq<char>, l: Seq<char>, open: Seq<char>, close: Seq<char>, cursor: int) -> Seq<char>
    decreases l.len() - cursor,
{
    if cursor < 0 || cursor > l.len() || open.len() == 0 || close.len() == 0 {
        Seq::empty()
    } else {
        match find_tag(l, open, cursor) {
            None => v.subrange(cursor, l.len() as int),
            Some(st) => v.subrange(cursor, st) + match find_from(l, seq!['>'], st) {
                None => Seq::empty(),
                Some(oe) => {
                    proof {
                        lemma_find_tag_bounds(l, open, cursor);
                        lemma_find_from_bounds(l, seq!['>'], st);
                        lemma_close_scan_bounds(l, open, close, oe + 1, 1);
                    }
                    if slash_before(l, st, oe) {
                        remove_elem(v, l, open, close, oe + 1)
                    } else {
                        match close_scan(l, open, close, oe + 1, 1) {
                            None => Seq::empty(),
                            Some(sc) => remove_elem(v, l, open, close, sc),
                        }
                    }
                },
            },
        }
    }
}

fn gt_char() -> (r: Vec<char>)
    ensures
        r@ == seq!['>'],
{
    let mut v: Vec<char> = Vec::new();
    v.push('>');
    v
}

fn push_range(out: &mut Vec<char>, v: &Vec<char>, a: usize, b: usize)
    requires
        a <= b <= v@.len(),
    ensures
        final(out)@ == old(out)@ + v@.subrange(a as int, b as int),
{
    let ghost base = out@;
    let mut i = a;
    while i < b
        invariant
            a <= i <= b <= v@.len(),
            out@ == base + v@.subrange(a as int, i as int),
        decreases b - i,
    {
        out.push(v[i]);
        assert(v@.subrange(a as int, i as int + 1) =~= v@.subrange(a as int, i as int).push(v@[i as int]));
        i = i + 1;
    }
}

fn close_scan_exec(l: &Vec<char>, open: &Vec<char>, close: &Vec<char>, start: usize) -> (r: Option<usize>)
    requires
        open@.len() > 0,
        close@.len() > 0,
        1 <= start <= l@.len(),
    ensures
        r is Some <==> close_scan(l@, open@, close@, start as int, 1) is Some,
        r matches Some(k) ==> close_scan(l@, open@, close@, start as int, 1) == Some(k as int),
{
    proof {
        lemma_close_scan_bounds(l@, open@, close@, start as int, 1);
    }
    let gt = gt_char();
    let mut scan = start;
    let mut depth: usize = 1;
    loop
        invariant
            1 <= start <= scan <= l@.len(),
            depth >= 1,
            open@.len() > 0,
            close@.len() > 0,
            gt@ == seq!['>'],
            close_scan(l@, open@, close@, start as int, 1) == close_scan(l@, open@, close@, scan as int, depth as nat),
        decreases l@.len() - scan,
    {
        proof {
            lemma_find_tag_bounds(l@, open@, scan as int);
            lemma_find_tag_bounds(l@, close@, scan as int);
        }
        let o = find_tag_exec(l, open, scan);
        let c = find_tag_exec(l, close, scan);
        let (ns, is_close) = match (o, c) {
            (Some(a), Some(b)) => if a < b {
                (a, false)
            } else {
                (b, true)
            },
            (None, Some(b)) => (b, true),
            (Some(a), None) => (a, false),
            (None, None) => {
                return None;
            },
        };
        proof {
            lemma_find_from_bounds(l@, seq!['>'], ns as int);
        }
        let end = match find_chars(l, &gt, ns) {
            None => {
                return None;
            },
            Some(e) => e,
        };
        assert(end + gt@.len() <= l@.len() && gt@.len() == 1 && l@.len() == l.len());
        assert(scan <= ns <= end);
        if is_close {
            if depth == 1 {
                return Some(end + 1);
            }
            depth = depth - 1;
        } else if !slash_before_exec(l, ns, end) {
            if depth >= usize::MAX - 1 {
                // nesting deeper than memory can hold cannot be closed within the text
                proof {
                    lemma_depth_unclosed(l@, open@, close@, end as int + 1, (depth + 1) as nat);
                }
                return None;
            }
            depth = depth + 1;
        }
        scan = end + 1;
    }
}

proof fn lemma_depth_unclosed(l: Seq<char>, open: Seq<char>, close: Seq<char>, scan: int, depth: nat)
    requires
        depth > l.len() - scan + 1,
    ensures
        close_scan(l, open, close, scan, depth) is None,
    decreases l.len() - scan,
{
    if !(scan < 0 || scan > l.len() || depth == 0 || open.len() == 0 || close.len() == 0) {
        lemma_find_tag_bounds(l, open, scan);
        lemma_find_tag_bounds(l, close, scan);
        if let Some(n) = nearer(find_tag(l, open, scan), find_tag(l, close, scan)) {
            lemma_find_from_bounds(l, seq!['>'], n.0);
            if let Some(end) = find_from(l, seq!['>'], n.0) {
                if n.1 {
                    lemma_depth_unclosed(l, open, close, end + 1, (depth - 1) as nat);
                } else if !slash_before(l, n.0, end) {
                    lemma_depth_unclosed(l, open, close, end + 1, depth + 1);
                } else {
                    lemma_depth_unclosed(l, open, close, end + 1, depth);
                }
            }
        }
    }
}

/// `v` with every `open`…`close` element removed; `l` is the lower-case fold of `v`.
fn remove_element(v: &Vec<char>, l: &Vec<char>, open: &Vec<char>, close: &Vec<char>) -> (r: Vec<char>)
    requires
        open@.len() > 0,
        close@.len() > 0,
        v@.len() == l@.len(),
    ensures
        r@ == remove_elem(v@, l@, open@, close@, 0),
{
    let gt = gt_char();
    let mut out: Vec<char> = Vec::new();
    let mut cursor: usize = 0;
    loop
        invariant
            cursor <= l@.len() == v@.len(),
            open@.len() > 0,
            close@.len() > 0,
            gt@ == seq!['>'],
            out@ + remove_elem(v@, l@, open@, close@, cursor as int) == remove_elem(v@, l@, open@, close@, 0),
        decreases l@.len() - cursor,
    {
        proof {
            lemma_find_tag_bounds(l@, open@, cursor as int);
        }
        assert(l@.len() == l.len() && v@.len() == v.len() && open@.len() == open.len());
        let st = match find_tag_exec(l, open, cursor) {
            None => {
                let ghost base = out@;
                push_range(&mut out, v, cursor, v.len());
                return out;
            },
            Some(s) => s,
        };
        let ghost base = out@;
        push_range(&mut out, v, cursor, st);
        proof {
            lemma_find_from_bounds(l@, seq!['>'], st as int);
        }
        let oe = match find_chars(l, &gt, st) {
            None => {
                assert(out@ =~= base + v@.subrange(cursor as int, st as int) + Seq::<char>::empty());
                return out;
            },
            Some(e) => e,
        };
        assert(oe + gt@.len() <= l@.len() && gt@.len() == 1);
        if slash_before_exec(l, st, oe) {
            assert(out@ + remove_elem(v@, l@, open@, close@, oe + 1) =~= base + remove_elem(
                v@,
                l@,
                open@,
                close@,
                cursor as int,
            ));
            cursor = oe + 1;
        } else {
            proof {
                lemma_close_scan_bounds(l@, open@, close@, oe + 1, 1);
            }
            match close_scan_exec(l, open, close, oe + 1) {
                None => {
                    assert(out@ =~= base + v@.subrange(cursor as int, st as int) + Seq::<char>::empty());
                    return out;
                },
                Some(sc) => {
                    assert(out@ + remove_elem(v@, l@, open@, close@, sc as int) =~= base + remove_elem(
                        v@,
                        l@,
                        open@,
                        close@,
                        cursor as int,
                    ));
                    cursor = sc;
                },
            }
        }
    }
}


/// `v` from `cursor` on with every `open` tag removed up to its first `>`; a tag that never
/// ends removes the rest of the text. `l` is the lower-case fold of `v`.
pub open spec fn remove_void(v: Seq<char>, l: Seq<char>, open: Seq<char>, cursor: int) -> Seq<char>
    decreases l.len() - cursor,
{
    if cursor < 0 || cursor > l.len() || open.len() == 0 {
        Seq::empty()
    } else {
        match find_from(l, open, cursor) {
            None => v.subrange(cursor, l.len() as int),
            Some(st) => v.subrange(cursor, st) + match find_from(l, seq!['>'], st) {
                None => Seq::empty(),
                Some(e) => {
                    proof {
                        lemma_find_from_bounds(l, open, cursor);
                        lemma_find_from_bounds(l, seq!['>'], st);
                    }
                    remove_void(v, l, open, e + 1)
                },
            },
        }
    }
}

fn remove_void_tag(v: &Vec<char>, l: &Vec<char>, open: &Vec<char>) -> (r: Vec<char>)
    requires
        open@.len() > 0,
        v@.len() == l@.len(),
    ensures
        r@ == remove_void(v@, l@, open@, 0),
{
    let gt = gt_char();
    let mut out: Vec<char> = Vec::new();
    let mut cursor: usize = 0;
    loop
        invariant
            cursor <= l@.len() == v@.len(),
            open@.len() > 0,
            gt@ == seq!['>'],
            out@ + remove_void(v@, l@, open@, cursor as int) == remove_void(v@, l@, open@, 0),
        decreases l@.len() - cursor,
    {
        assert(l@.len() == l.len() && v@.len() == v.len());
        let st = match find_chars(l, open, cursor) {
            None => {
                push_range(&mut out, v, cursor, v.len());
                return out;
            },
            Some(s) => s,
        };
        let ghost base = out@;
        push_range(&mut out, v, cursor, st);
        let e = match find_chars(l, &gt, st) {
            None => {
                assert(out@ =~= base + v@.subrange(cursor as int, st as int) + Seq::<char>::empty());
                return out;
            },
            Some(e) => e,
        };
        assert(e + gt@.len() <= l@.len() && gt@.len() == 1);
        assert(out@ + remove_void(v@, l@, open@, e + 1) =~= base + remove_void(v@, l@, open@, cursor as int));
        cursor = e + 1;
    }
}

/// `v` without the elements opened by `open` and closed by `close`, matched without regard to
/// ASCII case.
pub open spec fn without_element(v: Seq<char>, open: Seq<char>, close: Seq<char>) -> Seq<char> {
    remove_elem(v, ascii_lower(v), open, close, 0)
}

/// HTML text with script, style, inline-frame and object elements and embed tags removed, in
/// that order.
pub open spec fn passive_html_spec(v: Seq<char>) -> Seq<char> {
    let x1 = without_element(v, "<script"@, "</script"@);
    let x2 = without_element(x1, "<style"@, "</style"@);
    let x3 = without_element(x2, "<iframe"@, "</iframe"@);
    let x4 = without_element(x3, "<object"@, "</object"@);
    remove_void(x4, ascii_lower(x4), "<embed"@, 0)
}

fn without_element_exec(v: &Vec<char>, open: &str, close: &str) -> (r: Vec<char>)
    requires
        open@.len() > 0,
        close@.len() > 0,
    ensures
        r@ == without_element(v@, open@, close@),
{
    let l = lower_chars(v);
    let o = chars_lit(open);
    let c = chars_lit(close);
    remove_element(v, &l, &o, &c)
}

/// HTML text with its active regions removed.
pub(crate) fn remove_html_active_regions_chars(v: &Vec<char>) -> (r: Vec<char>)
    ensures
        r@ == passive_html_spec(v@),
{
    proof {
        reveal_strlit("<script");
        reveal_strlit("</script");
        reveal_strlit("<style");
        reveal_strlit("</style");
        reveal_strlit("<iframe");
        reveal_strlit("</iframe");
        reveal_strlit("<object");
        reveal_strlit("</object");
        reveal_strlit("<embed");
    }
    let x1 = without_element_exec(v, "<script", "</script");
    let x2 = without_element_exec(&x1, "<style", "</style");
    let x3 = without_element_exec(&x2, "<iframe", "</iframe");
    let x4 = without_element_exec(&x3, "<object", "</object");
    let l = lower_chars(&x4);
    let e = chars_lit("<embed");
    remove_void_tag(&x4, &l, &e)
}

/// The document title: the passive text between the first `<title…>` tag and the next
/// `</title>`, when that text is not empty.
pub open spec fn title_spec(v: Seq<char>) -> Option<Seq<char>> {
    let l = ascii_lower(v);
    match find_from(l, "<title"@, 0) {
        None => None,
        Some(a) => match find_from(l, seq!['>'], a) {
            None => None,
            Some(g) => match find_from(l, "</title>"@, g + 1) {
                None => None,
                Some(e) => {
                    let t = html_text_spec(v.subrange(g + 1, e));
                    if t.len() == 0 {
                        None
                    } else {
                        Some(t)
                    }
                },
            },
        },
    }
}

fn sub_chars(v: &Vec<char>, a: usize, b: usize) -> (r: Vec<char>)
    requires
        a <= b <= v@.len(),
    ensures
        r@ == v@.subrange(a as int, b as int),
{
    let mut out: Vec<char> = Vec::new();
    push_range(&mut out, v, a, b);
    assert(out@ =~= v@.subrange(a as int, b as int));
    out
}

/// The document title, if any.
pub(crate) fn extract_html_title_chars(v: &Vec<char>) -> (r: Option<Vec<char>>)
    ensures
        match title_spec(v@) {
            Some(t) => r matches Some(x) && x@ == t,
            None => r is None,
        },
{
    let l = lower_chars(v);
    let open = chars_lit("<title");
    let close = chars_lit("</title>");
    proof {
        reveal_strlit("<title");
        reveal_strlit("</title>");
    }
    let gt = gt_char();
    let a = match find_chars(&l, &open, 0) {
        None => {
            return None;
        },
        Some(a) => a,
    };
    let g = match find_chars(&l, &gt, a) {
        None => {
            return None;
        },
        Some(g) => g,
    };
    assert(g + gt@.len() <= l@.len() && gt@.len() == 1 && l@.len() == v@.len() && l@.len() == l.len());
    let e = match find_chars(&l, &close, g + 1) {
        None => {
            return None;
        },
        Some(e) => e,
    };
    assert(e + close@.len() <= l@.len() && l@.len() == v@.len() && v@.len() == v.len());
    let inner = sub_chars(v, g + 1, e);
    let t = html_to_text_chars(&inner);
    if t.len() == 0 {
        None
    } else {
        Some(t)
    }
}

/// Passive text of an HTML fragment: tags removed, entities decoded, white space collapsed.
pub fn html_to_text(value: &str) -> (r: String)
    ensures
        r@ == html_text_spec(value@),
{
    let cs = crate::text_ops::chars_of(value);
    let t = html_to_text_chars(&cs);
    crate::text_ops::string_of(t.as_slice())
}

/// Whether HTML text holds active content: scripts, embedded objects, frames, event handler
/// attributes or `javascript:` URLs.
pub fn html_contains_active_content(value: &str) -> (r: bool)
    ensures
        r == active_content_spec(value@),
{
    let cs = crate::text_ops::chars_of(value);
    html_contains_active_content_chars(&cs)
}

/// HTML text with its active regions removed.
pub fn remove_html_active_regions(value: &str) -> (r: String)
    ensures
        r@ == passive_html_spec(value@),
{
    let cs = crate::text_ops::chars_of(value);
    let t = remove_html_active_regions_chars(&cs);
    crate::text_ops::string_of(t.as_slice())
}

/// The document title, if any.
pub fn extract_html_title(value: &str) -> (r: Option<String>)
    ensures
        match title_spec(value@) {
            Some(t) => r matches Some(x) && x@ == t,
            None => r is None,
        },
{
    let cs = crate::text_ops::chars_of(value);
    match extract_html_title_chars(&cs) {
        Some(t) => Some(crate::text_ops::string_of(t.as_slice())),
        None => None,
    }
}

} // verus!
