//! Deterministic archive member path canonicalization.
use vstd::prelude::*;
use crate::text::push_char;
use crate::text_ops::chars_of;

verus! {

/// Pieces of `s` split at every `/` (an empty text gives one empty piece).
pub open spec fn split_slash(s: Seq<char>) -> Seq<Seq<char>>
    decreases s.len(),
{
    if s.len() == 0 {
        seq![Seq::empty()]
    } else {
        let p = split_slash(s.drop_last());
        if s.last() == '/' {
            p.push(Seq::empty())
        } else {
            p.update(p.len() - 1, p.last().push(s.last()))
        }
    }
}

proof fn lemma_split_nonempty(s: Seq<char>)
    ensures
        split_slash(s).len() >= 1,
    decreases s.len(),
{
    if s.len() > 0 {
        lemma_split_nonempty(s.drop_last());
    }
}

/// Backslashes read as forward slashes.
pub open spec fn slashes_normalized(s: Seq<char>) -> Seq<char> {
    s.map_values(|c: char| if c == '\\' { '/' } else { c })
}

/// A piece that canonicalization drops: empty or `.`.
pub open spec fn dropped_piece(p: Seq<char>) -> bool {
    p.len() == 0 || p == seq!['.']
}

/// Pieces that remain after dropping empty and `.` pieces, in order.
pub open spec fn kept_pieces(ps: Seq<Seq<char>>) -> Seq<Seq<char>>
    decreases ps.len(),
{
    if ps.len() == 0 {
        Seq::empty()
    } else if dropped_piece(ps.last()) {
        kept_pieces(ps.drop_last())
    } else {
        kept_pieces(ps.drop_last()).push(ps.last())
    }
}

/// Pieces joined with `/`.
pub open spec fn join_slash(ps: Seq<Seq<char>>) -> Seq<char>
    decreases ps.len(),
{
    if ps.len() == 0 {
        Seq::empty()
    } else if ps.len() == 1 {
        ps[0]
    } else {
        join_slash(ps.drop_last()) + seq!['/'] + ps.last()
    }
}

/// A drive-qualified path such as `C:`.
pub open spec fn drive_qualified(s: Seq<char>) -> bool {
    s.len() >= 2 && ((65 <= (s[0] as u32) <= 90) || (97 <= (s[0] as u32) <= 122)) && s[1] == ':'
}

/// The canonical form of an archive member path, or `None` when the path is rejected: empty,
/// holding NUL, longer than `max` characters, absolute or drive-qualified, holding a `..`
/// component, or holding no component at all once `\` reads as `/` and empty and `.` components
/// are dropped.
pub open spec fn canonical_path_spec(raw: Seq<char>, max: int) -> Option<Seq<char>> {
    let n = slashes_normalized(raw);
    let pieces = split_slash(n);
    let kept = kept_pieces(pieces);
    if raw.len() == 0 || raw.contains('\0') || raw.len() > max {
        None
    } else if raw[0] == '/' || raw[0] == '\\' || drive_qualified(raw) {
        None
    } else if pieces.contains(seq!['.', '.']) {
        None
    } else if kept.len() == 0 {
        None
    } else if join_slash(kept).len() > max {
        None
    } else {
        Some(join_slash(kept))
    }
}

fn piece_is(p: &Vec<char>, a: char, n: usize) -> (r: bool)
    requires
        n == 1 || n == 2,
    ensures
        r == (p@ == Seq::new(n as nat, |i: int| a)),
{
    if p.len() != n {
        return false;
    }
    if n == 1 {
        let r = p[0] == a;
        if r {
            assert(p@ =~= Seq::new(n as nat, |i: int| a));
        } else {
            assert(p@[0] != Seq::new(n as nat, |i: int| a)[0]);
        }
        r
    } else {
        let r = p[0] == a && p[1] == a;
        if r {
            assert(p@ =~= Seq::new(n as nat, |i: int| a));
        } else if p[0] != a {
            assert(p@[0] != Seq::new(n as nat, |i: int| a)[0]);
        } else {
            assert(p@[1] != Seq::new(n as nat, |i: int| a)[1]);
        }
        r
    }
}

/// Canonicalize an archive member path; `None` when the path is rejected.
pub fn canonical_member_path(raw: &str, max_chars: usize) -> (r: Option<String>)
    ensures
        match r {
            Some(s) => canonical_path_spec(raw@, max_chars as int) == Some(s@),
            None => canonical_path_spec(raw@, max_chars as int) is None,
        },
{
    let cs = chars_of(raw);
    let n = cs.len();
    if n == 0 || n > max_chars {
        return None;
    }
    let mut i: usize = 0;
    while i < n
        invariant
            i <= n == cs@.len(),
            cs@ == raw@,
            forall|j: int| 0 <= j < i ==> cs@[j] != '\0',
        decreases n - i,
    {
        if cs[i] == '\0' {
            assert(cs@.contains('\0'));
            return None;
        }
        i = i + 1;
    }
    assert(!cs@.contains('\0'));
    let c0 = cs[0];
    let c0n = c0 as u32;
    if c0 == '/' || c0 == '\\' || (n >= 2 && ((65 <= c0n && c0n <= 90) || (97 <= c0n && c0n <= 122)) && cs[1] == ':') {
        return None;
    }
    let ghost norm = slashes_normalized(cs@);
    let mut pieces: Vec<Vec<char>> = Vec::new();
    let mut current: Vec<char> = Vec::new();
    let mut k: usize = 0;
    assert(norm.take(0) =~= Seq::<char>::empty());
    while k < n
        invariant
            k <= n == cs@.len(),
            cs@ == raw@,
            norm == slashes_normalized(cs@),
            split_slash(norm.take(k as int)) == pieces@.map_values(|p: Vec<char>| p@).push(current@),
        decreases n - k,
    {
        let ghost before = pieces@.map_values(|p: Vec<char>| p@);
        assert(norm.take(k as int + 1).drop_last() =~= norm.take(k as int));
        let c = cs[k];
        if c == '/' || c == '\\' {
            let mut done: Vec<char> = Vec::new();
            std::mem::swap(&mut done, &mut current);
            pieces.push(done);
            assert(pieces@.map_values(|p: Vec<char>| p@) =~= before.push(done@));
        } else {
            let ghost old_cur = current@;
            current.push(c);
            assert(norm[k as int] == c);
            assert(before.push(old_cur).update(before.len() as int, old_cur.push(c)) =~= before.push(current@));
        }
        k = k + 1;
    }
    pieces.push(current);
    assert(norm.take(n as int) =~= norm);
    let ghost all = pieces@.map_values(|p: Vec<char>| p@);
    assert(all == split_slash(norm));
    let mut kept: Vec<Vec<char>> = Vec::new();
    let mut j: usize = 0;
    assert(all.take(0) =~= Seq::<Seq<char>>::empty());
    while j < pieces.len()
        invariant
            j <= pieces@.len(),
            cs@ == raw@,
            norm == slashes_normalized(cs@),
            all == pieces@.map_values(|p: Vec<char>| p@),
            all == split_slash(norm),
            !all.take(j as int).contains(seq!['.', '.']),
            kept@.map_values(|p: Vec<char>| p@) == kept_pieces(all.take(j as int)),
        decreases pieces.len() - j,
    {
        assert(all.take(j as int + 1).drop_last() =~= all.take(j as int));
        assert(all[j as int] == pieces@[j as int]@);
        if piece_is(&pieces[j], '.', 2) {
            assert(Seq::new(2nat, |i: int| '.') =~= seq!['.', '.']);
            assert(all.contains(seq!['.', '.'])) by {
                assert(all[j as int] == seq!['.', '.']);
            }
            return None;
        }
        assert(Seq::new(2nat, |i: int| '.') =~= seq!['.', '.']);
        let dot = piece_is(&pieces[j], '.', 1);
        assert(Seq::new(1nat, |i: int| '.') =~= seq!['.']);
        if pieces[j].len() != 0 && !dot {
            let ghost kb = kept@.map_values(|p: Vec<char>| p@);
            let copy = vstd::slice::slice_to_vec(pieces[j].as_slice());
            kept.push(copy);
            assert(kept@.map_values(|p: Vec<char>| p@) =~= kb.push(all[j as int]));
        }
        assert(!all.take(j as int + 1).contains(seq!['.', '.'])) by {
            assert(all.take(j as int + 1) =~= all.take(j as int).push(all[j as int]));
            assert(all[j as int] != seq!['.', '.']);
            if all.take(j as int + 1).contains(seq!['.', '.']) {
                let w = choose|w: int| 0 <= w < all.take(j as int + 1).len() && #[trigger] all.take(j as int + 1)[w]
                    == seq!['.', '.'];
                if w < j {
                    assert(all.take(j as int)[w] == seq!['.', '.']);
                }
            }
        }
        j = j + 1;
    }
    assert(all.take(all.len() as int) =~= all);
    if kept.len() == 0 {
        return None;
    }
    let ghost kv = kept@.map_values(|p: Vec<char>| p@);
    let mut out = String::new();
    let mut m: usize = 0;
    while m < kept.len()
        invariant
            m <= kept@.len(),
            kv == kept@.map_values(|p: Vec<char>| p@),
            out@ == join_slash(kv.take(m as int)),
        decreases kept.len() - m,
    {
        assert(kv.take(m as int + 1).drop_last() =~= kv.take(m as int));
        if m > 0 {
            push_char(&mut out, '/');
        } else {
            assert(out@ =~= Seq::<char>::empty());
        }
        let ghost before = out@;
        let piece = &kept[m];
        let mut q: usize = 0;
        while q < piece.len()
            invariant
                q <= piece@.len(),
                out@ == before + piece@.take(q as int),
            decreases piece.len() - q,
        {
            push_char(&mut out, piece[q]);
            assert(piece@.take(q as int + 1) =~= piece@.take(q as int).push(piece@[q as int]));
            q = q + 1;
        }
        assert(piece@.take(piece@.len() as int) =~= piece@);
        assert(kv[m as int] == piece@);
        if m > 0 {
            assert(out@ =~= join_slash(kv.take(m as int)) + seq!['/'] + kv[m as int]);
        } else {
            assert(kv.take(1) =~= seq![kv[0]]);
        }
        m = m + 1;
    }
    assert(kv.take(kv.len() as int) =~= kv);
    if out.as_str().unicode_len() > max_chars {
        return None;
    }
    Some(out)
}

/// A logical path under a prefix: the local path alone, or `prefix/local`.
pub open spec fn join_path_spec(prefix: Seq<char>, local: Seq<char>) -> Seq<char> {
    if prefix.len() == 0 {
        local
    } else {
        prefix + seq!['/'] + local
    }
}

/// Join a local member path under its container's logical path.
pub fn join_path(prefix: &str, local: &str) -> (r: String)
    ensures
        r@ == join_path_spec(prefix@, local@),
{
    if prefix.unicode_len() == 0 {
        return String::from_str(local);
    }
    let mut s = String::from_str(prefix);
    push_char(&mut s, '/');
    s.append(local);
    s
}

} // verus!
