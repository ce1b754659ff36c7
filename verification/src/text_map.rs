//! A map from text keys to text values that iterates in ascending byte order of its keys.
use vstd::prelude::*;

verus! {

/// UTF-8 bytes of a text.
pub open spec fn key_bytes(s: Seq<char>) -> Seq<u8> {
    vstd::utf8::encode_utf8(s)
}

/// Lexicographic byte order.
pub open spec fn bytes_less(a: Seq<u8>, b: Seq<u8>) -> bool
    decreases a.len(),
{
    if a.len() == 0 {
        b.len() > 0
    } else if b.len() == 0 {
        false
    } else if a[0] != b[0] {
        a[0] < b[0]
    } else {
        bytes_less(a.drop_first(), b.drop_first())
    }
}

/// Text order: by UTF-8 bytes.
pub open spec fn text_less(a: Seq<char>, b: Seq<char>) -> bool {
    bytes_less(key_bytes(a), key_bytes(b))
}

/// Keys in strictly ascending order.
pub open spec fn keys_sorted(pairs: Seq<(Seq<char>, Seq<char>)>) -> bool {
    forall|i: int, j: int| 0 <= i < j < pairs.len() ==> text_less(#[trigger] pairs[i].0, #[trigger] pairs[j].0)
}

/// Byte order is transitive.
pub proof fn lemma_bytes_less_trans(a: Seq<u8>, b: Seq<u8>, c: Seq<u8>)
    requires
        bytes_less(a, b),
        bytes_less(b, c),
    ensures
        bytes_less(a, c),
    decreases a.len(),
{
    if a.len() > 0 && b.len() > 0 && c.len() > 0 && a[0] == b[0] && b[0] == c[0] {
        lemma_bytes_less_trans(a.drop_first(), b.drop_first(), c.drop_first());
    }
}

/// Byte order is irreflexive.
pub proof fn lemma_bytes_less_irrefl(a: Seq<u8>)
    ensures
        !bytes_less(a, a),
    decreases a.len(),
{
    if a.len() > 0 {
        lemma_bytes_less_irrefl(a.drop_first());
    }
}

/// Two different byte sequences are ordered one way or the other.
pub proof fn lemma_bytes_less_total(a: Seq<u8>, b: Seq<u8>)
    requires
        a != b,
    ensures
        bytes_less(a, b) || bytes_less(b, a),
    decreases a.len(),
{
    if a.len() > 0 && b.len() > 0 && a[0] == b[0] {
        if a.drop_first() == b.drop_first() {
            assert(a =~= seq![a[0]] + a.drop_first());
            assert(b =~= seq![b[0]] + b.drop_first());
        }
        lemma_bytes_less_total(a.drop_first(), b.drop_first());
    } else if a.len() == 0 && b.len() == 0 {
        assert(a =~= b);
    }
}

/// Texts with the same UTF-8 bytes are the same text.
pub proof fn lemma_key_bytes_injective(a: Seq<char>, b: Seq<char>)
    requires
        key_bytes(a) == key_bytes(b),
    ensures
        a == b,
{
    vstd::utf8::encode_utf8_decode_utf8(a);
    vstd::utf8::encode_utf8_decode_utf8(b);
}

/// Text order is transitive.
pub proof fn lemma_text_less_trans(a: Seq<char>, b: Seq<char>, c: Seq<char>)
    requires
        text_less(a, b),
        text_less(b, c),
    ensures
        text_less(a, c),
{
    lemma_bytes_less_trans(key_bytes(a), key_bytes(b), key_bytes(c));
}

/// Insert or replace `(k, v)` in pairs sorted by key.
pub open spec fn map_insert(pairs: Seq<(Seq<char>, Seq<char>)>, k: Seq<char>, v: Seq<char>) -> Seq<(Seq<char>, Seq<char>)>
    decreases pairs.len(),
{
    if pairs.len() == 0 {
        seq![(k, v)]
    } else if pairs[0].0 == k {
        seq![(k, v)] + pairs.drop_first()
    } else if text_less(k, pairs[0].0) {
        seq![(k, v)] + pairs
    } else {
        seq![pairs[0]] + map_insert(pairs.drop_first(), k, v)
    }
}

/// The value stored under `k`, if any.
pub open spec fn map_get(pairs: Seq<(Seq<char>, Seq<char>)>, k: Seq<char>) -> Option<Seq<char>>
    decreases pairs.len(),
{
    if pairs.len() == 0 {
        None
    } else if pairs[0].0 == k {
        Some(pairs[0].1)
    } else {
        map_get(pairs.drop_first(), k)
    }
}

/// Text keys mapped to text values, held in ascending byte order of the keys.
#[derive(Debug)]
pub struct TextMap {
    pairs: Vec<(String, String)>,
}

/// Views of key/value pairs.
pub open spec fn pair_views(s: Seq<(String, String)>) -> Seq<(Seq<char>, Seq<char>)> {
    s.map_values(|p: (String, String)| (p.0@, p.1@))
}

impl View for TextMap {
    type V = Seq<(Seq<char>, Seq<char>)>;

    closed spec fn view(&self) -> Seq<(Seq<char>, Seq<char>)> {
        pair_views(self.pairs@)
    }
}

/// Order of two keys.
#[derive(Debug, Clone, Copy, PartialEq, Eq, Structural)]
pub enum KeyOrder {
    /// The first key sorts first.
    Before,
    /// The keys are the same.
    Same,
    /// The first key sorts after.
    After,
}

/// Compare two texts by their UTF-8 bytes.
pub fn compare_text(a: &str, b: &str) -> (r: KeyOrder)
    ensures
        r == KeyOrder::Before <==> text_less(a@, b@),
        r == KeyOrder::Same <==> a@ == b@,
        r == KeyOrder::After <==> text_less(b@, a@),
{
    let x = a.as_bytes();
    let y = b.as_bytes();
    let ghost xa = x@;
    let ghost ya = y@;
    let mut i: usize = 0;
    assert(xa.skip(0) =~= xa);
    assert(ya.skip(0) =~= ya);
    assert(x@.take(0) =~= y@.take(0));
    while i < x.len() && i < y.len() && x[i] == y[i]
        invariant
            i <= x@.len(),
            i <= y@.len(),
            xa == x@,
            ya == y@,
            x@.take(i as int) == y@.take(i as int),
            bytes_less(xa, ya) == bytes_less(xa.skip(i as int), ya.skip(i as int)),
            bytes_less(ya, xa) == bytes_less(ya.skip(i as int), xa.skip(i as int)),
        decreases x.len() - i,
    {
        assert(xa.skip(i as int).drop_first() =~= xa.skip(i as int + 1));
        assert(ya.skip(i as int).drop_first() =~= ya.skip(i as int + 1));
        assert(x@.take(i as int + 1) =~= x@.take(i as int).push(x@[i as int]));
        assert(y@.take(i as int + 1) =~= y@.take(i as int).push(y@[i as int]));
        i = i + 1;
    }
    proof {
        lemma_bytes_less_irrefl(xa);
        if xa != ya {
            lemma_bytes_less_total(xa, ya);
        }
        if xa == ya {
            lemma_key_bytes_injective(a@, b@);
        }
    }
    if i < x.len() && i < y.len() {
        assert(xa.skip(i as int)[0] == xa[i as int]);
        assert(ya.skip(i as int)[0] == ya[i as int]);
        assert(xa != ya) by {
            assert(xa[i as int] != ya[i as int]);
        }
        if x[i] < y[i] {
            proof { if bytes_less(ya, xa) { lemma_bytes_less_trans(xa, ya, xa); } }
            KeyOrder::Before
        } else {
            proof { if bytes_less(xa, ya) { lemma_bytes_less_trans(xa, ya, xa); } }
            KeyOrder::After
        }
    } else if x.len() == y.len() {
        assert(xa =~= xa.take(i as int));
        assert(ya =~= ya.take(i as int));
        KeyOrder::Same
    } else if i == x.len() {
        assert(xa =~= xa.take(i as int));
        assert(xa != ya);
        proof { if bytes_less(ya, xa) { lemma_bytes_less_trans(xa, ya, xa); } }
        KeyOrder::Before
    } else {
        assert(ya =~= ya.take(i as int));
        assert(xa != ya);
        proof { if bytes_less(xa, ya) { lemma_bytes_less_trans(xa, ya, xa); } }
        KeyOrder::After
    }
}

impl TextMap {
    #[verifier::type_invariant]
    closed spec fn inv(self) -> bool {
        keys_sorted(pair_views(self.pairs@))
    }

    /// An empty map.
    pub fn new() -> (m: TextMap)
        ensures
            m@.len() == 0,
    {
        let m = TextMap { pairs: Vec::new() };
        assert(pair_views(m.pairs@) =~= Seq::<(Seq<char>, Seq<char>)>::empty());
        m
    }

    /// A copy of this map.
    pub fn duplicate(&self) -> (m: TextMap)
        ensures
            m@ == self@,
    {
        proof {
            use_type_invariant(self);
        }
        let mut pairs: Vec<(String, String)> = Vec::new();
        let mut i: usize = 0;
        while i < self.pairs.len()
            invariant
                i <= self.pairs@.len(),
                pair_views(pairs@) == pair_views(self.pairs@).take(i as int),
            decreases self.pairs.len() - i,
        {
            let ghost before = pairs@;
            pairs.push((self.pairs[i].0.clone(), self.pairs[i].1.clone()));
            assert(pair_views(pairs@) =~= pair_views(before).push(pair_views(self.pairs@)[i as int]));
            assert(pair_views(self.pairs@).take(i as int + 1) =~= pair_views(self.pairs@).take(i as int).push(
                pair_views(self.pairs@)[i as int],
            ));
            i = i + 1;
        }
        assert(pair_views(self.pairs@).take(self.pairs@.len() as int) =~= pair_views(self.pairs@));
        TextMap { pairs }
    }

    /// Number of pairs.
    pub fn len(&self) -> (n: usize)
        ensures
            n == self@.len(),
    {
        self.pairs.len()
    }

    /// The pairs, in ascending byte order of their keys.
    pub fn pairs(&self) -> (r: &[(String, String)])
        ensures
            pair_views(r@) == self@,
            keys_sorted(self@),
    {
        proof {
            use_type_invariant(self);
        }
        self.pairs.as_slice()
    }

    /// Insert `value` under `key`, replacing any value already stored there.
    pub fn insert(&mut self, key: String, value: String)
        ensures
            final(self)@ == map_insert(old(self)@, key@, value@),
            keys_sorted(final(self)@),
    {
        proof {
            use_type_invariant(&*self);
        }
        let ghost s = pair_views(self.pairs@);
        let mut p: usize = 0;
        let mut stop = false;
        while p < self.pairs.len() && !stop
            invariant
                p <= s.len(),
                s == pair_views(self.pairs@),
                keys_sorted(s),
                forall|j: int| 0 <= j < p ==> text_less(#[trigger] s[j].0, key@),
                stop ==> p < s.len() && !text_less(s[p as int].0, key@),
            decreases s.len() - p + (if stop { 0int } else { 1int }),
        {
            assert(s[p as int] == (self.pairs@[p as int].0@, self.pairs@[p as int].1@));
            match compare_text(self.pairs[p].0.as_str(), key.as_str()) {
                KeyOrder::Before => {
                    p = p + 1;
                },
                _ => {
                    stop = true;
                },
            }
        }
        proof {
            lemma_map_insert_at(s, key@, value@, p as int);
        }
        let mut pairs: Vec<(String, String)> = Vec::new();
        std::mem::swap(&mut pairs, &mut self.pairs);
        assert(pair_views(pairs@) == s);
        if stop && pairs[p].0 == key {
            let ghost before = pairs@;
            pairs.set(p, (key, value));
            assert(pair_views(pairs@) =~= s.update(p as int, (before[p as int].0@, value@)));
        } else {
            pairs.insert(p, (key, value));
            assert(pair_views(pairs@) =~= s.insert(p as int, (key@, value@)));
        }
        self.pairs = pairs;
    }

    /// The value stored under `key`, if any.
    pub fn get(&self, key: &str) -> (r: Option<&String>)
        ensures
            r matches Some(v) ==> map_get(self@, key@) == Some(v@),
            r is None <==> map_get(self@, key@) is None,
    {
        let ghost s = pair_views(self.pairs@);
        let mut i: usize = 0;
        assert(s.skip(0) =~= s);
        while i < self.pairs.len()
            invariant
                i <= s.len(),
                s == pair_views(self.pairs@),
                s == self@,
                map_get(s, key@) == map_get(s.skip(i as int), key@),
            decreases s.len() - i,
        {
            assert(s.skip(i as int)[0] == s[i as int]);
            assert(s[i as int] == (self.pairs@[i as int].0@, self.pairs@[i as int].1@));
            let k = owned_str(key);
            if self.pairs[i].0 == k {
                return Some(&self.pairs[i].1);
            }
            assert(s.skip(i as int).drop_first() =~= s.skip(i as int + 1));
            i = i + 1;
        }
        None
    }
}

fn owned_str(s: &str) -> (r: String)
    ensures
        r@ == s@,
{
    String::from_str(s)
}

/// Where the scan for `k` stopped, `map_insert` replaces or inserts there, and order is kept.
proof fn lemma_map_insert_at(s: Seq<(Seq<char>, Seq<char>)>, k: Seq<char>, v: Seq<char>, p: int)
    requires
        0 <= p <= s.len(),
        keys_sorted(s),
        forall|j: int| 0 <= j < p ==> text_less(#[trigger] s[j].0, k),
        p < s.len() ==> !text_less(s[p].0, k),
    ensures
        p < s.len() && s[p].0 == k ==> map_insert(s, k, v) == s.update(p, (k, v)) && keys_sorted(s.update(p, (k, v))),
        !(p < s.len() && s[p].0 == k) ==> map_insert(s, k, v) == s.insert(p, (k, v)) && keys_sorted(s.insert(p, (k, v))),
    decreases s.len(),
{
    if s.len() == 0 {
        assert(s.insert(p, (k, v)) =~= seq![(k, v)]);
    } else if p == 0 {
        if s[0].0 == k {
            assert(s.update(0, (k, v)) =~= seq![(k, v)] + s.drop_first());
            assert forall|i: int, j: int| 0 <= i < j < s.len() implies text_less(#[trigger] s.update(0, (k, v))[i].0, #[trigger] s.update(0, (k, v))[j].0) by {
                assert(text_less(s[i].0, s[j].0));
            }
        } else {
            if key_bytes(k) == key_bytes(s[0].0) {
                lemma_key_bytes_injective(k, s[0].0);
            }
            lemma_bytes_less_total(key_bytes(k), key_bytes(s[0].0));
            assert(text_less(k, s[0].0));
            assert(s.insert(0, (k, v)) =~= seq![(k, v)] + s);
            assert forall|i: int, j: int| 0 <= i < j < s.len() + 1 implies text_less(#[trigger] s.insert(0, (k, v))[i].0, #[trigger] s.insert(0, (k, v))[j].0) by {
                if i == 0 {
                    if j > 1 {
                        assert(text_less(s[0].0, s[j - 1].0));
                        lemma_text_less_trans(k, s[0].0, s[j - 1].0);
                    }
                } else {
                    assert(text_less(s[i - 1].0, s[j - 1].0));
                }
            }
        }
    } else {
        let t = s.drop_first();
        assert forall|i: int, j: int| 0 <= i < j < t.len() implies text_less(#[trigger] t[i].0, #[trigger] t[j].0) by {
            assert(text_less(s[i + 1].0, s[j + 1].0));
        }
        assert forall|j: int| 0 <= j < p - 1 implies text_less(#[trigger] t[j].0, k) by {
            assert(text_less(s[j + 1].0, k));
        }
        lemma_map_insert_at(t, k, v, p - 1);
        assert(text_less(s[0].0, k));
        proof_helper_not_eq(s[0].0, k);
        if text_less(k, s[0].0) {
            lemma_text_less_trans(k, s[0].0, k);
            lemma_bytes_less_irrefl(key_bytes(k));
        }
        assert(map_insert(s, k, v) == seq![s[0]] + map_insert(t, k, v));
        if p < s.len() && s[p].0 == k {
            assert(s.update(p, (k, v)) =~= seq![s[0]] + t.update(p - 1, (k, v)));
            assert forall|i: int, j: int| 0 <= i < j < s.len() implies text_less(#[trigger] s.update(p, (k, v))[i].0, #[trigger] s.update(p, (k, v))[j].0) by {
                assert(text_less(s[i].0, s[j].0));
            }
        } else {
            assert(s.insert(p, (k, v)) =~= seq![s[0]] + t.insert(p - 1, (k, v)));
            assert forall|i: int, j: int| 0 <= i < j < s.len() + 1 implies text_less(#[trigger] s.insert(p, (k, v))[i].0, #[trigger] s.insert(p, (k, v))[j].0) by {
                if j < p {
                    assert(text_less(s[i].0, s[j].0));
                } else if j == p {
                    assert(text_less(s[i].0, k));
                } else if i < p {
                    if p < s.len() {
                        if key_bytes(k) == key_bytes(s[p].0) {
                            lemma_key_bytes_injective(k, s[p].0);
                        }
                        lemma_bytes_less_total(key_bytes(k), key_bytes(s[p].0));
                        assert(text_less(k, s[p].0));
                        if j - 1 > p {
                            assert(text_less(s[p].0, s[j - 1].0));
                            lemma_text_less_trans(k, s[p].0, s[j - 1].0);
                        }
                        lemma_text_less_trans(s[i].0, k, s[j - 1].0);
                    }
                } else if i == p {
                    if key_bytes(k) == key_bytes(s[p].0) {
                        lemma_key_bytes_injective(k, s[p].0);
                    }
                    lemma_bytes_less_total(key_bytes(k), key_bytes(s[p].0));
                    if j - 1 > p {
                        assert(text_less(s[p].0, s[j - 1].0));
                        lemma_text_less_trans(k, s[p].0, s[j - 1].0);
                    }
                } else {
                    assert(text_less(s[i - 1].0, s[j - 1].0));
                }
            }
        }
    }
}

proof fn proof_helper_not_eq(a: Seq<char>, b: Seq<char>)
    requires
        text_less(a, b),
    ensures
        a != b,
{
    lemma_bytes_less_irrefl(key_bytes(a));
}

} // verus!
