//! A map from byte-string keys to values, kept sorted by the byte order of
//! its keys so that iteration is deterministic.

use vstd::prelude::*;
use core::cmp::Ordering;

verus! {

/// Byte-wise lexicographic order: `a` sorts before `b`.
pub open spec fn lex_lt(a: Seq<u8>, b: Seq<u8>) -> bool
    decreases a.len(),
{
    if a.len() == 0 {
        b.len() > 0
    } else if b.len() == 0 {
        false
    } else if a[0] != b[0] {
        a[0] < b[0]
    } else {
        lex_lt(a.drop_first(), b.drop_first())
    }
}

pub proof fn lemma_lex_irreflexive(a: Seq<u8>)
    ensures
        !lex_lt(a, a),
    decreases a.len(),
{
    if a.len() > 0 {
        lemma_lex_irreflexive(a.drop_first());
    }
}

pub proof fn lemma_lex_total(a: Seq<u8>, b: Seq<u8>)
    ensures
        a != b ==> lex_lt(a, b) || lex_lt(b, a),
        !(lex_lt(a, b) && lex_lt(b, a)),
    decreases a.len(),
{
    if a.len() > 0 && b.len() > 0 {
        lemma_lex_total(a.drop_first(), b.drop_first());
        if a[0] == b[0] && a.drop_first() == b.drop_first() {
            assert(a =~= seq![a[0]] + a.drop_first());
            assert(b =~= seq![b[0]] + b.drop_first());
        }
    } else if a.len() == 0 && b.len() == 0 {
        assert(a =~= b);
    }
}

pub proof fn lemma_lex_transitive(a: Seq<u8>, b: Seq<u8>, c: Seq<u8>)
    requires
        lex_lt(a, b),
        lex_lt(b, c),
    ensures
        lex_lt(a, c),
    decreases a.len(),
{
    if a.len() > 0 && b.len() > 0 && c.len() > 0 && a[0] == b[0] && b[0] == c[0] {
        lemma_lex_transitive(a.drop_first(), b.drop_first(), c.drop_first());
    }
}

/// Keys strictly increasing in byte order (hence pairwise distinct).
pub open spec fn keys_sorted<W>(s: Seq<(Seq<u8>, W)>) -> bool {
    forall|i: int, j: int| 0 <= i < j < s.len() ==> lex_lt(#[trigger] s[i].0, #[trigger] s[j].0)
}

/// Whether some entry of `s` has key `k`.
pub open spec fn has_key<W>(s: Seq<(Seq<u8>, W)>, k: Seq<u8>) -> bool {
    exists|i: int| 0 <= i < s.len() && #[trigger] s[i].0 == k
}

/// The map that a sequence of entries with distinct keys describes.
pub open spec fn entries_map<W>(s: Seq<(Seq<u8>, W)>) -> Map<Seq<u8>, W> {
    Map::new(
        |k: Seq<u8>| has_key(s, k),
        |k: Seq<u8>| s[choose|i: int| 0 <= i < s.len() && #[trigger] s[i].0 == k].1,
    )
}

/// Inserting the pairs of `s` one after another, a later pair replacing an
/// earlier one with the same key.
pub open spec fn pairs_map<W>(s: Seq<(Seq<u8>, W)>) -> Map<Seq<u8>, W>
    decreases s.len(),
{
    if s.len() == 0 {
        Map::empty()
    } else {
        pairs_map(s.drop_last()).insert(s.last().0, s.last().1)
    }
}

proof fn lemma_entries_map_at<W>(s: Seq<(Seq<u8>, W)>, i: int)
    requires
        keys_sorted(s),
        0 <= i < s.len(),
    ensures
        entries_map(s).contains_key(s[i].0),
        entries_map(s)[s[i].0] == s[i].1,
{
    let k = s[i].0;
    assert(has_key(s, k));
    let j = choose|j: int| 0 <= j < s.len() && #[trigger] s[j].0 == k;
    lemma_lex_irreflexive(k);
    if j < i {
        assert(lex_lt(s[j].0, s[i].0));
    } else if i < j {
        assert(lex_lt(s[i].0, s[j].0));
    }
    assert(j == i);
    assert(entries_map(s)[k] == s[j].1);
}

/// Sorted entries from byte-string keys to values; each key occurs once.
pub struct VarMap<V> {
    entries: Vec<(Vec<u8>, V)>,
}

impl<V: View> VarMap<V> {
    /// The entries in key order, as plain values.
    pub closed spec fn model(&self) -> Seq<(Seq<u8>, V::V)> {
        self.entries@.map_values(|e: (Vec<u8>, V)| (e.0@, e.1@))
    }

    pub open spec fn wf(&self) -> bool {
        keys_sorted(self.model())
    }

    pub fn new() -> (r: VarMap<V>)
        ensures
            r.wf(),
            r.model() == Seq::<(Seq<u8>, V::V)>::empty(),
            r@ == Map::<Seq<u8>, V::V>::empty(),
    {
        let r = VarMap { entries: Vec::new() };
        assert(r.model() =~= Seq::<(Seq<u8>, V::V)>::empty());
        assert(r@ =~= Map::<Seq<u8>, V::V>::empty());
        r
    }

    pub fn len(&self) -> (r: usize)
        ensures
            r == self.model().len(),
    {
        self.entries.len()
    }

    /// The key and value of the `i`-th entry in key order.
    pub fn entry(&self, i: usize) -> (r: (&Vec<u8>, &V))
        requires
            i < self.model().len(),
        ensures
            (r.0@, r.1@) == self.model()[i as int],
    {
        let e = &self.entries[i];
        (&e.0, &e.1)
    }

    /// Sets `key` to `value`, replacing what the key held before.
    pub fn insert(&mut self, key: Vec<u8>, value: V)
        requires
            old(self).wf(),
        ensures
            final(self).wf(),
            final(self)@ == old(self)@.insert(key@, value@),
    {
        let ghost s = self.model();
        let ghost k = key@;
        let n = self.entries.len();
        let mut p: usize = 0;
        let mut found = false;
        while p < n
            invariant_except_break
                !found,
            invariant
                n == self.entries@.len(),
                s == self.model(),
                keys_sorted(s),
                p <= n,
                forall|m: int| 0 <= m < p ==> lex_lt(#[trigger] s[m].0, k),
                k == key@,
            ensures
                found ==> p < n && s[p as int].0 == k,
                !found ==> p == n || lex_lt(k, s[p as int].0),
            decreases n - p,
        {
            let kb = key.as_slice();
            let eb = self.entries[p].0.as_slice();
            assert(eb@ == s[p as int].0);
            match compare(eb, kb) {
                Ordering::Less => {
                    p = p + 1;
                },
                Ordering::Equal => {
                    found = true;
                    break;
                },
                Ordering::Greater => {
                    proof {
                        lemma_lex_total(s[p as int].0, k);
                    }
                    break;
                },
            }
        }
        let ghost e = (k, value@);
        if found {
            self.entries[p] = (key, value);
            proof {
                let t = self.model();
                assert(t =~= s.update(p as int, e));
                assert forall|i: int, j: int| 0 <= i < j < t.len() implies lex_lt(
                    #[trigger] t[i].0,
                    #[trigger] t[j].0,
                ) by {
                    assert(s[i].0 == t[i].0 && s[j].0 == t[j].0);
                }
                self.lemma_update_map(s, p as int, e);
            }
        } else {
            self.entries.insert(p, (key, value));
            proof {
                let t = self.model();
                assert(t =~= s.insert(p as int, e));
                assert forall|i: int, j: int| 0 <= i < j < t.len() implies lex_lt(
                    #[trigger] t[i].0,
                    #[trigger] t[j].0,
                ) by {
                    if j == p {
                    } else if i == p {
                        if j - 1 > p {
                            assert(lex_lt(s[p as int].0, s[j - 1].0));
                            lemma_lex_transitive(k, s[p as int].0, s[j - 1].0);
                        }
                    } else if i > p {
                        assert(t[i] == s[i - 1] && t[j] == s[j - 1]);
                    } else if j > p {
                        assert(t[i] == s[i] && t[j] == s[j - 1]);
                    }
                }
                assert forall|i: int| 0 <= i < s.len() implies #[trigger] s[i].0 != k by {
                    lemma_lex_irreflexive(k);
                    if i > p {
                        lemma_lex_transitive(k, s[p as int].0, s[i].0);
                    }
                }
                self.lemma_insert_map(s, p as int, e);
            }
        }
    }

    proof fn lemma_update_map(&self, s: Seq<(Seq<u8>, V::V)>, p: int, e: (Seq<u8>, V::V))
        requires
            keys_sorted(s),
            0 <= p < s.len(),
            s[p].0 == e.0,
            self.model() == s.update(p, e),
            keys_sorted(self.model()),
        ensures
            self@ == entries_map(s).insert(e.0, e.1),
    {
        let t = self.model();
        let m = entries_map(s).insert(e.0, e.1);
        assert forall|q: Seq<u8>| #[trigger] self@.contains_key(q) == m.contains_key(q) by {
            if has_key(t, q) {
                let i = choose|i: int| 0 <= i < t.len() && #[trigger] t[i].0 == q;
                if i != p {
                    assert(s[i].0 == q);
                }
            }
            if has_key(s, q) {
                let i = choose|i: int| 0 <= i < s.len() && #[trigger] s[i].0 == q;
                assert(t[i].0 == q);
            }
        }
        assert forall|q: Seq<u8>| #[trigger] self@.contains_key(q) implies self@[q] == m[q] by {
            let i = choose|i: int| 0 <= i < t.len() && #[trigger] t[i].0 == q;
            lemma_entries_map_at(t, i);
            if i != p {
                assert(t[i] == s[i]);
                assert(q != e.0) by {
                    if q == e.0 {
                        assert(lex_lt(s[i].0, s[p].0) || lex_lt(s[p].0, s[i].0));
                        lemma_lex_irreflexive(q);
                    }
                }
                lemma_entries_map_at(s, i);
            }
        }
        assert(self@ =~= m);
    }

    proof fn lemma_insert_map(&self, s: Seq<(Seq<u8>, V::V)>, p: int, e: (Seq<u8>, V::V))
        requires
            keys_sorted(s),
            0 <= p <= s.len(),
            !has_key(s, e.0),
            self.model() == s.insert(p, e),
            keys_sorted(self.model()),
        ensures
            self@ == entries_map(s).insert(e.0, e.1),
    {
        let t = self.model();
        let m = entries_map(s).insert(e.0, e.1);
        assert forall|q: Seq<u8>| #[trigger] self@.contains_key(q) == m.contains_key(q) by {
            if has_key(t, q) {
                let i = choose|i: int| 0 <= i < t.len() && #[trigger] t[i].0 == q;
                if i < p {
                    assert(s[i].0 == q);
                } else if i > p {
                    assert(s[i - 1].0 == q);
                }
            }
            if has_key(s, q) {
                let i = choose|i: int| 0 <= i < s.len() && #[trigger] s[i].0 == q;
                if i < p {
                    assert(t[i].0 == q);
                } else {
                    assert(t[i + 1].0 == q);
                }
            }
            assert(t[p].0 == e.0);
        }
        assert forall|q: Seq<u8>| #[trigger] self@.contains_key(q) implies self@[q] == m[q] by {
            let i = choose|i: int| 0 <= i < t.len() && #[trigger] t[i].0 == q;
            lemma_entries_map_at(t, i);
            assert(self@[q] == t[i].1);
            if i < p {
                assert(t[i] == s[i]);
                assert(q != e.0);
                lemma_entries_map_at(s, i);
            } else if i > p {
                assert(t[i] == s[i - 1]);
                assert(q != e.0);
                lemma_entries_map_at(s, i - 1);
            } else {
                assert(q == e.0);
                assert(t[i].1 == e.1);
            }
        }
        assert(self@ =~= m);
    }
}

impl<V: View> View for VarMap<V> {
    type V = Map<Seq<u8>, V::V>;

    open spec fn view(&self) -> Map<Seq<u8>, V::V> {
        entries_map(self.model())
    }
}

/// Compares two byte strings in lexicographic order.
pub fn compare(a: &[u8], b: &[u8]) -> (r: Ordering)
    ensures
        r == Ordering::Less <==> lex_lt(a@, b@),
        r == Ordering::Equal <==> a@ == b@,
        r == Ordering::Greater <==> lex_lt(b@, a@),
{
    let mut k: usize = 0;
    while k < a.len() && k < b.len() && a[k] == b[k]
        invariant
            k <= a@.len(),
            k <= b@.len(),
            a@.subrange(0, k as int) == b@.subrange(0, k as int),
        decreases a@.len() - k,
    {
        assert(a@.subrange(0, k + 1) =~= a@.subrange(0, k as int).push(a@[k as int]));
        assert(b@.subrange(0, k + 1) =~= b@.subrange(0, k as int).push(b@[k as int]));
        k = k + 1;
    }
    proof {
        lemma_lex_skip(a@, b@, k as int);
        lemma_lex_total(a@, b@);
        lemma_lex_irreflexive(a@);
        if a@ == b@ {
        } else if k == a@.len() && k == b@.len() {
            assert(a@ =~= a@.subrange(0, k as int));
            assert(b@ =~= b@.subrange(0, k as int));
        }
    }
    if k < a.len() && k < b.len() {
        if a[k] < b[k] {
            Ordering::Less
        } else {
            Ordering::Greater
        }
    } else if k < b.len() {
        Ordering::Less
    } else if k < a.len() {
        Ordering::Greater
    } else {
        Ordering::Equal
    }
}

/// After a common prefix of length `k` the order is that of the rests.
proof fn lemma_lex_skip(a: Seq<u8>, b: Seq<u8>, k: int)
    requires
        0 <= k <= a.len(),
        k <= b.len(),
        a.subrange(0, k) == b.subrange(0, k),
    ensures
        lex_lt(a, b) == lex_lt(a.subrange(k, a.len() as int), b.subrange(k, b.len() as int)),
        lex_lt(b, a) == lex_lt(b.subrange(k, b.len() as int), a.subrange(k, a.len() as int)),
    decreases k,
{
    if k > 0 {
        assert(a[0] == a.subrange(0, k)[0]);
        assert(b[0] == b.subrange(0, k)[0]);
        assert(a.drop_first().subrange(0, k - 1) =~= a.subrange(0, k).drop_first());
        assert(b.drop_first().subrange(0, k - 1) =~= b.subrange(0, k).drop_first());
        lemma_lex_skip(a.drop_first(), b.drop_first(), k - 1);
        assert(a.drop_first().subrange(k - 1, a.len() - 1) =~= a.subrange(k, a.len() as int));
        assert(b.drop_first().subrange(k - 1, b.len() - 1) =~= b.subrange(k, b.len() as int));
    } else {
        assert(a.subrange(0, a.len() as int) =~= a);
        assert(b.subrange(0, b.len() as int) =~= b);
    }
}

} // verus!
