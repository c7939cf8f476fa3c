//! An insertion-ordered map from strings to values.
use vstd::prelude::*;

use crate::text::str_eq;

verus! {

/// Values that can be duplicated into an identical copy.
pub trait Dup: View + Sized {
    fn dup(&self) -> (r: Self)
        ensures
            r@ == self@,
    ;
}

impl Dup for String {
    fn dup(&self) -> (r: String) {
        self.clone()
    }
}

/// The value stored under `k` in `ps` (the first pair with that key), if any.
pub open spec fn lookup<V>(ps: Seq<(Seq<char>, V)>, k: Seq<char>) -> Option<V>
    decreases ps.len(),
{
    if ps.len() == 0 {
        None
    } else if ps[0].0 == k {
        Some(ps[0].1)
    } else {
        lookup(ps.drop_first(), k)
    }
}

/// The keys of `ps`, in order.
pub open spec fn keys_of<V>(ps: Seq<(Seq<char>, V)>) -> Seq<Seq<char>> {
    ps.map_values(|p: (Seq<char>, V)| p.0)
}

/// `ps` after storing `v` under `k`: an existing pair keeps its place, a new key goes last.
pub open spec fn insert_pair<V>(ps: Seq<(Seq<char>, V)>, k: Seq<char>, v: V) -> Seq<(Seq<char>, V)>
    decreases ps.len(),
{
    if ps.len() == 0 {
        seq![(k, v)]
    } else if ps[0].0 == k {
        ps.update(0, (k, v))
    } else {
        seq![ps[0]] + insert_pair(ps.drop_first(), k, v)
    }
}

/// `base` after storing every pair of `over`, in order.
pub open spec fn insert_all<V>(base: Seq<(Seq<char>, V)>, over: Seq<(Seq<char>, V)>) -> Seq<
    (Seq<char>, V),
>
    decreases over.len(),
{
    if over.len() == 0 {
        base
    } else {
        insert_pair(insert_all(base, over.drop_last()), over.last().0, over.last().1)
    }
}

/// An insertion-ordered map from strings to values: an existing key keeps its
/// place when its value is replaced, a new key goes last.
#[derive(Debug)]
pub struct StrMap<V> {
    entries: Vec<(String, V)>,
}

impl<V: Dup> Clone for StrMap<V> {
    fn clone(&self) -> (r: Self)
        ensures
            r.pairs() == self.pairs(),
    {
        self.dup_map()
    }
}

impl<V: View> View for StrMap<V> {
    type V = Seq<(Seq<char>, V::V)>;

    /// The pairs of the map, keys and values by their views, in order.
    closed spec fn view(&self) -> Seq<(Seq<char>, V::V)> {
        self.entries@.map_values(|e: (String, V)| (e.0@, e.1@))
    }
}

impl<V> StrMap<V> {
    /// The stored keys, in order.
    closed spec fn key_views(self) -> Seq<Seq<char>> {
        self.entries@.map_values(|e: (String, V)| e.0@)
    }

    /// No key occurs twice.
    #[verifier::type_invariant]
    closed spec fn keys_unique(self) -> bool {
        self.key_views().no_duplicates()
    }
}

impl<V: View> StrMap<V> {
    proof fn lemma_key_views(self)
        ensures
            keys_of(self@) == self.key_views(),
    {
        assert(keys_of(self@) =~= self.key_views());
    }

    /// The pairs of the map, in order.
    pub open spec fn pairs(&self) -> Seq<(Seq<char>, V::V)> {
        self@
    }

    /// The keys of the map, in order.
    pub open spec fn keys(&self) -> Seq<Seq<char>> {
        keys_of(self.pairs())
    }

    /// The value under `k`, if any.
    pub open spec fn lookup(&self, k: Seq<char>) -> Option<V::V> {
        lookup(self.pairs(), k)
    }

    /// An empty map.
    pub fn new() -> (m: Self)
        ensures
            m.pairs() == Seq::<(Seq<char>, V::V)>::empty(),
    {
        let entries: Vec<(String, V)> = Vec::new();
        assert(entries@.map_values(|e: (String, V)| (e.0@, e.1@)) =~= Seq::<(Seq<char>, V::V)>::empty());
        assert(entries@.map_values(|e: (String, V)| e.0@) =~= Seq::<Seq<char>>::empty());
        StrMap { entries }
    }

    /// Number of keys.
    pub fn len(&self) -> (r: usize)
        ensures
            r == self.pairs().len(),
    {
        self.entries.len()
    }

    /// Whether the map has no keys.
    pub fn is_empty(&self) -> (r: bool)
        ensures
            r == (self.pairs().len() == 0),
    {
        self.entries.len() == 0
    }

    /// The key at position `i`.
    pub fn key_at(&self, i: usize) -> (r: &String)
        requires
            i < self.pairs().len(),
        ensures
            r@ == self.pairs()[i as int].0,
    {
        &self.entries[i].0
    }

    /// The value at position `i`.
    pub fn value_at(&self, i: usize) -> (r: &V)
        requires
            i < self.pairs().len(),
        ensures
            r@ == self.pairs()[i as int].1,
    {
        &self.entries[i].1
    }

    /// No key occurs twice: every map keeps its keys unique.
    pub fn prove_keys_unique(&self)
        ensures
            self.keys().no_duplicates(),
    {
        proof {
            use_type_invariant(self);
            self.lemma_key_views();
        }
    }

    /// Position of the first pair with key `k`, if any.
    fn position(&self, k: &str) -> (r: Option<usize>)
        ensures
            match r {
                Some(i) => i < self.pairs().len() && self.pairs()[i as int].0 == k@ && forall|
                    j: int,
                | 0 <= j < i ==> self.pairs()[j].0 != k@,
                None => forall|j: int| 0 <= j < self.pairs().len() ==> self.pairs()[j].0 != k@,
            },
    {
        let n = self.entries.len();
        let mut i: usize = 0;
        while i < n
            invariant
                n == self.pairs().len(),
                n == self.entries@.len(),
                i <= n,
                forall|j: int| 0 <= j < i ==> self.pairs()[j].0 != k@,
            decreases n - i,
        {
            if str_eq(self.entries[i].0.as_str(), k) {
                return Some(i);
            }
            i = i + 1;
        }
        None
    }

    /// The value stored under `k`, if any.
    pub fn get(&self, k: &str) -> (r: Option<&V>)
        ensures
            match r {
                Some(v) => self.lookup(k@) == Some(v@),
                None => self.lookup(k@) is None,
            },
    {
        proof {
            lemma_lookup_first(self.pairs(), k@);
        }
        match self.position(k) {
            Some(i) => Some(&self.entries[i].1),
            None => None,
        }
    }

    /// Whether `k` has a value.
    pub fn contains_key(&self, k: &str) -> (r: bool)
        ensures
            r == self.lookup(k@) is Some,
    {
        proof {
            lemma_lookup_first(self.pairs(), k@);
        }
        self.position(k).is_some()
    }

    /// Stores `v` under `k`: an existing key keeps its place, a new key goes last.
    pub fn insert(&mut self, k: String, v: V)
        ensures
            final(self).pairs() == insert_pair(old(self).pairs(), k@, v@),
    {
        proof {
            use_type_invariant(&*self);
            self.lemma_key_views();
        }
        let ghost ps = self.pairs();
        proof {
            lemma_insert_pair_at(ps, k@, v@);
            lemma_insert_pair_unique(ps, k@, v@);
        }
        let ghost kv = (k@, v@);
        let pos = self.position(k.as_str());
        let mut entries: Vec<(String, V)> = Vec::new();
        assert(entries@.map_values(|e: (String, V)| e.0@) =~= Seq::<Seq<char>>::empty());
        std::mem::swap(&mut entries, &mut self.entries);
        match pos {
            Some(i) => {
                entries.set(i, (k, v));
            },
            None => {
                entries.push((k, v));
            },
        }
        let ghost goal = insert_pair(ps, k@, v@);
        proof {
            let pv = entries@.map_values(|e: (String, V)| (e.0@, e.1@));
            match pos {
                Some(i) => {
                    assert(pv =~= ps.update(i as int, kv));
                },
                None => {
                    assert(pv =~= ps.push(kv));
                },
            }
            assert(pv == goal);
            assert(entries@.map_values(|e: (String, V)| e.0@) =~= keys_of(goal));
        }
        self.entries = entries;
    }
}

/// `lookup` finds the first pair with the key.
pub proof fn lemma_lookup_first<V>(ps: Seq<(Seq<char>, V)>, k: Seq<char>)
    ensures
        forall|i: int|
            0 <= i < ps.len() && ps[i].0 == k && (forall|j: int| 0 <= j < i ==> ps[j].0 != k)
                ==> lookup(ps, k) == Some(ps[i].1),
        (forall|j: int| 0 <= j < ps.len() ==> ps[j].0 != k) ==> lookup(ps, k) is None,
    decreases ps.len(),
{
    if ps.len() > 0 {
        lemma_lookup_first(ps.drop_first(), k);
        assert forall|i: int|
            0 <= i < ps.len() && ps[i].0 == k && (forall|j: int| 0 <= j < i ==> ps[j].0 != k)
                implies lookup(ps, k) == Some(ps[i].1) by {
            if i > 0 {
                assert(ps[0].0 != k);
                assert(ps.drop_first()[i - 1].0 == k);
                assert forall|j: int| 0 <= j < i - 1 implies ps.drop_first()[j].0 != k by {
                    assert(ps[j + 1].0 != k);
                }
            }
        }
        if forall|j: int| 0 <= j < ps.len() ==> ps[j].0 != k {
            assert forall|j: int| 0 <= j < ps.drop_first().len() implies ps.drop_first()[j].0
                != k by {
                assert(ps[j + 1].0 != k);
            }
        }
    }
}

/// `insert_pair` replaces the first pair with the key, or appends.
proof fn lemma_insert_pair_at<V>(ps: Seq<(Seq<char>, V)>, k: Seq<char>, v: V)
    ensures
        forall|i: int|
            0 <= i < ps.len() && ps[i].0 == k && (forall|j: int| 0 <= j < i ==> ps[j].0 != k)
                ==> insert_pair(ps, k, v) == ps.update(i, (k, v)),
        (forall|j: int| 0 <= j < ps.len() ==> ps[j].0 != k) ==> insert_pair(ps, k, v) == ps.push(
            (k, v),
        ),
    decreases ps.len(),
{
    if ps.len() > 0 {
        lemma_insert_pair_at(ps.drop_first(), k, v);
        assert forall|i: int|
            0 <= i < ps.len() && ps[i].0 == k && (forall|j: int| 0 <= j < i ==> ps[j].0 != k)
                implies insert_pair(ps, k, v) == ps.update(i, (k, v)) by {
            if i > 0 {
                assert(ps[0].0 != k);
                assert(ps.drop_first()[i - 1].0 == k);
                assert forall|j: int| 0 <= j < i - 1 implies ps.drop_first()[j].0 != k by {
                    assert(ps[j + 1].0 != k);
                }
                assert(seq![ps[0]] + ps.drop_first().update(i - 1, (k, v)) =~= ps.update(
                    i,
                    (k, v),
                ));
            }
        }
        if forall|j: int| 0 <= j < ps.len() ==> ps[j].0 != k {
            assert forall|j: int| 0 <= j < ps.drop_first().len() implies ps.drop_first()[j].0
                != k by {
                assert(ps[j + 1].0 != k);
            }
            assert(seq![ps[0]] + ps.drop_first().push((k, v)) =~= ps.push((k, v)));
        }
    } else {
        assert(seq![(k, v)] =~= ps.push((k, v)));
    }
}

impl<V: Dup> StrMap<V> {
    /// An identical copy of the map.
    pub fn dup_map(&self) -> (r: Self)
        ensures
            r.pairs() == self.pairs(),
    {
        let mut out: Vec<(String, V)> = Vec::new();
        let n = self.entries.len();
        let mut i: usize = 0;
        while i < n
            invariant
                n == self.entries@.len(),
                i <= n,
                out@.map_values(|e: (String, V)| (e.0@, e.1@)) == self.pairs().take(i as int),
            decreases n - i,
        {
            let k = self.entries[i].0.clone();
            let v = self.entries[i].1.dup();
            assert(self.pairs()[i as int] == (k@, v@));
            let ghost before = out@.map_values(|e: (String, V)| (e.0@, e.1@));
            out.push((k, v));
            assert(out@.map_values(|e: (String, V)| (e.0@, e.1@)) =~= before.push(
                self.pairs()[i as int],
            ));
            assert(out@.map_values(|e: (String, V)| (e.0@, e.1@)) =~= self.pairs().take(
                (i + 1) as int,
            ));
            i = i + 1;
        }
        proof {
            use_type_invariant(self);
            self.lemma_key_views();
            assert(out@.map_values(|e: (String, V)| (e.0@, e.1@)) =~= self.pairs());
            assert(out@.map_values(|e: (String, V)| e.0@) =~= keys_of(self.pairs()));
        }
        let r = StrMap { entries: out };
        r
    }

    /// `base` with every key of `overlay` stored over it, in `overlay`'s order: a key of
    /// `overlay` reads its overlay value, any other key reads as in `base`.
    pub fn overlaid(base: &Self, overlay: &Self) -> (r: Self)
        ensures
            r.pairs() == insert_all(base.pairs(), overlay.pairs()),
            forall|k: Seq<char>|
                #[trigger] r.lookup(k) == match overlay.lookup(k) {
                    Some(v) => Some(v),
                    None => base.lookup(k),
                },
    {
        proof {
            use_type_invariant(overlay);
            overlay.lemma_key_views();
            assert forall|k: Seq<char>|
                #[trigger] lookup(insert_all(base.pairs(), overlay.pairs()), k) == match overlay.lookup(k) {
                    Some(v) => Some(v),
                    None => base.lookup(k),
                } by {
                lemma_lookup_insert_all(base.pairs(), overlay.pairs(), k);
            }
        }
        let mut r = base.dup_map();
        let n = overlay.entries.len();
        let mut i: usize = 0;
        while i < n
            invariant
                n == overlay.pairs().len(),
                n == overlay.entries@.len(),
                i <= n,
                r.pairs() == insert_all(base.pairs(), overlay.pairs().take(i as int)),
            decreases n - i,
        {
            let k = overlay.entries[i].0.clone();
            let v = overlay.entries[i].1.dup();
            r.insert(k, v);
            assert(overlay.pairs().take((i + 1) as int).drop_last() =~= overlay.pairs().take(
                i as int,
            ));
            i = i + 1;
        }
        assert(overlay.pairs().take(n as int) =~= overlay.pairs());
        r
    }
}

impl<V: Dup> Dup for StrMap<V> {
    fn dup(&self) -> (r: Self) {
        self.dup_map()
    }
}


/// `insert_pair` keeps keys unique.
proof fn lemma_insert_pair_unique<V>(ps: Seq<(Seq<char>, V)>, k: Seq<char>, v: V)
    requires
        keys_of(ps).no_duplicates(),
    ensures
        keys_of(insert_pair(ps, k, v)).no_duplicates(),
{
    lemma_insert_pair_at(ps, k, v);
    if exists|i: int| 0 <= i < ps.len() && ps[i].0 == k {
        let i = choose|i: int| 0 <= i < ps.len() && ps[i].0 == k;
        assert forall|j: int| 0 <= j < i implies ps[j].0 != k by {
            assert(keys_of(ps)[j] != keys_of(ps)[i]);
        }
        let ip = insert_pair(ps, k, v);
        assert(ip == ps.update(i, (k, v)));
        assert forall|j: int| 0 <= j < ip.len() implies #[trigger] keys_of(ip)[j] == keys_of(ps)[j] by {
            if j == i {
                assert(ip[j].0 == k);
            } else {
                assert(ip[j] == ps[j]);
            }
        }
        assert(keys_of(ip) =~= keys_of(ps));
    } else {
        let ks = keys_of(insert_pair(ps, k, v));
        assert(ks =~= keys_of(ps).push(k));
        assert forall|a: int, b: int| 0 <= a < ks.len() && 0 <= b < ks.len() && a != b implies ks[a]
            != ks[b] by {
            if a < ps.len() && b < ps.len() {
                assert(keys_of(ps)[a] != keys_of(ps)[b]);
            }
        }
    }
}

/// After storing `v` under `k`, `k` reads `v` and every other key reads as before.
pub proof fn lemma_lookup_insert_pair<V>(ps: Seq<(Seq<char>, V)>, k: Seq<char>, v: V, key: Seq<char>)
    ensures
        lookup(insert_pair(ps, k, v), key) == if key == k {
            Some(v)
        } else {
            lookup(ps, key)
        },
    decreases ps.len(),
{
    if ps.len() == 0 {
        assert(seq![(k, v)].drop_first() =~= ps);
    } else {
        if ps[0].0 == k {
            let u = ps.update(0, (k, v));
            assert(u[0] == (k, v));
            assert(u.drop_first() =~= ps.drop_first());
        } else {
            let rest = insert_pair(ps.drop_first(), k, v);
            lemma_lookup_insert_pair(ps.drop_first(), k, v, key);
            assert((seq![ps[0]] + rest)[0] == ps[0]);
            assert((seq![ps[0]] + rest).drop_first() =~= rest);
        }
    }
}

/// With unique keys, the last pair reads back, and other keys read as before it.
pub proof fn lemma_lookup_unique_last<V>(ps: Seq<(Seq<char>, V)>, key: Seq<char>)
    requires
        keys_of(ps).no_duplicates(),
        ps.len() > 0,
    ensures
        lookup(ps, key) == if ps.last().0 == key {
            Some(ps.last().1)
        } else {
            lookup(ps.drop_last(), key)
        },
    decreases ps.len(),
{
    if ps.len() > 1 {
        let t = ps.drop_first();
        assert(keys_of(t).no_duplicates()) by {
            assert forall|a: int, b: int| 0 <= a < t.len() && 0 <= b < t.len() && a != b implies keys_of(t)[a]
                != keys_of(t)[b] by {
                assert(keys_of(ps)[a + 1] != keys_of(ps)[b + 1]);
            }
        }
        assert(ps.drop_last()[0] == ps[0]);
        assert(t.last() == ps.last());
        if ps[0].0 == key {
            assert(keys_of(ps)[0] != keys_of(ps)[ps.len() - 1]);
        } else {
            lemma_lookup_unique_last(t, key);
            assert(ps.drop_last().drop_first() =~= t.drop_last());
        }
    } else {
        assert(ps.drop_first() =~= Seq::<(Seq<char>, V)>::empty());
        assert(ps.drop_last() =~= Seq::<(Seq<char>, V)>::empty());
    }
}

/// Overlay keys win; a key the overlay lacks reads as in the base.
pub proof fn lemma_lookup_insert_all<V>(base: Seq<(Seq<char>, V)>, over: Seq<(Seq<char>, V)>, key: Seq<char>)
    requires
        keys_of(over).no_duplicates(),
    ensures
        lookup(insert_all(base, over), key) == match lookup(over, key) {
            Some(v) => Some(v),
            None => lookup(base, key),
        },
    decreases over.len(),
{
    if over.len() > 0 {
        let init = over.drop_last();
        assert(keys_of(init).no_duplicates()) by {
            assert forall|a: int, b: int| 0 <= a < init.len() && 0 <= b < init.len() && a != b implies keys_of(
                init,
            )[a] != keys_of(init)[b] by {
                assert(keys_of(over)[a] != keys_of(over)[b]);
            }
        }
        lemma_lookup_insert_all(base, init, key);
        lemma_lookup_insert_pair(insert_all(base, init), over.last().0, over.last().1, key);
        lemma_lookup_unique_last(over, key);
    }
}

} // verus!
