//! An insertion-ordered map from names to values.
use vstd::prelude::*;

verus! {

/// The first index at which `s` holds key `k`, if any.
pub open spec fn find_key<V>(s: Seq<(Seq<char>, V)>, k: Seq<char>) -> Option<int>
    decreases s.len(),
{
    if s.len() == 0 {
        None
    } else {
        match find_key(s.drop_last(), k) {
            Some(i) => Some(i),
            None => if s.last().0 == k {
                Some(s.len() - 1)
            } else {
                None
            },
        }
    }
}

/// What looking `k` up in the entry sequence `s` gives.
pub open spec fn lookup<V>(s: Seq<(Seq<char>, V)>, k: Seq<char>) -> Option<V> {
    match find_key(s, k) {
        Some(i) => Some(s[i].1),
        None => None,
    }
}

/// Inserting into an ordered map: an existing key keeps its place and takes the
/// new value; a new key goes to the end.
pub open spec fn insert_entry<V>(s: Seq<(Seq<char>, V)>, k: Seq<char>, v: V) -> Seq<(Seq<char>, V)> {
    match find_key(s, k) {
        Some(i) => s.update(i, (k, v)),
        None => s.push((k, v)),
    }
}

/// The map that inserting the pairs of `p` one after the other builds from empty.
pub open spec fn collect_pairs<V>(p: Seq<(Seq<char>, V)>) -> Seq<(Seq<char>, V)>
    decreases p.len(),
{
    if p.len() == 0 {
        Seq::empty()
    } else {
        insert_entry(collect_pairs(p.drop_last()), p.last().0, p.last().1)
    }
}

/// The set of keys that an entry sequence holds.
pub open spec fn key_set<V>(s: Seq<(Seq<char>, V)>) -> Set<Seq<char>> {
    Set::new(|k: Seq<char>| exists|i: int| 0 <= i < s.len() && s[i].0 == k)
}

/// No key occurs twice.
pub open spec fn keys_unique<V>(s: Seq<(Seq<char>, V)>) -> bool {
    forall|i: int, j: int| 0 <= i < s.len() && 0 <= j < s.len() && i != j ==> s[i].0 != s[j].0
}

/// The last value that `p` pairs with `k`.
pub open spec fn last_value<V>(p: Seq<(Seq<char>, V)>, k: Seq<char>) -> Option<V>
    decreases p.len(),
{
    if p.len() == 0 {
        None
    } else if p.last().0 == k {
        Some(p.last().1)
    } else {
        last_value(p.drop_last(), k)
    }
}

pub proof fn lemma_find_key<V>(s: Seq<(Seq<char>, V)>, k: Seq<char>)
    ensures
        find_key(s, k) is Some <==> key_set(s).contains(k),
        find_key(s, k) matches Some(i) ==> 0 <= i < s.len() && s[i].0 == k && forall|j: int|
            0 <= j < i ==> s[j].0 != k,
        find_key(s, k) is None ==> forall|j: int| 0 <= j < s.len() ==> s[j].0 != k,
    decreases s.len(),
{
    if s.len() > 0 {
        lemma_find_key(s.drop_last(), k);
        if find_key(s, k) is None {
            assert forall|j: int| 0 <= j < s.len() implies s[j].0 != k by {
                if j < s.len() - 1 {
                    assert(s.drop_last()[j] == s[j]);
                }
            }
        }
        if key_set(s).contains(k) {
            let j = choose|j: int| 0 <= j < s.len() && s[j].0 == k;
            if j < s.len() - 1 {
                assert(s.drop_last()[j] == s[j]);
                assert(key_set(s.drop_last()).contains(k));
            }
        }
        match find_key(s.drop_last(), k) {
            Some(i) => {
                assert(s.drop_last()[i] == s[i]);
                assert forall|j: int| 0 <= j < i implies s[j].0 != k by {
                    assert(s.drop_last()[j] == s[j]);
                }
            },
            None => {
                assert forall|j: int| 0 <= j < s.len() - 1 implies s[j].0 != k by {
                    assert(s.drop_last()[j] == s[j]);
                }
            },
        }
    }
}

proof fn lemma_insert_entry<V>(s: Seq<(Seq<char>, V)>, k: Seq<char>, v: V)
    requires
        keys_unique(s),
    ensures
        keys_unique(insert_entry(s, k, v)),
        key_set(insert_entry(s, k, v)) == key_set(s).insert(k),
        forall|q: Seq<char>| #[trigger]
            lookup(insert_entry(s, k, v), q) == if q == k {
                Some(v)
            } else {
                lookup(s, q)
            },
{
    lemma_find_key(s, k);
    let t = insert_entry(s, k, v);
    assert(keys_unique(t));
    assert(key_set(t) =~= key_set(s).insert(k)) by {
        assert forall|q: Seq<char>| key_set(s).insert(k).contains(q) implies key_set(t).contains(q) by {
            if q == k {
                match find_key(s, k) {
                    Some(i) => assert(t[i].0 == k),
                    None => assert(t[s.len() as int].0 == k),
                }
            } else {
                let j = choose|j: int| 0 <= j < s.len() && s[j].0 == q;
                assert(t[j].0 == q);
            }
        }
        assert forall|q: Seq<char>| key_set(t).contains(q) implies key_set(s).insert(k).contains(q) by {
            let j = choose|j: int| 0 <= j < t.len() && t[j].0 == q;
            if q != k {
                assert(s[j] == t[j]);
            }
        }
    }
    assert forall|q: Seq<char>| #[trigger]
        lookup(t, q) == if q == k {
            Some(v)
        } else {
            lookup(s, q)
        } by {
        lemma_find_key(t, q);
        lemma_find_key(s, q);
        if q == k {
            match find_key(s, k) {
                Some(i) => {
                    assert(t[i].0 == k);
                    assert(find_key(t, q) == Some(i)) by {
                        if find_key(t, q) != Some(i) {
                            let fi = find_key(t, q)->0;
                            assert(fi != i);
                        }
                    }
                },
                None => {
                    assert(t[s.len() as int].0 == k);
                    if let Some(fi) = find_key(t, q) {
                        if fi < s.len() {
                            assert(s[fi] == t[fi]);
                        }
                    }
                },
            }
        } else {
            match find_key(s, q) {
                Some(i) => {
                    assert(t[i] == s[i]);
                    if let Some(fi) = find_key(t, q) {
                        if fi != i {
                            assert(false);
                        }
                    }
                },
                None => {
                    if let Some(fi) = find_key(t, q) {
                        if fi < s.len() {
                            assert(s[fi] == t[fi]);
                        }
                    }
                },
            }
        }
    }
}

/// Collecting pairs into a map keeps every key once, holds exactly the keys of
/// the pairs, and maps each key to the last value paired with it.
pub proof fn lemma_collect_pairs<V>(p: Seq<(Seq<char>, V)>)
    ensures
        keys_unique(collect_pairs(p)),
        key_set(collect_pairs(p)) == key_set(p),
        forall|q: Seq<char>| #[trigger] lookup(collect_pairs(p), q) == last_value(p, q),
    decreases p.len(),
{
    if p.len() == 0 {
        assert(key_set(collect_pairs(p)) =~= key_set(p));
    } else {
        let d = p.drop_last();
        lemma_collect_pairs(d);
        lemma_insert_entry(collect_pairs(d), p.last().0, p.last().1);
        assert(key_set(p) =~= key_set(d).insert(p.last().0)) by {
            assert forall|q: Seq<char>| key_set(p).contains(q) implies key_set(d).insert(
                p.last().0,
            ).contains(q) by {
                let j = choose|j: int| 0 <= j < p.len() && p[j].0 == q;
                if j < p.len() - 1 {
                    assert(d[j] == p[j]);
                }
            }
            assert forall|q: Seq<char>| key_set(d).insert(p.last().0).contains(q) implies key_set(
                p,
            ).contains(q) by {
                if q != p.last().0 {
                    let j = choose|j: int| 0 <= j < d.len() && d[j].0 == q;
                    assert(d[j] == p[j]);
                } else {
                    assert(p[p.len() - 1].0 == q);
                }
            }
        }
    }
}

/// An insertion-ordered map from names to values; each name occurs once.
#[derive(Debug, Clone)]
pub struct NameMap<V> {
    pub entries: Vec<(String, V)>,
}

impl<V> View for NameMap<V> {
    type V = Seq<(Seq<char>, V)>;

    open spec fn view(&self) -> Seq<(Seq<char>, V)> {
        self.entries@.map_values(|e: (String, V)| (e.0@, e.1))
    }
}

impl<V: Copy> NameMap<V> {
    /// An empty map.
    pub fn new() -> (r: NameMap<V>)
        ensures
            r@ == Seq::<(Seq<char>, V)>::empty(),
    {
        NameMap { entries: Vec::new() }
    }

    /// The number of entries.
    pub fn len(&self) -> (r: usize)
        ensures
            r == self@.len(),
    {
        self.entries.len()
    }

    /// The position of `k`, if the map holds it.
    pub fn get_index_of(&self, k: &String) -> (r: Option<usize>)
        ensures
            r matches Some(i) ==> find_key(self@, k@) == Some(i as int),
            r is None ==> find_key(self@, k@) is None,
    {
        proof {
            lemma_find_key(self@, k@);
        }
        assert(self@.len() == self.entries@.len());
        let mut i: usize = 0;
        while i < self.entries.len()
            invariant
                0 <= i <= self.entries.len(),
                self@.len() == self.entries@.len(),
                forall|j: int| 0 <= j < i ==> self@[j].0 != k@,
            decreases self.entries.len() - i,
        {
            assert(self@[i as int] == (self.entries@[i as int].0@, self.entries@[i as int].1));
            if self.entries[i].0 == *k {
                proof {
                    lemma_find_key(self@, k@);
                    if find_key(self@, k@) != Some(i as int) {
                        let fi = find_key(self@, k@)->0;
                        assert(fi > i as int);
                    }
                }
                return Some(i);
            }
            i = i + 1;
        }
        None
    }

    /// The value of `k`, if the map holds it.
    pub fn get(&self, k: &String) -> (r: Option<V>)
        ensures
            r == lookup(self@, k@),
    {
        assert(self@.len() == self.entries@.len());
        proof {
            lemma_find_key(self@, k@);
        }
        match self.get_index_of(k) {
            Some(i) => {
                assert(self@[i as int] == (self.entries@[i as int].0@, self.entries@[i as int].1));
                Some(self.entries[i].1)
            },
            None => None,
        }
    }

    /// Whether the map holds `k`.
    pub fn contains_key(&self, k: &String) -> (r: bool)
        ensures
            r == key_set(self@).contains(k@),
    {
        proof {
            lemma_find_key(self@, k@);
        }
        self.get_index_of(k).is_some()
    }

    /// Binds `k` to `v`: in place where `k` is present, at the end where not.
    pub fn insert(&mut self, k: String, v: V)
        ensures
            final(self)@ == insert_entry(old(self)@, k@, v),
    {
        assert(self@.len() == self.entries@.len());
        proof {
            lemma_find_key(self@, k@);
        }
        match self.get_index_of(&k) {
            Some(i) => {
                self.entries.set(i, (k, v));
                assert(final(self)@ =~= insert_entry(old(self)@, k@, v));
            },
            None => {
                self.entries.push((k, v));
                assert(final(self)@ =~= insert_entry(old(self)@, k@, v));
            },
        }
    }

    /// Inserts each pair of `pairs` in turn.
    pub fn extend(&mut self, pairs: Vec<(String, V)>)
        ensures
            final(self)@ == fold_insert(old(self)@, pairs@.map_values(|e: (String, V)| (e.0@, e.1))),
    {
        let ghost p = pairs@.map_values(|e: (String, V)| (e.0@, e.1));
        let mut i: usize = 0;
        let mut rest = pairs;
        let ghost start = self@;
        let n = rest.len();
        assert(p.len() == n);
        while i < n
            invariant
                0 <= i <= n,
                n == pairs@.len(),
                p.len() == n,
                p == pairs@.map_values(|e: (String, V)| (e.0@, e.1)),
                rest@ == pairs@,
                self@ == fold_insert(start, p.subrange(0, i as int)),
            decreases n - i,
        {
            let e = rest[i].0.clone();
            let v = rest[i].1;
            assert(p[i as int] == (e@, v));
            self.insert(e, v);
            proof {
                assert(p.subrange(0, i as int + 1).drop_last() =~= p.subrange(0, i as int));
            }
            i = i + 1;
        }
        assert(p.subrange(0, n as int) =~= p);
    }
}

/// Inserting the pairs of `p` in turn into `s`.
pub open spec fn fold_insert<V>(s: Seq<(Seq<char>, V)>, p: Seq<(Seq<char>, V)>) -> Seq<(Seq<char>, V)>
    decreases p.len(),
{
    if p.len() == 0 {
        s
    } else {
        insert_entry(fold_insert(s, p.drop_last()), p.last().0, p.last().1)
    }
}

/// Inserting `q` after `p` into an empty map is collecting `p + q`.
pub proof fn lemma_fold_collect<V>(p: Seq<(Seq<char>, V)>, q: Seq<(Seq<char>, V)>)
    ensures
        fold_insert(collect_pairs(p), q) == collect_pairs(p + q),
    decreases q.len(),
{
    if q.len() == 0 {
        assert(p + q =~= p);
    } else {
        lemma_fold_collect(p, q.drop_last());
        assert((p + q).drop_last() =~= p + q.drop_last());
    }
}

/// The map that keeps the first value of each key of `p`.
pub open spec fn first_entries<V>(p: Seq<(Seq<char>, V)>) -> Seq<(Seq<char>, V)>
    decreases p.len(),
{
    if p.len() == 0 {
        Seq::empty()
    } else {
        let prev = first_entries(p.drop_last());
        if key_set(prev).contains(p.last().0) {
            prev
        } else {
            prev.push(p.last())
        }
    }
}

impl<V: Copy> NameMap<V> {
    /// Binds `k` to `v` where `k` is absent; returns whether it was.
    pub fn insert_new(&mut self, k: String, v: V) -> (r: bool)
        ensures
            r == !key_set(old(self)@).contains(k@),
            final(self)@ == if r {
                old(self)@.push((k@, v))
            } else {
                old(self)@
            },
    {
        if self.contains_key(&k) {
            false
        } else {
            self.entries.push((k, v));
            assert(final(self)@ =~= old(self)@.push((k@, v)));
            true
        }
    }
}

} // verus!
