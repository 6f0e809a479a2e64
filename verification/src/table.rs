//! An insertion-ordered table of entries with distinct keys.
//!
//! Its view is the sequence of its entries, each key taken by its view;
//! `lookup` reads it as a finite map.

use vstd::prelude::*;

verus! {

/// Keys that a table can compare and copy.
pub trait TableKey: View + Sized {
    fn same_key(&self, other: &Self) -> (r: bool)
        ensures
            r == (self@ == other@),
    ;

    fn copy_key(&self) -> (r: Self)
        ensures
            r@ == self@,
    ;
}

impl TableKey for String {
    fn same_key(&self, other: &Self) -> (r: bool) {
        *self == *other
    }

    fn copy_key(&self) -> (r: Self) {
        self.clone()
    }
}

/// No key occurs twice.
pub open spec fn keys_unique<K, V>(s: Seq<(K, V)>) -> bool {
    forall|i: int, j: int| 0 <= i < s.len() && 0 <= j < s.len() && i != j ==> s[i].0 != s[j].0
}

/// Some entry has key `k`.
pub open spec fn has_key<K, V>(s: Seq<(K, V)>, k: K) -> bool {
    exists|i: int| 0 <= i < s.len() && s[i].0 == k
}

/// The position of the entry with key `k`.
pub open spec fn key_index<K, V>(s: Seq<(K, V)>, k: K) -> int {
    choose|i: int| 0 <= i < s.len() && s[i].0 == k
}

/// The value stored under `k`, if any.
pub open spec fn lookup<K, V>(s: Seq<(K, V)>, k: K) -> Option<V> {
    if has_key(s, k) {
        Some(s[key_index(s, k)].1)
    } else {
        None
    }
}

/// The keys in order.
pub open spec fn key_seq<K, V>(s: Seq<(K, V)>) -> Seq<K> {
    s.map_values(|e: (K, V)| e.0)
}

/// The entries after storing `v` under `k`: in place if `k` is present, else at the end.
pub open spec fn insert_entry<K, V>(s: Seq<(K, V)>, k: K, v: V) -> Seq<(K, V)> {
    if has_key(s, k) {
        s.update(key_index(s, k), (k, v))
    } else {
        s.push((k, v))
    }
}

/// The entries after taking out the one with key `k`, if any.
pub open spec fn remove_entry<K, V>(s: Seq<(K, V)>, k: K) -> Seq<(K, V)> {
    if has_key(s, k) {
        s.remove(key_index(s, k))
    } else {
        s
    }
}

/// Every entry of `s` satisfies `p`.
pub open spec fn all_entries<K, V>(s: Seq<(K, V)>, p: spec_fn(K, V) -> bool) -> bool {
    forall|i: int| 0 <= i < s.len() ==> #[trigger] p(s[i].0, s[i].1)
}

/// The entry at position `i` satisfies what every entry satisfies.
pub proof fn lemma_all_entries_at<K, V>(s: Seq<(K, V)>, p: spec_fn(K, V) -> bool, i: int)
    requires
        all_entries(s, p),
        0 <= i < s.len(),
    ensures
        p(s[i].0, s[i].1),
{
}

/// Storing an entry that satisfies `p` keeps every entry satisfying it.
pub proof fn lemma_all_entries_insert<K, V>(s: Seq<(K, V)>, k: K, v: V, p: spec_fn(K, V) -> bool)
    requires
        all_entries(s, p),
        p(k, v),
    ensures
        all_entries(insert_entry(s, k, v), p),
{
    let t = insert_entry(s, k, v);
    assert forall|i: int| 0 <= i < t.len() implies #[trigger] p(t[i].0, t[i].1) by {
        if i < s.len() && !(has_key(s, k) && i == key_index(s, k)) {
            assert(t[i] == s[i]);
            assert(p(s[i].0, s[i].1));
        }
    }
}

/// Taking an entry out keeps every entry satisfying `p`.
pub proof fn lemma_all_entries_remove<K, V>(s: Seq<(K, V)>, k: K, p: spec_fn(K, V) -> bool)
    requires
        all_entries(s, p),
    ensures
        all_entries(remove_entry(s, k), p),
{
    let t = remove_entry(s, k);
    if has_key(s, k) {
        let j = key_index(s, k);
        assert forall|i: int| 0 <= i < t.len() implies #[trigger] p(t[i].0, t[i].1) by {
            if i < j {
                assert(t[i] == s[i]);
                assert(p(s[i].0, s[i].1));
            } else {
                assert(t[i] == s[i + 1]);
                assert(p(s[i + 1].0, s[i + 1].1));
            }
        }
    }
}

/// Keeping the entries that satisfy `p` keeps exactly the keys whose entry satisfies `p`,
/// each with its value.
pub proof fn lemma_lookup_filter<K, V>(s: Seq<(K, V)>, p: spec_fn((K, V)) -> bool, q: K)
    requires
        keys_unique(s),
    ensures
        has_key(s.filter(p), q) <==> (has_key(s, q) && p(s[key_index(s, q)])),
        lookup(s.filter(p), q) == if has_key(s, q) && p(s[key_index(s, q)]) {
            lookup(s, q)
        } else {
            None
        },
{
    broadcast use vstd::seq_lib::group_filter_ensures;

    let t = s.filter(p);
    if has_key(t, q) {
        let j = key_index(t, q);
        assert(t.contains(t[j]));
        s.lemma_filter_contains_rev(p, t[j]);
        let i = choose|i: int| 0 <= i < s.len() && s[i] == t[j];
        lemma_lookup_at(s, i);
        assert(p(t[j]));
    }
    if has_key(s, q) && p(s[key_index(s, q)]) {
        let i = key_index(s, q);
        s.lemma_filter_contains(p, i);
        let j = choose|j: int| 0 <= j < t.len() && t[j] == s[i];
        assert(t[j].0 == q);
    }
}

/// Keys that are unique are listed without repetition.
pub proof fn lemma_keys_no_duplicates<K, V>(s: Seq<(K, V)>)
    requires
        keys_unique(s),
    ensures
        key_seq(s).no_duplicates(),
{
    assert forall|i: int, j: int|
        0 <= i < key_seq(s).len() && 0 <= j < key_seq(s).len() && i != j implies key_seq(s)[i]
        != key_seq(s)[j] by {
        assert(key_seq(s)[i] == s[i].0);
        assert(key_seq(s)[j] == s[j].0);
    }
}

/// In a table without repeated keys the entry at `i` is the one found for its key.
pub proof fn lemma_lookup_at<K, V>(s: Seq<(K, V)>, i: int)
    requires
        keys_unique(s),
        0 <= i < s.len(),
    ensures
        has_key(s, s[i].0),
        key_index(s, s[i].0) == i,
        lookup(s, s[i].0) === Some(s[i].1),
{
    assert(0 <= i < s.len() && s[i].0 == s[i].0);
}

/// What a lookup reads after an insertion.
pub proof fn lemma_lookup_insert<K, V>(s: Seq<(K, V)>, k: K, v: V, q: K)
    requires
        keys_unique(s),
    ensures
        keys_unique(insert_entry(s, k, v)),
        lookup(insert_entry(s, k, v), q) === if q == k {
            Some(v)
        } else {
            lookup(s, q)
        },
        has_key(insert_entry(s, k, v), q) == (q == k || has_key(s, q)),
{
    let t = insert_entry(s, k, v);
    if has_key(s, k) {
        let i = key_index(s, k);
        assert(keys_unique(t));
        lemma_lookup_at(t, i);
        if q != k {
            if has_key(s, q) {
                let j = key_index(s, q);
                lemma_lookup_at(t, j);
            } else {
                assert(!has_key(t, q)) by {
                    if has_key(t, q) {
                        let j = key_index(t, q);
                        assert(s[j].0 == q);
                    }
                }
            }
        }
    } else {
        assert(keys_unique(t));
        lemma_lookup_at(t, s.len() as int);
        if q != k {
            if has_key(s, q) {
                let j = key_index(s, q);
                lemma_lookup_at(t, j);
            } else {
                assert(!has_key(t, q)) by {
                    if has_key(t, q) {
                        let j = key_index(t, q);
                        assert(s[j].0 == q);
                    }
                }
            }
        }
    }
}

/// What a lookup reads after a removal.
pub proof fn lemma_lookup_remove<K, V>(s: Seq<(K, V)>, k: K, q: K)
    requires
        keys_unique(s),
    ensures
        keys_unique(remove_entry(s, k)),
        lookup(remove_entry(s, k), q) === if q == k {
            None
        } else {
            lookup(s, q)
        },
        has_key(remove_entry(s, k), q) == (q != k && has_key(s, q)),
{
    let t = remove_entry(s, k);
    if has_key(s, k) {
        let i = key_index(s, k);
        assert(keys_unique(t));
        if has_key(t, q) {
            let j = key_index(t, q);
            if j < i {
                assert(t[j] == s[j]);
                lemma_lookup_at(s, j);
            } else {
                assert(t[j] == s[j + 1]);
                lemma_lookup_at(s, j + 1);
            }
            lemma_lookup_at(t, j);
        } else if q != k && has_key(s, q) {
            let j = key_index(s, q);
            if j < i {
                assert(t[j] == s[j]);
            } else {
                assert(t[j - 1] == s[j]);
            }
        }
    }
}

/// The entries with each value taken by its view.
pub open spec fn view_values<K, V: View>(s: Seq<(K, V)>) -> Seq<(K, V::V)> {
    s.map_values(|e: (K, V)| (e.0, e.1@))
}

/// An optional value taken by its view.
pub open spec fn option_view<V: View>(o: Option<V>) -> Option<V::V> {
    match o {
        Some(v) => Some(v@),
        None => None,
    }
}

/// Taking values by their views keeps the keys.
pub proof fn lemma_view_values_keys<K, V: View>(s: Seq<(K, V)>)
    ensures
        forall|q: K| has_key(view_values(s), q) == has_key(s, q),
        keys_unique(s) ==> keys_unique(view_values(s)),
        key_seq(view_values(s)) == key_seq(s),
{
    let t = view_values(s);
    assert forall|q: K| has_key(t, q) == has_key(s, q) by {
        if has_key(s, q) {
            let i = key_index(s, q);
            assert(t[i].0 == q);
        }
        if has_key(t, q) {
            let i = key_index(t, q);
            assert(s[i].0 == q);
        }
    }
    assert(key_seq(t) =~= key_seq(s));
}

/// A lookup in the viewed entries is the view of the lookup.
pub proof fn lemma_view_values_lookup<K, V: View>(s: Seq<(K, V)>, q: K)
    requires
        keys_unique(s),
    ensures
        lookup(view_values(s), q) == option_view(lookup(s, q)),
{
    lemma_view_values_keys(s);
    if has_key(s, q) {
        let i = key_index(s, q);
        lemma_lookup_at(s, i);
        lemma_lookup_at(view_values(s), i);
    }
}

/// Storing a value, then viewing, is viewing, then storing the value's view.
pub proof fn lemma_view_values_insert<K, V: View>(s: Seq<(K, V)>, k: K, v: V)
    requires
        keys_unique(s),
    ensures
        view_values(insert_entry(s, k, v)) == insert_entry(view_values(s), k, v@),
{
    lemma_view_values_keys(s);
    if has_key(s, k) {
        let i = key_index(s, k);
        lemma_lookup_at(s, i);
        lemma_lookup_at(view_values(s), i);
        assert(view_values(insert_entry(s, k, v)) =~= insert_entry(view_values(s), k, v@));
    } else {
        assert(view_values(insert_entry(s, k, v)) =~= insert_entry(view_values(s), k, v@));
    }
}

/// Taking out an entry commutes with viewing the values.
pub proof fn lemma_view_values_remove<K, V: View>(s: Seq<(K, V)>, k: K)
    requires
        keys_unique(s),
    ensures
        view_values(remove_entry(s, k)) == remove_entry(view_values(s), k),
{
    lemma_view_values_keys(s);
    if has_key(s, k) {
        let i = key_index(s, k);
        lemma_lookup_at(s, i);
        lemma_lookup_at(view_values(s), i);
        assert(view_values(remove_entry(s, k)) =~= remove_entry(view_values(s), k));
    }
}

/// Filtering and then mapping is mapping and then filtering by the matching predicate.
pub proof fn lemma_map_filter_commute<A, B>(
    s: Seq<A>,
    f: spec_fn(A) -> B,
    p: spec_fn(A) -> bool,
    q: spec_fn(B) -> bool,
)
    requires
        forall|a: A| #[trigger] p(a) == q(f(a)),
    ensures
        s.filter(p).map_values(f) == s.map_values(f).filter(q),
    decreases s.len(),
{
    reveal(Seq::filter);
    if s.len() > 0 {
        let rest = s.drop_last();
        lemma_map_filter_commute(rest, f, p, q);
        assert(s.map_values(f).drop_last() =~= rest.map_values(f));
        assert(s.map_values(f).last() == f(s.last()));
        if p(s.last()) {
            assert(s.filter(p).map_values(f) =~= rest.filter(p).map_values(f).push(f(s.last())));
        } else {
            assert(s.filter(p).map_values(f) =~= rest.filter(p).map_values(f));
        }
    } else {
        assert(s.filter(p).map_values(f) =~= s.map_values(f).filter(q));
    }
}

/// Entries with distinct keys, in the order they were first stored.
pub struct Table<K: TableKey, V> {
    entries: Vec<(K, V)>,
}

impl<K: TableKey, V> View for Table<K, V> {
    type V = Seq<(K::V, V)>;

    closed spec fn view(&self) -> Seq<(K::V, V)> {
        self.entries@.map_values(|e: (K, V)| (e.0@, e.1))
    }
}

impl<K: TableKey, V> Table<K, V> {
    #[verifier::type_invariant]
    closed spec fn distinct_keys(&self) -> bool {
        keys_unique(self@)
    }

    /// The view never repeats a key.
    pub fn check_keys(&self)
        ensures
            keys_unique(self@),
    {
        proof {
            use_type_invariant(self);
        }
    }

    /// An empty table.
    pub fn new() -> (t: Self)
        ensures
            t@ === Seq::<(K::V, V)>::empty(),
    {
        let t = Table { entries: Vec::new() };
        assert(t@ =~= Seq::<(K::V, V)>::empty());
        t
    }

    /// The number of entries.
    pub fn len(&self) -> (n: usize)
        ensures
            n == self@.len(),
            keys_unique(self@),
    {
        proof {
            use_type_invariant(self);
        }
        self.entries.len()
    }

    /// Whether the table has no entry.
    pub fn is_empty(&self) -> (b: bool)
        ensures
            b == (self@.len() == 0),
            keys_unique(self@),
    {
        self.len() == 0
    }

    /// The position of the entry with the given key.
    pub fn find(&self, key: &K) -> (r: Option<usize>)
        ensures
            keys_unique(self@),
            match r {
                Some(i) => i < self@.len() && self@[i as int].0 == key@ && key_index(self@, key@)
                    == i && has_key(self@, key@),
                None => !has_key(self@, key@),
            },
    {
        proof {
            use_type_invariant(self);
        }
        let n = self.entries.len();
        let mut i: usize = 0;
        while i < n
            invariant
                n == self.entries@.len(),
                n == self@.len(),
                i <= n,
                keys_unique(self@),
                forall|j: int| 0 <= j < i ==> self@[j].0 != key@,
            decreases n - i,
        {
            assert(self@[i as int].0 == self.entries@[i as int].0@);
            if self.entries[i].0.same_key(key) {
                proof {
                    lemma_lookup_at(self@, i as int);
                }
                return Some(i);
            }
            i = i + 1;
        }
        None
    }

    /// Whether some entry has the given key.
    pub fn contains_key(&self, key: &K) -> (b: bool)
        ensures
            b == has_key(self@, key@),
            keys_unique(self@),
    {
        self.find(key).is_some()
    }

    /// The value stored under the given key.
    pub fn get(&self, key: &K) -> (r: Option<&V>)
        ensures
            keys_unique(self@),
            match r {
                Some(v) => lookup(self@, key@) === Some(*v),
                None => lookup(self@, key@).is_none(),
            },
    {
        match self.find(key) {
            Some(i) => {
                proof {
                    lemma_lookup_at(self@, i as int);
                }
                Some(&self.entries[i].1)
            },
            None => None,
        }
    }

    /// The key of the entry at position `i`.
    pub fn key_at(&self, i: usize) -> (r: &K)
        requires
            i < self@.len(),
        ensures
            r@ == self@[i as int].0,
    {
        &self.entries[i].0
    }

    /// The value of the entry at position `i`.
    pub fn value_at(&self, i: usize) -> (r: &V)
        requires
            i < self@.len(),
        ensures
            *r === self@[i as int].1,
    {
        &self.entries[i].1
    }

    /// Stores `value` under `key`, in place of the former value if there was one,
    /// and returns that former value.
    pub fn insert(&mut self, key: K, value: V) -> (prev: Option<V>)
        ensures
            final(self)@ === insert_entry(old(self)@, key@, value),
            prev === lookup(old(self)@, key@),
            keys_unique(final(self)@),
    {
        proof {
            use_type_invariant(&*self);
            lemma_lookup_insert(self@, key@, value, key@);
        }
        let ghost k = key@;
        match self.find(&key) {
            Some(i) => {
                let mut entries = Vec::new();
                std::mem::swap(&mut entries, &mut self.entries);
                let ghost before = entries@;
                proof {
                    lemma_lookup_at(old(self)@, i as int);
                }
                let (_, prev) = entries.remove(i);
                entries.insert(i, (key, value));
                assert(entries@.map_values(|e: (K, V)| (e.0@, e.1)) =~= old(self)@.update(
                    i as int,
                    (k, value),
                ));
                self.entries = entries;
                Some(prev)
            },
            None => {
                let mut entries = Vec::new();
                std::mem::swap(&mut entries, &mut self.entries);
                entries.push((key, value));
                assert(entries@.map_values(|e: (K, V)| (e.0@, e.1)) =~= old(self)@.push(
                    (k, value),
                ));
                self.entries = entries;
                None
            },
        }
    }

    /// Takes out the entry with the given key and returns its value.
    pub fn remove(&mut self, key: &K) -> (prev: Option<V>)
        ensures
            final(self)@ === remove_entry(old(self)@, key@),
            prev === lookup(old(self)@, key@),
            keys_unique(final(self)@),
    {
        proof {
            use_type_invariant(&*self);
            lemma_lookup_remove(self@, key@, key@);
        }
        match self.find(key) {
            Some(i) => {
                proof {
                    lemma_lookup_at(self@, i as int);
                }
                let (_, v) = self.remove_at(i);
                Some(v)
            },
            None => None,
        }
    }

    /// Takes out the entry at position `i`.
    pub fn remove_at(&mut self, i: usize) -> (e: (K, V))
        requires
            i < old(self)@.len(),
        ensures
            final(self)@ === old(self)@.remove(i as int),
            (e.0@, e.1) === old(self)@[i as int],
            keys_unique(final(self)@),
    {
        proof {
            use_type_invariant(&*self);
        }
        let mut entries = Vec::new();
        std::mem::swap(&mut entries, &mut self.entries);
        let e = entries.remove(i);
        assert(entries@.map_values(|e: (K, V)| (e.0@, e.1)) =~= old(self)@.remove(i as int));
        self.entries = entries;
        e
    }

    /// Puts an entry with a new key at position `i`.
    pub fn insert_at(&mut self, i: usize, key: K, value: V)
        requires
            i <= old(self)@.len(),
            !has_key(old(self)@, key@),
        ensures
            final(self)@ === old(self)@.insert(i as int, (key@, value)),
            final(self)@.len() == old(self)@.len() + 1,
            final(self)@[i as int].0 == key@,
            forall|j: int| 0 <= j < i ==> #[trigger] final(self)@[j] === old(self)@[j],
            forall|j: int| i < j < final(self)@.len() ==> #[trigger] final(self)@[j] === old(self)@[j - 1],
            keys_unique(final(self)@),
    {
        proof {
            use_type_invariant(&*self);
        }
        let ghost kv = key@;
        let mut entries = Vec::new();
        std::mem::swap(&mut entries, &mut self.entries);
        entries.insert(i, (key, value));
        let ghost t = entries@.map_values(|e: (K, V)| (e.0@, e.1));
        assert(t =~= old(self)@.insert(i as int, (kv, value)));
        assert forall|x: int, y: int|
            #![trigger t[x], t[y]]
            0 <= x < t.len() && 0 <= y < t.len() && x != y implies t[x].0 != t[y].0 by {
            if x != i && y != i {
                let ox = if x < i { x } else { x - 1 };
                let oy = if y < i { y } else { y - 1 };
                assert(t[x] == old(self)@[ox]);
                assert(t[y] == old(self)@[oy]);
            } else if x == i {
                let oy = if y < i { y } else { y - 1 };
                assert(t[y] == old(self)@[oy]);
            } else {
                let ox = if x < i { x } else { x - 1 };
                assert(t[x] == old(self)@[ox]);
            }
        }
        self.entries = entries;
    }

    /// Takes out the entry at position `i` and keeps a note that its key is no longer present.
    pub fn take_at(&mut self, i: usize) -> (e: (K, V))
        requires
            i < old(self)@.len(),
        ensures
            final(self)@ === old(self)@.remove(i as int),
            final(self)@.len() == old(self)@.len() - 1,
            forall|j: int| 0 <= j < i ==> #[trigger] final(self)@[j] === old(self)@[j],
            forall|j: int| i <= j < final(self)@.len() ==> #[trigger] final(self)@[j] === old(self)@[j + 1],
            (e.0@, e.1) === old(self)@[i as int],
            keys_unique(final(self)@),
            !has_key(final(self)@, e.0@),
    {
        proof {
            use_type_invariant(&*self);
        }
        let ghost before = self@;
        let e = self.remove_at(i);
        proof {
            if has_key(self@, e.0@) {
                let j = key_index(self@, e.0@);
                if j < i {
                    assert(self@[j] == before[j]);
                } else {
                    assert(self@[j] == before[j + 1]);
                }
            }
        }
        e
    }

    /// Replaces the value of the entry at position `i` and returns the former one.
    pub fn set_value_at(&mut self, i: usize, value: V) -> (prev: V)
        requires
            i < old(self)@.len(),
        ensures
            final(self)@ === old(self)@.update(i as int, (old(self)@[i as int].0, value)),
            prev === old(self)@[i as int].1,
            keys_unique(final(self)@),
    {
        proof {
            use_type_invariant(&*self);
        }
        let mut entries = Vec::new();
        std::mem::swap(&mut entries, &mut self.entries);
        let (k, prev) = entries.remove(i);
        let ghost kv = k@;
        entries.insert(i, (k, value));
        assert(entries@.map_values(|e: (K, V)| (e.0@, e.1)) =~= old(self)@.update(
            i as int,
            (kv, value),
        ));
        self.entries = entries;
        prev
    }

    /// The keys in order.
    pub fn keys(&self) -> (r: Vec<K>)
        ensures
            r@.map_values(|k: K| k@) == key_seq(self@),
            keys_unique(self@),
    {
        proof {
            use_type_invariant(self);
        }
        let mut r: Vec<K> = Vec::new();
        let n = self.entries.len();
        let mut i: usize = 0;
        while i < n
            invariant
                n == self@.len(),
                n == self.entries@.len(),
                i <= n,
                r@.len() == i,
                forall|j: int| 0 <= j < i ==> r@[j]@ == self@[j].0,
            decreases n - i,
        {
            r.push(self.entries[i].0.copy_key());
            i = i + 1;
        }
        assert(r@.map_values(|k: K| k@) =~= key_seq(self@));
        r
    }

    /// Keeps the entries for which `keep` holds, in their order, and drops the others.
    pub fn retain<F: Fn(&K, &V) -> bool>(
        &mut self,
        keep: F,
        Ghost(pred): Ghost<spec_fn(K::V, V) -> bool>,
    )
        requires
            forall|k: &K, v: &V| #[trigger] keep.requires((k, v)),
            forall|k: &K, v: &V, b: bool| #[trigger] keep.ensures((k, v), b) ==> b == pred(k@, *v),
        ensures
            final(self)@ === old(self)@.filter(|e: (K::V, V)| pred(e.0, e.1)),
            keys_unique(final(self)@),
    {
        proof {
            use_type_invariant(&*self);
        }
        let ghost orig = self@;
        let ghost p = |e: (K::V, V)| pred(e.0, e.1);
        let mut rest: Vec<(K, V)> = Vec::new();
        std::mem::swap(&mut rest, &mut self.entries);
        let mut kept: Vec<(K, V)> = Vec::new();
        let n = rest.len();
        let mut i: usize = 0;
        assert(kept@.map_values(|e: (K, V)| (e.0@, e.1)) =~= orig.take(0).filter(p)) by {
            reveal(Seq::filter);
        }
        while i < n
            invariant
                n == orig.len(),
                i <= n,
                rest@.len() == n - i,
                forall|j: int| 0 <= j < n - i ==> (#[trigger] rest@[j].0@, rest@[j].1) == orig[i + j],
                kept@.map_values(|e: (K, V)| (e.0@, e.1)) == orig.take(i as int).filter(p),
                keys_unique(kept@.map_values(|e: (K, V)| (e.0@, e.1))),
                forall|j: int|
                    0 <= j < kept@.len() ==> exists|t: int|
                        0 <= t < i && #[trigger] kept@[j].0@ == orig[t].0,
                keys_unique(orig),
                p == (|e: (K::V, V)| pred(e.0, e.1)),
                forall|k: &K, v: &V| #[trigger] keep.requires((k, v)),
                forall|k: &K, v: &V, b: bool|
                    #[trigger] keep.ensures((k, v), b) ==> b == pred(k@, *v),
            decreases n - i,
        {
            assert((rest@[0].0@, rest@[0].1) == orig[i as int]);
            let e = rest.remove(0);
            let b = keep(&e.0, &e.1);
            let ghost before = kept@.map_values(|e: (K, V)| (e.0@, e.1));
            let ghost ev = (e.0@, e.1);
            if b {
                kept.push(e);
                proof {
                    let ghost after = kept@.map_values(|e: (K, V)| (e.0@, e.1));
                    assert(after =~= before.push(ev));
                    assert forall|x: int, y: int|
                        #![trigger after[x], after[y]]
                        0 <= x < after.len() && 0 <= y < after.len() && x != y implies
                        after[x].0 != after[y].0 by {
                        if x < kept@.len() - 1 && y < kept@.len() - 1 {
                            assert(before[x].0 != before[y].0);
                        } else if x == kept@.len() - 1 {
                            assert(kept@[y].0@ == before[y].0);
                            let t = choose|t: int| 0 <= t < i && kept@[y].0@ == orig[t].0;
                            assert(orig[t].0 != orig[i as int].0);
                        } else {
                            assert(kept@[x].0@ == before[x].0);
                            let t = choose|t: int| 0 <= t < i && kept@[x].0@ == orig[t].0;
                            assert(orig[t].0 != orig[i as int].0);
                        }
                    }
                    assert forall|j: int| 0 <= j < kept@.len() implies exists|t: int|
                        0 <= t < i + 1 && #[trigger] kept@[j].0@ == orig[t].0 by {
                        if j < kept@.len() - 1 {
                            assert(kept@[j].0@ == before[j].0);
                            let t = choose|t: int| 0 <= t < i && before[j].0 == orig[t].0;
                            assert(0 <= t < i + 1 && kept@[j].0@ == orig[t].0);
                        } else {
                            assert(0 <= i < i + 1 && kept@[j].0@ == orig[i as int].0);
                        }
                    }
                }
            }
            proof {
                reveal(Seq::filter);
                assert(orig.take(i + 1).drop_last() =~= orig.take(i as int));
                assert(orig.take(i + 1).last() == orig[i as int]);
                assert forall|j: int| 0 <= j < n - (i + 1) implies (#[trigger] rest@[j].0@, rest@[j].1)
                    == orig[i + 1 + j] by {
                }
            }
            i = i + 1;
        }
        assert(orig.take(n as int) =~= orig);
        self.entries = kept;
    }
}

impl<K: TableKey, V: Copy> Table<K, V> {
    /// A copy of the table.
    pub fn duplicate(&self) -> (r: Self)
        ensures
            r@ == self@,
    {
        proof {
            use_type_invariant(self);
        }
        let mut entries: Vec<(K, V)> = Vec::new();
        let n = self.entries.len();
        let mut i: usize = 0;
        while i < n
            invariant
                n == self.entries@.len(),
                n == self@.len(),
                i <= n,
                entries@.len() == i,
                forall|j: int|
                    0 <= j < i ==> (#[trigger] entries@[j].0@, entries@[j].1) == self@[j],
            decreases n - i,
        {
            let k = self.entries[i].0.copy_key();
            let v = self.entries[i].1;
            entries.push((k, v));
            i = i + 1;
        }
        assert(entries@.map_values(|e: (K, V)| (e.0@, e.1)) =~= self@);
        Table { entries }
    }
}

} // verus!
