use vstd::prelude::*;

verus! {

/// Lexicographic order on texts, by Unicode scalar value (the order of
/// their UTF-8 bytes).
pub open spec fn key_lt(a: Seq<char>, b: Seq<char>) -> bool
    decreases a.len(),
{
    if a.len() == 0 {
        b.len() > 0
    } else if b.len() == 0 {
        false
    } else if a[0] != b[0] {
        (a[0] as int) < (b[0] as int)
    } else {
        key_lt(a.drop_first(), b.drop_first())
    }
}

/// No text comes before itself.
pub proof fn lemma_key_lt_irreflexive(a: Seq<char>)
    ensures
        !key_lt(a, a),
    decreases a.len(),
{
    if a.len() > 0 {
        lemma_key_lt_irreflexive(a.drop_first());
    }
}

/// The order of texts is transitive.
pub proof fn lemma_key_lt_transitive(a: Seq<char>, b: Seq<char>, c: Seq<char>)
    requires
        key_lt(a, b),
        key_lt(b, c),
    ensures
        key_lt(a, c),
    decreases a.len(),
{
    if a.len() > 0 && b.len() > 0 && c.len() > 0 {
        if a[0] == b[0] && b[0] == c[0] {
            lemma_key_lt_transitive(a.drop_first(), b.drop_first(), c.drop_first());
        }
    }
}

/// Of two different texts, one comes before the other.
pub proof fn lemma_key_lt_total(a: Seq<char>, b: Seq<char>)
    ensures
        a == b || key_lt(a, b) || key_lt(b, a),
    decreases a.len(),
{
    if a.len() > 0 && b.len() > 0 && a[0] == b[0] {
        lemma_key_lt_total(a.drop_first(), b.drop_first());
        if a.drop_first() == b.drop_first() {
            assert(a =~= seq![a[0]] + a.drop_first());
            assert(b =~= seq![b[0]] + b.drop_first());
        }
    } else if a.len() == 0 && b.len() == 0 {
        assert(a =~= b);
    }
}

/// Skipping a common prefix keeps the order of two texts.
proof fn lemma_key_lt_skip(a: Seq<char>, b: Seq<char>, i: int)
    requires
        0 <= i <= a.len(),
        i <= b.len(),
        a.take(i) == b.take(i),
    ensures
        key_lt(a, b) == key_lt(a.skip(i), b.skip(i)),
    decreases i,
{
    if i > 0 {
        assert(a[0] == a.take(i)[0]);
        assert(b[0] == b.take(i)[0]);
        assert(a.drop_first().take(i - 1) =~= a.take(i).drop_first());
        assert(b.drop_first().take(i - 1) =~= b.take(i).drop_first());
        lemma_key_lt_skip(a.drop_first(), b.drop_first(), i - 1);
        assert(a.drop_first().skip(i - 1) =~= a.skip(i));
        assert(b.drop_first().skip(i - 1) =~= b.skip(i));
    } else {
        assert(a.skip(0) =~= a);
        assert(b.skip(0) =~= b);
    }
}

/// Three-way comparison of two texts: negative, zero or positive as `a`
/// comes before, equals or comes after `b`.
pub fn compare_keys(a: &str, b: &str) -> (r: i8)
    ensures
        r < 0 <==> key_lt(a@, b@),
        r == 0 <==> a@ == b@,
        r > 0 <==> key_lt(b@, a@),
{
    let alen = a.unicode_len();
    let blen = b.unicode_len();
    let mut i: usize = 0;
    while i < alen && i < blen
        invariant
            alen == a@.len(),
            blen == b@.len(),
            i <= alen,
            i <= blen,
            a@.take(i as int) == b@.take(i as int),
        decreases alen - i,
    {
        let ca = a.get_char(i);
        let cb = b.get_char(i);
        if ca != cb {
            proof {
                lemma_key_lt_skip(a@, b@, i as int);
                lemma_key_lt_skip(b@, a@, i as int);
                assert(a@.skip(i as int)[0] == ca);
                assert(b@.skip(i as int)[0] == cb);
                if a@ == b@ {
                    assert(a@[i as int] == b@[i as int]);
                }
            }
            if (ca as u32) < (cb as u32) {
                return -1;
            } else {
                return 1;
            }
        }
        assert(a@.take(i + 1) =~= a@.take(i as int).push(ca));
        assert(b@.take(i + 1) =~= b@.take(i as int).push(cb));
        i = i + 1;
    }
    proof {
        lemma_key_lt_skip(a@, b@, i as int);
        lemma_key_lt_skip(b@, a@, i as int);
        if alen == blen {
            assert(a@ =~= a@.take(i as int));
            assert(b@ =~= b@.take(i as int));
        } else if i == alen {
            assert(a@.skip(i as int).len() == 0);
            assert(b@.skip(i as int).len() > 0);
            assert(a@ != b@);
        } else {
            assert(b@.skip(i as int).len() == 0);
            assert(a@.skip(i as int).len() > 0);
            assert(a@ != b@);
        }
    }
    if alen < blen {
        -1
    } else if alen == blen {
        0
    } else {
        1
    }
}

/// A map from texts to values whose entries are kept in increasing key
/// order, so that walking it visits the keys in that order.
#[derive(Debug)]
pub struct KeyedMap<V> {
    entries: Vec<(String, V)>,
}

impl<V> KeyedMap<V> {
    /// The keys, in the order they are stored.
    pub closed spec fn keys(&self) -> Seq<Seq<char>> {
        Seq::new(self.entries@.len(), |i: int| self.entries@[i].0@)
    }

    /// The values, in the order of their keys.
    pub closed spec fn values(&self) -> Seq<V> {
        Seq::new(self.entries@.len(), |i: int| self.entries@[i].1)
    }

    /// Keys strictly increase, so no key occurs twice.
    pub closed spec fn wf(&self) -> bool {
        forall|i: int, j: int|
            0 <= i < j < self.keys().len() ==> key_lt(#[trigger] self.keys()[i], #[trigger] self.keys()[j])
    }

    /// A position holding key `k`, where there is one.
    pub closed spec fn key_index(&self, k: Seq<char>) -> int {
        choose|i: int| 0 <= i < self.keys().len() && self.keys()[i] == k
    }

    /// The map that the entries stand for.
    pub closed spec fn view(&self) -> Map<Seq<char>, V> {
        Map::new(
            |k: Seq<char>| self.keys().contains(k),
            |k: Seq<char>| self.values()[self.key_index(k)],
        )
    }

    /// There are as many values as keys.
    pub proof fn lemma_sizes(&self)
        ensures
            self.keys().len() == self.values().len(),
    {
    }

    /// In a well-formed map, position `i` holds the value of key `keys()[i]`.
    pub proof fn lemma_view_at(&self, i: int)
        requires
            self.wf(),
            0 <= i < self.keys().len(),
        ensures
            self@.contains_key(self.keys()[i]),
            self@[self.keys()[i]] == self.values()[i],
    {
        let k = self.keys()[i];
        assert(self.keys().contains(k));
        let j = self.key_index(k);
        assert(self@[k] == self.values()[j]);
        if j < i {
            assert(key_lt(self.keys()[j], self.keys()[i]));
            lemma_key_lt_irreflexive(k);
        } else if i < j {
            assert(key_lt(self.keys()[i], self.keys()[j]));
            lemma_key_lt_irreflexive(k);
        }
        assert(j == i);
    }

    /// Every key of the map sits at some position.
    pub proof fn lemma_view_keys(&self)
        requires
            self.wf(),
        ensures
            forall|k: Seq<char>| #[trigger] self@.contains_key(k) <==> self.keys().contains(k),
            self@.dom().finite(),
            self@.dom().len() == self.keys().len(),
    {
        self.lemma_keys_distinct();
        assert(self@.dom() =~= self.keys().to_set());
        self.keys().unique_seq_to_set();
    }

    proof fn lemma_keys_distinct(&self)
        requires
            self.wf(),
        ensures
            self.keys().no_duplicates(),
    {
        assert forall|i: int, j: int|
            0 <= i < self.keys().len() && 0 <= j < self.keys().len() && i != j implies self.keys()[i]
            != self.keys()[j] by {
            if i < j {
                assert(key_lt(self.keys()[i], self.keys()[j]));
            } else {
                assert(key_lt(self.keys()[j], self.keys()[i]));
            }
            lemma_key_lt_irreflexive(self.keys()[i]);
        }
    }

    /// An empty map.
    pub fn new() -> (r: Self)
        ensures
            r.wf(),
            r@ == Map::<Seq<char>, V>::empty(),
            r.keys().len() == 0,
    {
        let r = KeyedMap { entries: Vec::new() };
        assert(r@ =~= Map::<Seq<char>, V>::empty());
        r
    }

    /// Number of entries.
    pub fn len(&self) -> (r: usize)
        ensures
            r == self.keys().len(),
    {
        self.entries.len()
    }

    /// Key stored at position `i`.
    pub fn key_at(&self, i: usize) -> (r: &String)
        requires
            i < self.keys().len(),
        ensures
            r@ == self.keys()[i as int],
    {
        &self.entries[i].0
    }

    /// Value stored at position `i`.
    pub fn value_at(&self, i: usize) -> (r: &V)
        requires
            i < self.keys().len(),
        ensures
            *r == self.values()[i as int],
    {
        &self.entries[i].1
    }

    /// First position whose key is not below `key`, and whether it holds `key`.
    fn position(&self, key: &str) -> (r: (usize, bool))
        requires
            self.wf(),
        ensures
            r.0 <= self.keys().len(),
            forall|j: int| 0 <= j < r.0 ==> key_lt(#[trigger] self.keys()[j], key@),
            r.1 ==> r.0 < self.keys().len() && self.keys()[r.0 as int] == key@,
            !r.1 ==> forall|j: int|
                r.0 <= j < self.keys().len() ==> key_lt(key@, #[trigger] self.keys()[j]),
    {
        let n = self.entries.len();
        let mut i: usize = 0;
        while i < n
            invariant
                self.wf(),
                n == self.keys().len(),
                i <= n,
                forall|j: int| 0 <= j < i ==> key_lt(#[trigger] self.keys()[j], key@),
            decreases n - i,
        {
            let c = compare_keys(self.entries[i].0.as_str(), key);
            assert(self.keys()[i as int] == self.entries@[i as int].0@);
            if c == 0 {
                return (i, true);
            }
            if c > 0 {
                proof {
                    assert forall|j: int| i <= j < n implies key_lt(key@, #[trigger] self.keys()[j]) by {
                        if j > i {
                            assert(key_lt(self.keys()[i as int], self.keys()[j]));
                            lemma_key_lt_transitive(key@, self.keys()[i as int], self.keys()[j]);
                        }
                    }
                }
                return (i, false);
            }
            i = i + 1;
        }
        (i, false)
    }

    /// Whether `key` has an entry.
    pub fn contains_key(&self, key: &str) -> (r: bool)
        requires
            self.wf(),
        ensures
            r == self@.contains_key(key@),
    {
        let (i, found) = self.position(key);
        proof {
            self.lemma_view_keys();
            if !found && self.keys().contains(key@) {
                let j = choose|j: int| 0 <= j < self.keys().len() && self.keys()[j] == key@;
                if j < i {
                    lemma_key_lt_irreflexive(key@);
                } else {
                    lemma_key_lt_irreflexive(key@);
                }
            }
            if found {
                assert(self.keys().contains(self.keys()[i as int]));
            }
        }
        found
    }

    /// The value of `key`, if it has an entry.
    pub fn get(&self, key: &str) -> (r: Option<&V>)
        requires
            self.wf(),
        ensures
            r matches Some(v) ==> self@.contains_key(key@) && *v == self@[key@],
            r is None ==> !self@.contains_key(key@),
    {
        let (i, found) = self.position(key);
        proof {
            self.lemma_view_keys();
            if found {
                self.lemma_view_at(i as int);
            } else if self.keys().contains(key@) {
                let j = choose|j: int| 0 <= j < self.keys().len() && self.keys()[j] == key@;
                lemma_key_lt_irreflexive(key@);
            }
        }
        if found {
            Some(&self.entries[i].1)
        } else {
            None
        }
    }

    /// Sets the value of `key`, adding the key if it had no entry.
    pub fn insert(&mut self, key: String, value: V)
        requires
            old(self).wf(),
        ensures
            final(self).wf(),
            final(self)@ == old(self)@.insert(key@, value),
    {
        let (i, found) = self.position(key.as_str());
        let ghost old_keys = self.keys();
        let ghost old_values = self.values();
        let ghost k = key@;
        if found {
            self.entries.set(i, (key, value));
            proof {
                assert(self.keys() =~= old_keys);
                assert(self.values() =~= old_values.update(i as int, value));
                assert(self.wf());
                assert forall|kk: Seq<char>| #[trigger] self@.contains_key(kk) <==> old(self)@.insert(
                    k,
                    value,
                ).contains_key(kk) by {
                    old(self).lemma_view_keys();
                    self.lemma_view_keys();
                }
                assert forall|kk: Seq<char>| #[trigger] self@.contains_key(kk) implies self@[kk]
                    == old(self)@.insert(k, value)[kk] by {
                    self.lemma_view_keys();
                    old(self).lemma_view_keys();
                    let j = choose|j: int| 0 <= j < self.keys().len() && self.keys()[j] == kk;
                    self.lemma_view_at(j);
                    if j != i {
                        if j < i {
                            assert(key_lt(self.keys()[j], self.keys()[i as int]));
                        } else {
                            assert(key_lt(self.keys()[i as int], self.keys()[j]));
                        }
                        lemma_key_lt_irreflexive(kk);
                        old(self).lemma_view_at(j);
                    }
                }
                assert(self@ =~= old(self)@.insert(k, value));
            }
        } else {
            self.entries.insert(i, (key, value));
            proof {
                assert(self.keys() =~= old_keys.insert(i as int, k));
                assert(self.values() =~= old_values.insert(i as int, value));
                assert forall|a: int, b: int|
                    0 <= a < b < self.keys().len() implies key_lt(
                    #[trigger] self.keys()[a],
                    #[trigger] self.keys()[b],
                ) by {
                    if b < i {
                        assert(key_lt(old_keys[a], old_keys[b]));
                    } else if a < i && b == i {
                        assert(key_lt(old_keys[a], k));
                    } else if a < i {
                        assert(key_lt(old_keys[a], k));
                        assert(key_lt(k, old_keys[b - 1]));
                        lemma_key_lt_transitive(old_keys[a], k, old_keys[b - 1]);
                    } else if a == i {
                        assert(key_lt(k, old_keys[b - 1]));
                    } else {
                        assert(key_lt(old_keys[a - 1], old_keys[b - 1]));
                    }
                }
                assert forall|kk: Seq<char>| #[trigger] self@.contains_key(kk) <==> old(self)@.insert(
                    k,
                    value,
                ).contains_key(kk) by {
                    old(self).lemma_view_keys();
                    self.lemma_view_keys();
                    if old_keys.contains(kk) {
                        let j = choose|j: int| 0 <= j < old_keys.len() && old_keys[j] == kk;
                        if j < i {
                            assert(self.keys()[j] == kk);
                        } else {
                            assert(self.keys()[j + 1] == kk);
                        }
                    }
                    if self.keys().contains(kk) && kk != k {
                        let j = choose|j: int| 0 <= j < self.keys().len() && self.keys()[j] == kk;
                        if j < i {
                            assert(old_keys[j] == kk);
                        } else {
                            assert(old_keys[j - 1] == kk);
                        }
                    }
                    assert(self.keys()[i as int] == k);
                }
                assert forall|kk: Seq<char>| #[trigger] self@.contains_key(kk) implies self@[kk]
                    == old(self)@.insert(k, value)[kk] by {
                    self.lemma_view_keys();
                    old(self).lemma_view_keys();
                    let j = choose|j: int| 0 <= j < self.keys().len() && self.keys()[j] == kk;
                    self.lemma_view_at(j);
                    if j != i {
                        if j < i {
                            assert(key_lt(self.keys()[j], self.keys()[i as int]));
                        } else {
                            assert(key_lt(self.keys()[i as int], self.keys()[j]));
                        }
                        lemma_key_lt_irreflexive(kk);
                    }
                    if j < i {
                        old(self).lemma_view_at(j);
                    } else if j > i {
                        old(self).lemma_view_at(j - 1);
                    }
                }
                assert(self@ =~= old(self)@.insert(k, value));
            }
        }
    }

    /// Removes the entry of `key`, returning its value if it had one.
    pub fn remove(&mut self, key: &str) -> (r: Option<V>)
        requires
            old(self).wf(),
        ensures
            final(self).wf(),
            final(self)@ == old(self)@.remove(key@),
            r matches Some(v) ==> old(self)@.contains_key(key@) && v == old(self)@[key@],
            r is None ==> !old(self)@.contains_key(key@),
    {
        let (i, found) = self.position(key);
        let ghost old_keys = self.keys();
        let ghost old_values = self.values();
        let ghost k = key@;
        proof {
            old(self).lemma_view_keys();
        }
        if !found {
            proof {
                if old_keys.contains(k) {
                    let j = choose|j: int| 0 <= j < old_keys.len() && old_keys[j] == k;
                    lemma_key_lt_irreflexive(k);
                }
                assert(self@ =~= old(self)@.remove(k));
            }
            return None;
        }
        proof {
            old(self).lemma_view_at(i as int);
        }
        let (_, v) = self.entries.remove(i);
        proof {
            assert(self.keys() =~= old_keys.remove(i as int));
            assert(self.values() =~= old_values.remove(i as int));
            assert forall|a: int, b: int|
                0 <= a < b < self.keys().len() implies key_lt(
                #[trigger] self.keys()[a],
                #[trigger] self.keys()[b],
            ) by {
                if b < i {
                    assert(key_lt(old_keys[a], old_keys[b]));
                } else if a < i {
                    assert(key_lt(old_keys[a], old_keys[b + 1]));
                } else {
                    assert(key_lt(old_keys[a + 1], old_keys[b + 1]));
                }
            }
            assert forall|kk: Seq<char>| #[trigger] self@.contains_key(kk) <==> old(self)@.remove(
                k,
            ).contains_key(kk) by {
                self.lemma_view_keys();
                if old_keys.contains(kk) && kk != k {
                    let j = choose|j: int| 0 <= j < old_keys.len() && old_keys[j] == kk;
                    if j < i {
                        assert(self.keys()[j] == kk);
                    } else {
                        assert(self.keys()[j - 1] == kk);
                    }
                }
                if self.keys().contains(kk) {
                    let j = choose|j: int| 0 <= j < self.keys().len() && self.keys()[j] == kk;
                    if j < i {
                        assert(old_keys[j] == kk);
                        assert(key_lt(old_keys[j], k));
                    } else {
                        assert(old_keys[j + 1] == kk);
                        assert(key_lt(k, old_keys[j + 1]));
                    }
                    lemma_key_lt_irreflexive(k);
                }
            }
            assert forall|kk: Seq<char>| #[trigger] self@.contains_key(kk) implies self@[kk] == old(
                self,
            )@.remove(k)[kk] by {
                self.lemma_view_keys();
                let j = choose|j: int| 0 <= j < self.keys().len() && self.keys()[j] == kk;
                self.lemma_view_at(j);
                if j < i {
                    old(self).lemma_view_at(j);
                } else {
                    old(self).lemma_view_at(j + 1);
                }
            }
            assert(self@ =~= old(self)@.remove(k));
        }
        Some(v)
    }

    /// A copy of the map whose values are clones of these values.
    pub fn duplicate(&self) -> (r: Self)
        where V: Clone,
        requires
            self.wf(),
        ensures
            r.wf(),
            r.keys() == self.keys(),
            r.values().len() == self.values().len(),
            forall|i: int|
                0 <= i < self.values().len() ==> cloned::<V>(
                    #[trigger] self.values()[i],
                    r.values()[i],
                ),
    {
        let mut entries: Vec<(String, V)> = Vec::new();
        let n = self.entries.len();
        let mut i: usize = 0;
        while i < n
            invariant
                n == self.entries@.len(),
                i <= n,
                entries@.len() == i,
                forall|j: int| 0 <= j < i ==> (#[trigger] entries@[j]).0@ == self.entries@[j].0@,
                forall|j: int|
                    0 <= j < i ==> cloned::<V>(self.entries@[j].1, #[trigger] entries@[j].1),
            decreases n - i,
        {
            let key = self.entries[i].0.clone();
            let value = self.entries[i].1.clone();
            entries.push((key, value));
            i = i + 1;
        }
        let r = KeyedMap { entries };
        assert(r.keys() =~= self.keys());
        r
    }

    /// Replaces the value at position `i`, keeping its key.
    pub fn set_value_at(&mut self, i: usize, value: V)
        requires
            old(self).wf(),
            i < old(self).keys().len(),
        ensures
            final(self).wf(),
            final(self).keys() == old(self).keys(),
            final(self).values() == old(self).values().update(i as int, value),
            final(self)@ == old(self)@.insert(old(self).keys()[i as int], value),
    {
        let key = self.entries[i].0.clone();
        let ghost old_keys = self.keys();
        let ghost old_values = self.values();
        let ghost k = old_keys[i as int];
        self.entries.set(i, (key, value));
        proof {
            assert(self.keys() =~= old_keys);
            assert(self.values() =~= old_values.update(i as int, value));
            assert(self.wf());
            old(self).lemma_view_keys();
            self.lemma_view_keys();
            assert forall|kk: Seq<char>| #[trigger] self@.contains_key(kk) <==> old(self)@.insert(
                k,
                value,
            ).contains_key(kk) by {
                assert(old_keys[i as int] == k);
            }
            assert forall|kk: Seq<char>| #[trigger] self@.contains_key(kk) implies self@[kk] == old(
                self,
            )@.insert(k, value)[kk] by {
                let j = choose|j: int| 0 <= j < self.keys().len() && self.keys()[j] == kk;
                self.lemma_view_at(j);
                if j != i {
                    if j < i {
                        assert(key_lt(self.keys()[j], self.keys()[i as int]));
                    } else {
                        assert(key_lt(self.keys()[i as int], self.keys()[j]));
                    }
                    lemma_key_lt_irreflexive(kk);
                    old(self).lemma_view_at(j);
                }
            }
            assert(self@ =~= old(self)@.insert(k, value));
        }
    }

    /// Maps with the same entries stand for the same map.
    pub proof fn lemma_same_entries(a: &Self, b: &Self)
        requires
            a.keys() == b.keys(),
            a.values() == b.values(),
        ensures
            a@ == b@,
    {
        assert forall|k: Seq<char>| a.key_index(k) == b.key_index(k) by {}
        assert(a@ =~= b@);
    }
}

} // verus!
