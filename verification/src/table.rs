//! A small association table keyed by strings.

use vstd::prelude::*;

verus! {

/// A finite map from strings to values, kept as a list of pairs in which no key
/// occurs twice. Entries can be visited by index.
#[derive(Debug)]
pub struct StringMap<V> {
    entries: Vec<(String, V)>,
}

/// No two pairs of the list share a key.
pub open spec fn distinct_keys<V>(pairs: Seq<(String, V)>) -> bool {
    forall|i: int, j: int|
        0 <= i < j < pairs.len() ==> #[trigger] pairs[i].0@ != #[trigger] pairs[j].0@
}

/// The list holds a pair with the key `k`.
pub open spec fn has_key<V>(pairs: Seq<(String, V)>, k: Seq<char>) -> bool {
    exists|i: int| 0 <= i < pairs.len() && #[trigger] pairs[i].0@ == k
}

/// The map that a list of pairs with distinct keys stands for.
pub open spec fn pairs_map<V: View>(pairs: Seq<(String, V)>) -> Map<Seq<char>, V::V> {
    Map::new(
        |k: Seq<char>| has_key(pairs, k),
        |k: Seq<char>|
            {
                let i = choose|i: int| 0 <= i < pairs.len() && #[trigger] pairs[i].0@ == k;
                pairs[i].1@
            },
    )
}

/// Every pair of a list with distinct keys is an entry of its map.
proof fn lemma_pair_in_map<V: View>(pairs: Seq<(String, V)>, i: int)
    requires
        distinct_keys(pairs),
        0 <= i < pairs.len(),
    ensures
        pairs_map(pairs).contains_key(pairs[i].0@),
        pairs_map(pairs)[pairs[i].0@] == pairs[i].1@,
{
    let k = pairs[i].0@;
    assert(has_key(pairs, k));
    let j = choose|j: int| 0 <= j < pairs.len() && #[trigger] pairs[j].0@ == k;
    if i < j {
        assert(pairs[i].0@ != pairs[j].0@);
    } else if j < i {
        assert(pairs[j].0@ != pairs[i].0@);
    }
}

impl<V: View> View for StringMap<V> {
    type V = Map<Seq<char>, V::V>;

    closed spec fn view(&self) -> Map<Seq<char>, V::V> {
        pairs_map(self.entries@)
    }
}

impl<V> StringMap<V> {
    #[verifier::type_invariant]
    spec fn inv(self) -> bool {
        distinct_keys(self.entries@)
    }
}

impl<V: View> StringMap<V> {
    /// The pairs in the order in which they are visited.
    pub closed spec fn pairs(self) -> Seq<(String, V)> {
        self.entries@
    }

    /// The table without entries.
    pub fn new() -> (result: Self)
        ensures
            result@ == Map::<Seq<char>, V::V>::empty(),
            result.pairs().len() == 0,
    {
        let result: StringMap<V> = StringMap { entries: Vec::new() };
        assert(result@ =~= Map::<Seq<char>, V::V>::empty());
        result
    }

    /// The table of a list of pairs with distinct keys.
    pub fn from_pairs(pairs: Vec<(String, V)>) -> (result: Self)
        requires
            distinct_keys(pairs@),
        ensures
            result@ == pairs_map(pairs@),
            result.pairs() == pairs@,
    {
        StringMap { entries: pairs }
    }

    /// The number of entries. The entries are exactly the visited pairs.
    pub fn len(&self) -> (result: usize)
        ensures
            result == self.pairs().len(),
            distinct_keys(self.pairs()),
            self@ == pairs_map(self.pairs()),
            forall|i: int|
                0 <= i < self.pairs().len() ==> self@.contains_key(#[trigger] self.pairs()[i].0@)
                    && self@[self.pairs()[i].0@] == self.pairs()[i].1@,
    {
        proof {
            use_type_invariant(self);
            assert forall|i: int| 0 <= i < self.pairs().len() implies self@.contains_key(
                #[trigger] self.pairs()[i].0@,
            ) && self@[self.pairs()[i].0@] == self.pairs()[i].1@ by {
                lemma_pair_in_map(self.entries@, i);
            }
        }
        self.entries.len()
    }

    /// Whether there is no entry.
    pub fn is_empty(&self) -> (result: bool)
        ensures
            result == (self@ == Map::<Seq<char>, V::V>::empty()),
    {
        proof {
            if self.entries@.len() == 0 {
                assert(self@ =~= Map::<Seq<char>, V::V>::empty());
            } else {
                assert(has_key(self.entries@, self.entries@[0].0@));
                assert(self@.contains_key(self.entries@[0].0@));
            }
        }
        self.entries.len() == 0
    }

    /// The pair at index `i`.
    pub fn entry(&self, i: usize) -> (result: (&String, &V))
        requires
            i < self.pairs().len(),
        ensures
            *result.0 == self.pairs()[i as int].0,
            *result.1 == self.pairs()[i as int].1,
            self@.contains_key(result.0@),
            self@[result.0@] == result.1@,
    {
        proof {
            use_type_invariant(self);
            lemma_pair_in_map(self.entries@, i as int);
        }
        let pair = &self.entries[i];
        (&pair.0, &pair.1)
    }

    /// The index of the pair with the key `k`.
    fn position(&self, k: &String) -> (result: Option<usize>)
        ensures
            match result {
                Some(i) => i < self.entries@.len() && self.entries@[i as int].0@ == k@,
                None => !has_key(self.entries@, k@),
            },
    {
        let mut i: usize = 0;
        while i < self.entries.len()
            invariant
                i <= self.entries@.len(),
                forall|j: int| 0 <= j < i ==> #[trigger] self.entries@[j].0@ != k@,
            decreases self.entries@.len() - i,
        {
            if self.entries[i].0 == *k {
                return Some(i);
            }
            i = i + 1;
        }
        None
    }

    /// The value under the key `k`.
    pub fn get(&self, k: &String) -> (result: Option<&V>)
        ensures
            match result {
                Some(v) => self@.contains_key(k@) && v@ == self@[k@],
                None => !self@.contains_key(k@),
            },
    {
        proof {
            use_type_invariant(self);
        }
        match self.position(k) {
            Some(i) => {
                proof {
                    lemma_pair_in_map(self.entries@, i as int);
                }
                Some(&self.entries[i].1)
            },
            None => None,
        }
    }

    /// Puts `v` under the key `k`, in place of what was there.
    pub fn insert(&mut self, k: String, v: V)
        ensures
            final(self)@ == old(self)@.insert(k@, v@),
    {
        proof {
            use_type_invariant(&*self);
        }
        let found = self.position(&k);
        let mut entries: Vec<(String, V)> = Vec::new();
        std::mem::swap(&mut entries, &mut self.entries);
        let ghost before = entries@;
        match found {
            Some(i) => {
                entries.set(i, (k, v));
                proof {
                    lemma_replaced(before, i as int, (k, v));
                }
            },
            None => {
                entries.push((k, v));
                proof {
                    lemma_pushed(before, (k, v));
                }
            },
        }
        self.entries = entries;
    }

    /// Takes the entry under the key `k` out of the table.
    pub fn remove(&mut self, k: &String) -> (result: Option<V>)
        ensures
            final(self)@ == old(self)@.remove(k@),
            match result {
                Some(v) => old(self)@.contains_key(k@) && v@ == old(self)@[k@],
                None => !old(self)@.contains_key(k@),
            },
    {
        proof {
            use_type_invariant(&*self);
        }
        match self.position(k) {
            Some(i) => {
                let mut entries: Vec<(String, V)> = Vec::new();
                std::mem::swap(&mut entries, &mut self.entries);
                let ghost before = entries@;
                let pair = entries.remove(i);
                proof {
                    lemma_pair_in_map(before, i as int);
                    lemma_removed(before, i as int);
                }
                self.entries = entries;
                Some(pair.1)
            },
            None => {
                proof {
                    assert(self@.remove(k@) =~= self@);
                }
                None
            },
        }
    }
}

impl Clone for StringMap<String> {
    fn clone(&self) -> (result: Self)
        ensures
            result.pairs() == self.pairs(),
            result@ == self@,
    {
        let mut entries: Vec<(String, String)> = Vec::new();
        let mut i: usize = 0;
        while i < self.entries.len()
            invariant
                i <= self.entries@.len(),
                entries@ == self.entries@.take(i as int),
            decreases self.entries@.len() - i,
        {
            entries.push((self.entries[i].0.clone(), self.entries[i].1.clone()));
            i = i + 1;
        }
        proof {
            use_type_invariant(self);
            assert(self.entries@.take(self.entries@.len() as int) == self.entries@);
        }
        StringMap { entries }
    }
}

/// Two maps have the same entry, or none, under `k`.
spec fn agree_on<K, V>(m1: Map<K, V>, m2: Map<K, V>, k: K) -> bool {
    &&& m1.contains_key(k) == m2.contains_key(k)
    &&& m2.contains_key(k) ==> m1[k] == m2[k]
}

/// Maps that agree everywhere are equal.
proof fn lemma_agreeing_maps<K, V>(m1: Map<K, V>, m2: Map<K, V>)
    requires
        forall|k: K| #[trigger] agree_on(m1, m2, k),
    ensures
        m1 == m2,
{
    assert forall|k: K| #[trigger] m1.contains_key(k) == m2.contains_key(k) by {
        assert(agree_on(m1, m2, k));
    }
    assert forall|k: K| m1.contains_key(k) implies #[trigger] m1[k] == m2[k] by {
        assert(agree_on(m1, m2, k));
    }
    assert(m1 =~= m2);
}

/// Replacing the pair at `i` by one with the same key replaces the entry.
proof fn lemma_replaced<V: View>(pairs: Seq<(String, V)>, i: int, pair: (String, V))
    requires
        distinct_keys(pairs),
        0 <= i < pairs.len(),
        pairs[i].0@ == pair.0@,
    ensures
        distinct_keys(pairs.update(i, pair)),
        pairs_map(pairs.update(i, pair)) == pairs_map(pairs).insert(pair.0@, pair.1@),
{
    let after = pairs.update(i, pair);
    assert forall|a: int, b: int| 0 <= a < b < after.len() implies #[trigger] after[a].0@
        != #[trigger] after[b].0@ by {
        assert(pairs[a].0@ != pairs[b].0@);
    }
    let expected = pairs_map(pairs).insert(pair.0@, pair.1@);
    assert forall|k: Seq<char>| #[trigger] agree_on(pairs_map(after), expected, k) by {
        if has_key(after, k) {
            let j = choose|j: int| 0 <= j < after.len() && #[trigger] after[j].0@ == k;
            lemma_pair_in_map(after, j);
            lemma_pair_in_map(pairs, j);
            lemma_pair_in_map(after, i);
        }
        if has_key(pairs, k) {
            let j = choose|j: int| 0 <= j < pairs.len() && #[trigger] pairs[j].0@ == k;
            assert(after[j].0@ == k);
        }
        assert(after[i].0@ == pair.0@);
    }
    lemma_agreeing_maps(pairs_map(after), expected);
}

/// Appending a pair with a new key adds an entry.
proof fn lemma_pushed<V: View>(pairs: Seq<(String, V)>, pair: (String, V))
    requires
        distinct_keys(pairs),
        !has_key(pairs, pair.0@),
    ensures
        distinct_keys(pairs.push(pair)),
        pairs_map(pairs.push(pair)) == pairs_map(pairs).insert(pair.0@, pair.1@),
{
    let after = pairs.push(pair);
    let n = pairs.len() as int;
    assert forall|a: int, b: int| 0 <= a < b < after.len() implies #[trigger] after[a].0@
        != #[trigger] after[b].0@ by {
        assert(after[a] == pairs[a]);
        if b < n {
            assert(pairs[a].0@ != pairs[b].0@);
        }
    }
    let expected = pairs_map(pairs).insert(pair.0@, pair.1@);
    assert forall|k: Seq<char>| #[trigger] agree_on(pairs_map(after), expected, k) by {
        lemma_pair_in_map(after, n);
        if has_key(after, k) {
            let j = choose|j: int| 0 <= j < after.len() && #[trigger] after[j].0@ == k;
            lemma_pair_in_map(after, j);
            if j < n {
                assert(after[j] == pairs[j]);
                lemma_pair_in_map(pairs, j);
            }
        }
        if has_key(pairs, k) {
            let j = choose|j: int| 0 <= j < pairs.len() && #[trigger] pairs[j].0@ == k;
            assert(after[j] == pairs[j]);
            assert(after[j].0@ == k);
        }
    }
    lemma_agreeing_maps(pairs_map(after), expected);
}

/// Removing the pair at `i` removes its entry.
proof fn lemma_removed<V: View>(pairs: Seq<(String, V)>, i: int)
    requires
        distinct_keys(pairs),
        0 <= i < pairs.len(),
    ensures
        distinct_keys(pairs.remove(i)),
        pairs_map(pairs.remove(i)) == pairs_map(pairs).remove(pairs[i].0@),
{
    let after = pairs.remove(i);
    let gone = pairs[i].0@;
    assert forall|a: int, b: int| 0 <= a < b < after.len() implies #[trigger] after[a].0@
        != #[trigger] after[b].0@ by {
        let a0 = if a < i { a } else { a + 1 };
        let b0 = if b < i { b } else { b + 1 };
        assert(after[a] == pairs[a0] && after[b] == pairs[b0]);
        assert(pairs[a0].0@ != pairs[b0].0@);
    }
    let expected = pairs_map(pairs).remove(gone);
    assert forall|k: Seq<char>| #[trigger] agree_on(pairs_map(after), expected, k) by {
        if has_key(after, k) {
            let j = choose|j: int| 0 <= j < after.len() && #[trigger] after[j].0@ == k;
            let j0 = if j < i { j } else { j + 1 };
            assert(after[j] == pairs[j0]);
            lemma_pair_in_map(after, j);
            lemma_pair_in_map(pairs, j0);
            if j0 < i {
                assert(pairs[j0].0@ != pairs[i].0@);
            } else {
                assert(pairs[i].0@ != pairs[j0].0@);
            }
        }
        if has_key(pairs, k) && k != gone {
            let j = choose|j: int| 0 <= j < pairs.len() && #[trigger] pairs[j].0@ == k;
            let j1 = if j < i { j } else { j - 1 };
            assert(after[j1] == pairs[j]);
            assert(after[j1].0@ == k);
        }
    }
    lemma_agreeing_maps(pairs_map(after), expected);
}

/// A list of pairs with distinct keys stands for the map that has exactly their
/// keys, each with the value it is paired with.
pub proof fn law_pairs_are_entries<V: View>(pairs: Seq<(String, V)>, k: Seq<char>, i: int)
    requires
        distinct_keys(pairs),
    ensures
        pairs_map(pairs).contains_key(k) <==> exists|j: int|
            0 <= j < pairs.len() && #[trigger] pairs[j].0@ == k,
        0 <= i < pairs.len() ==> pairs_map(pairs).contains_key(pairs[i].0@) && pairs_map(
            pairs,
        )[pairs[i].0@] == pairs[i].1@,
{
    if 0 <= i < pairs.len() {
        lemma_pair_in_map(pairs, i);
    }
}

/// Keys are distinct when no two pairs have the same.
pub proof fn law_distinct_keys_differ<V>(pairs: Seq<(String, V)>)
    ensures
        distinct_keys(pairs) <==> forall|i: int, j: int|
            0 <= i < pairs.len() && 0 <= j < pairs.len() && i != j ==> #[trigger] pairs[i].0@
                != #[trigger] pairs[j].0@,
{
}

} // verus!
