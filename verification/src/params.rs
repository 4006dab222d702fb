use crate::multisets::{lemma_distinct_same_elements, lemma_to_seq_distinct};
use vstd::prelude::*;

verus! {

/// No two entries of the list have the same key.
pub open spec fn distinct_keys(pairs: Seq<(Seq<char>, Seq<char>)>) -> bool {
    forall|i: int, j: int|
        0 <= i < pairs.len() && 0 <= j < pairs.len() && i != j ==> (#[trigger] pairs[i]).0 != (
        #[trigger] pairs[j]).0
}

/// Tells whether some entry of the list has the key.
pub open spec fn has_key(pairs: Seq<(Seq<char>, Seq<char>)>, key: Seq<char>) -> bool {
    exists|i: int| 0 <= i < pairs.len() && (#[trigger] pairs[i]).0 == key
}

/// The list after a key is given a value: the entry with that key has the
/// new value, in its old place; where there is none, a new entry stands at
/// the end.
pub open spec fn inserted(
    pairs: Seq<(Seq<char>, Seq<char>)>,
    key: Seq<char>,
    value: Seq<char>,
) -> Seq<(Seq<char>, Seq<char>)> {
    if has_key(pairs, key) {
        Seq::new(
            pairs.len(),
            |i: int|
                if pairs[i].0 == key {
                    (key, value)
                } else {
                    pairs[i]
                },
        )
    } else {
        pairs.push((key, value))
    }
}

/// The mapping that a list of entries stands for; a later entry replaces an
/// earlier one with the same key.
pub open spec fn map_of(pairs: Seq<(Seq<char>, Seq<char>)>) -> Map<Seq<char>, Seq<char>>
    decreases pairs.len(),
{
    if pairs.len() == 0 {
        Map::empty()
    } else {
        map_of(pairs.drop_last()).insert(pairs.last().0, pairs.last().1)
    }
}

/// The keys of the mapping are the keys of the entries.
pub proof fn lemma_map_of_keys(pairs: Seq<(Seq<char>, Seq<char>)>, key: Seq<char>)
    ensures
        map_of(pairs).contains_key(key) <==> has_key(pairs, key),
    decreases pairs.len(),
{
    if pairs.len() > 0 {
        let front = pairs.drop_last();
        lemma_map_of_keys(front, key);
        if has_key(pairs, key) {
            let i = choose|i: int| 0 <= i < pairs.len() && (#[trigger] pairs[i]).0 == key;
            if i < front.len() {
                assert(front[i].0 == key);
            }
        }
        if has_key(front, key) {
            let i = choose|i: int| 0 <= i < front.len() && (#[trigger] front[i]).0 == key;
            assert(pairs[i].0 == key);
        }
        if pairs.last().0 == key {
            assert(pairs[pairs.len() - 1].0 == key);
        }
    }
}

/// With distinct keys, each entry's key is mapped to that entry's value.
pub proof fn lemma_map_of_value(pairs: Seq<(Seq<char>, Seq<char>)>, i: int)
    requires
        distinct_keys(pairs),
        0 <= i < pairs.len(),
    ensures
        map_of(pairs).contains_key(pairs[i].0),
        map_of(pairs)[pairs[i].0] == pairs[i].1,
    decreases pairs.len(),
{
    let front = pairs.drop_last();
    if i < pairs.len() - 1 {
        assert(distinct_keys(front)) by {
            assert forall|a: int, b: int|
                0 <= a < front.len() && 0 <= b < front.len() && a != b implies (
            #[trigger] front[a]).0 != (#[trigger] front[b]).0 by {
                assert(pairs[a].0 != pairs[b].0);
            }
        }
        lemma_map_of_value(front, i);
        assert(front[i] == pairs[i]);
        assert(pairs[i].0 != pairs[pairs.len() - 1].0);
    }
}

/// Replacing the value of an entry is an insertion into the mapping.
pub proof fn lemma_map_of_update(
    pairs: Seq<(Seq<char>, Seq<char>)>,
    i: int,
    value: Seq<char>,
)
    requires
        distinct_keys(pairs),
        0 <= i < pairs.len(),
    ensures
        distinct_keys(pairs.update(i, (pairs[i].0, value))),
        map_of(pairs.update(i, (pairs[i].0, value))) == map_of(pairs).insert(pairs[i].0, value),
{
    let key = pairs[i].0;
    let after = pairs.update(i, (key, value));
    assert(distinct_keys(after)) by {
        assert forall|a: int, b: int|
            0 <= a < after.len() && 0 <= b < after.len() && a != b implies (#[trigger] after[a]).0
            != (#[trigger] after[b]).0 by {
            assert(pairs[a].0 != pairs[b].0);
        }
    }
    let left = map_of(after);
    let right = map_of(pairs).insert(key, value);
    assert forall|k: Seq<char>| left.contains_key(k) <==> right.contains_key(k) by {
        lemma_map_of_keys(after, k);
        lemma_map_of_keys(pairs, k);
        if has_key(after, k) {
            let j = choose|j: int| 0 <= j < after.len() && (#[trigger] after[j]).0 == k;
            assert(pairs[j].0 == k);
        }
        if has_key(pairs, k) {
            let j = choose|j: int| 0 <= j < pairs.len() && (#[trigger] pairs[j]).0 == k;
            assert(after[j].0 == k);
        }
        if k == key {
            assert(after[i].0 == k);
        }
    }
    assert forall|k: Seq<char>| left.contains_key(k) implies left[k] == right[k] by {
        lemma_map_of_keys(after, k);
        let j = choose|j: int| 0 <= j < after.len() && (#[trigger] after[j]).0 == k;
        lemma_map_of_value(after, j);
        if j != i {
            lemma_map_of_value(pairs, j);
            assert(pairs[j].0 != pairs[i].0);
        }
    }
    assert(left =~= right);
}

/// The entries of a finite mapping, each key once, in some fixed order.
pub open spec fn entries_of(m: Map<Seq<char>, Seq<char>>) -> Seq<(Seq<char>, Seq<char>)> {
    let keys = m.dom().to_seq();
    Seq::new(keys.len(), |i: int| (keys[i], m[keys[i]]))
}

/// The mapping of a list of entries has finitely many keys.
pub proof fn lemma_map_of_finite(pairs: Seq<(Seq<char>, Seq<char>)>)
    ensures
        map_of(pairs).dom().finite(),
    decreases pairs.len(),
{
    if pairs.len() > 0 {
        lemma_map_of_finite(pairs.drop_last());
    }
}

/// A list of entries with distinct keys is a permutation of the entries of
/// the mapping that it stands for.
pub proof fn lemma_entries_permutation(pairs: Seq<(Seq<char>, Seq<char>)>)
    requires
        distinct_keys(pairs),
    ensures
        pairs.to_multiset() == entries_of(map_of(pairs)).to_multiset(),
{
    let m = map_of(pairs);
    lemma_map_of_finite(pairs);
    lemma_to_seq_distinct(m.dom());
    let keys = m.dom().to_seq();
    let listed = entries_of(m);
    assert(pairs.no_duplicates()) by {
        assert forall|i: int, j: int|
            0 <= i < pairs.len() && 0 <= j < pairs.len() && i != j implies pairs[i]
            != pairs[j] by {
            assert(pairs[i].0 != pairs[j].0);
        }
    }
    assert(listed.no_duplicates()) by {
        assert forall|i: int, j: int|
            0 <= i < listed.len() && 0 <= j < listed.len() && i != j implies listed[i]
            != listed[j] by {
            assert(keys[i] != keys[j]);
        }
    }
    assert forall|x: (Seq<char>, Seq<char>)| pairs.contains(x) <==> listed.contains(x) by {
        if pairs.contains(x) {
            let i = choose|i: int| 0 <= i < pairs.len() && pairs[i] == x;
            lemma_map_of_value(pairs, i);
            assert(keys.contains(x.0));
            let j = choose|j: int| 0 <= j < keys.len() && keys[j] == x.0;
            assert(listed[j] == x);
        }
        if listed.contains(x) {
            let j = choose|j: int| 0 <= j < listed.len() && listed[j] == x;
            assert(keys[j] == x.0);
            assert(keys.contains(x.0));
            lemma_map_of_keys(pairs, x.0);
            let i = choose|i: int| 0 <= i < pairs.len() && (#[trigger] pairs[i]).0 == x.0;
            lemma_map_of_value(pairs, i);
            assert(pairs[i] == x);
        }
    }
    lemma_distinct_same_elements(pairs, listed);
}

/// Two lists with distinct keys that hold the same entries, in whatever
/// order, stand for the same mapping.
pub proof fn lemma_permuted_pairs_same_map(
    a: Seq<(Seq<char>, Seq<char>)>,
    b: Seq<(Seq<char>, Seq<char>)>,
)
    requires
        distinct_keys(a),
        distinct_keys(b),
        a.to_multiset() == b.to_multiset(),
    ensures
        map_of(a) == map_of(b),
{
    assert forall|x: (Seq<char>, Seq<char>)| a.contains(x) <==> b.contains(x) by {
        vstd::seq_lib::to_multiset_contains(a, x);
        vstd::seq_lib::to_multiset_contains(b, x);
    }
    assert forall|k: Seq<char>| map_of(a).contains_key(k) <==> map_of(b).contains_key(k) by {
        lemma_map_of_keys(a, k);
        lemma_map_of_keys(b, k);
        if has_key(a, k) {
            let i = choose|i: int| 0 <= i < a.len() && (#[trigger] a[i]).0 == k;
            assert(a.contains(a[i]));
            let j = choose|j: int| 0 <= j < b.len() && b[j] == a[i];
            assert(b[j].0 == k);
        }
        if has_key(b, k) {
            let i = choose|i: int| 0 <= i < b.len() && (#[trigger] b[i]).0 == k;
            assert(b.contains(b[i]));
            let j = choose|j: int| 0 <= j < a.len() && a[j] == b[i];
            assert(a[j].0 == k);
        }
    }
    assert forall|k: Seq<char>| map_of(a).contains_key(k) implies map_of(a)[k] == map_of(b)[k] by {
        lemma_map_of_keys(a, k);
        let i = choose|i: int| 0 <= i < a.len() && (#[trigger] a[i]).0 == k;
        lemma_map_of_value(a, i);
        assert(a.contains(a[i]));
        let j = choose|j: int| 0 <= j < b.len() && b[j] == a[i];
        lemma_map_of_value(b, j);
    }
    assert(map_of(a) =~= map_of(b));
}

/// Request parameters: a mapping from names to values, kept as a list of
/// entries with distinct keys. Its view is the mapping.
pub struct Params {
    entries: Vec<(String, String)>,
}

impl View for Params {
    type V = Map<Seq<char>, Seq<char>>;

    open spec fn view(&self) -> Map<Seq<char>, Seq<char>> {
        map_of(self.pairs())
    }
}

/// The entries of a list of pairs of strings, as texts.
pub open spec fn pairs_of(entries: Seq<(String, String)>) -> Seq<(Seq<char>, Seq<char>)> {
    Seq::new(entries.len(), |i: int| (entries[i].0@, entries[i].1@))
}

impl Params {
    /// The entries as texts, in the order in which their keys first came.
    pub closed spec fn pairs(&self) -> Seq<(Seq<char>, Seq<char>)> {
        pairs_of(self.entries@)
    }

    /// The keys are distinct. This holds of every value of the type.
    #[verifier::type_invariant]
    pub open spec fn wf(&self) -> bool {
        distinct_keys(self.pairs())
    }

    /// An empty mapping.
    pub fn new() -> (r: Params)
        ensures
            r.pairs() == Seq::<(Seq<char>, Seq<char>)>::empty(),
            r@ == Map::<Seq<char>, Seq<char>>::empty(),
    {
        let entries: Vec<(String, String)> = Vec::new();
        assert(pairs_of(entries@) =~= Seq::<(Seq<char>, Seq<char>)>::empty());
        Params { entries }
    }

    /// The number of entries.
    pub fn len(&self) -> (n: usize)
        ensures
            n == self.pairs().len(),
    {
        self.entries.len()
    }

    /// The key of the entry at `index`.
    pub fn key_at(&self, index: usize) -> (r: &str)
        requires
            index < self.pairs().len(),
        ensures
            r@ == self.pairs()[index as int].0,
    {
        self.entries[index].0.as_str()
    }

    /// The value of the entry at `index`.
    pub fn value_at(&self, index: usize) -> (r: &str)
        requires
            index < self.pairs().len(),
        ensures
            r@ == self.pairs()[index as int].1,
    {
        self.entries[index].1.as_str()
    }

    /// Where the entry with the given key stands, if there is one.
    pub fn position(&self, key: &str) -> (r: Option<usize>)
        ensures
            match r {
                Some(i) => i < self.pairs().len() && self.pairs()[i as int].0 == key@,
                None => !has_key(self.pairs(), key@),
            },
    {
        let wanted = key.to_owned();
        let mut i: usize = 0;
        while i < self.entries.len()
            invariant
                i <= self.entries@.len(),
                wanted@ == key@,
                forall|k: int| 0 <= k < i ==> (#[trigger] self.pairs()[k]).0 != key@,
            decreases self.entries@.len() - i,
        {
            if self.entries[i].0 == wanted {
                return Some(i);
            }
            i += 1;
        }
        None
    }

    /// Tells whether the mapping has the key.
    pub fn contains_key(&self, key: &str) -> (r: bool)
        ensures
            r == self@.contains_key(key@),
    {
        proof {
            lemma_map_of_keys(self.pairs(), key@);
        }
        self.position(key).is_some()
    }

    /// The value that the key is mapped to, if it is mapped.
    pub fn get(&self, key: &str) -> (r: Option<&str>)
        ensures
            match r {
                Some(value) => self@.contains_key(key@) && self@[key@] == value@,
                None => !self@.contains_key(key@),
            },
    {
        proof {
            use_type_invariant(self);
            lemma_map_of_keys(self.pairs(), key@);
        }
        match self.position(key) {
            Some(i) => {
                proof {
                    lemma_map_of_value(self.pairs(), i as int);
                }
                Some(self.entries[i].1.as_str())
            },
            None => None,
        }
    }

    /// Maps the key to the value. A value that the key had before is
    /// replaced, in the same place of the list; a new key goes to the end.
    pub fn insert(&mut self, key: &str, value: &str)
        ensures
            final(self)@ == old(self)@.insert(key@, value@),
            final(self).pairs() == inserted(old(self).pairs(), key@, value@),
    {
        let ghost before = self.pairs();
        proof {
            use_type_invariant(&*self);
        }
        let place = self.position(key);
        let mut entries: Vec<(String, String)> = Vec::new();
        proof {
            assert(pairs_of(entries@) =~= Seq::<(Seq<char>, Seq<char>)>::empty());
        }
        core::mem::swap(&mut self.entries, &mut entries);
        match place {
            Some(i) => {
                entries.set(i, (key.to_owned(), value.to_owned()));
                proof {
                    assert(pairs_of(entries@) =~= before.update(i as int, (key@, value@)));
                    assert(pairs_of(entries@) =~= inserted(before, key@, value@));
                    lemma_map_of_update(before, i as int, value@);
                }
            },
            None => {
                entries.push((key.to_owned(), value.to_owned()));
                proof {
                    let after = pairs_of(entries@);
                    assert(after =~= before.push((key@, value@)));
                    assert(after.drop_last() =~= before);
                    assert forall|a: int, b: int|
                        0 <= a < after.len() && 0 <= b < after.len() && a != b implies (
                    #[trigger] after[a]).0 != (#[trigger] after[b]).0 by {
                        if a < before.len() && b < before.len() {
                            assert(before[a].0 != before[b].0);
                        } else if a < before.len() {
                            assert(before[a].0 != key@);
                        } else {
                            assert(before[b].0 != key@);
                        }
                    }
                }
            },
        }
        self.entries = entries;
    }

    /// Takes over every entry of `other`; where both have a key, the value
    /// of `other` replaces the one held before.
    pub fn extend(&mut self, other: &Params)
        ensures
            final(self)@ == old(self)@.union_prefer_right(other@),
    {
        let ghost start = self@;
        let ghost added = other.pairs();
        let mut i: usize = 0;
        proof {
            assert(map_of(added.subrange(0, 0)) =~= Map::<Seq<char>, Seq<char>>::empty());
            assert(start.union_prefer_right(Map::<Seq<char>, Seq<char>>::empty()) =~= start);
        }
        while i < other.len()
            invariant
                i <= added.len(),
                added == other.pairs(),
                self@ == start.union_prefer_right(map_of(added.subrange(0, i as int))),
            decreases added.len() - i,
        {
            proof {
                let done = added.subrange(0, i as int);
                let next = added.subrange(0, i + 1);
                assert(next.drop_last() =~= done);
                assert(next.last() == added[i as int]);
                assert(start.union_prefer_right(map_of(next)) =~= start.union_prefer_right(
                    map_of(done),
                ).insert(added[i as int].0, added[i as int].1));
            }
            self.insert(other.key_at(i), other.value_at(i));
            i += 1;
        }
        proof {
            assert(added.subrange(0, i as int) =~= added);
        }
    }
}

impl Clone for Params {
    /// A copy with the same entries in the same order.
    fn clone(&self) -> (r: Params)
        ensures
            r.pairs() == self.pairs(),
            r@ == self@,
    {
        let mut entries: Vec<(String, String)> = Vec::new();
        let mut i: usize = 0;
        while i < self.entries.len()
            invariant
                i <= self.entries@.len(),
                entries@.len() == i,
                forall|k: int|
                    0 <= k < i ==> (#[trigger] entries@[k]).0@ == self.entries@[k].0@
                        && entries@[k].1@ == self.entries@[k].1@,
            decreases self.entries@.len() - i,
        {
            entries.push((self.entries[i].0.clone(), self.entries[i].1.clone()));
            i += 1;
        }
        proof {
            use_type_invariant(self);
            assert(pairs_of(entries@) =~= self.pairs());
        }
        Params { entries }
    }
}

} // verus!
