//! A map from strings that remembers the order in which its keys were added.

use vstd::hash_map::StringHashMap;
use vstd::prelude::*;

verus! {

/// A map from strings to values, walked in the order in which the keys were added.
pub struct TextMap<V> {
    index: StringHashMap<usize>,
    items: Vec<(String, V)>,
}

impl<V> TextMap<V> {
    /// The keys and values in the order in which the keys were added.
    pub closed spec fn pairs(&self) -> Seq<(Seq<char>, V)> {
        Seq::new(self.items@.len(), |i: int| (self.items@[i].0@, self.items@[i].1))
    }

    /// Whether every key occurs once and the index knows its place.
    pub closed spec fn wf(&self) -> bool {
        &&& forall|k: Seq<char>| #[trigger]
            self.index@.dom().contains(k) ==> self.index@[k] < self.items@.len()
                && self.items@[self.index@[k] as int].0@ == k
        &&& forall|i: int|
            0 <= i < self.items@.len() ==> self.index@.dom().contains(#[trigger] self.items@[i].0@)
                && self.index@[self.items@[i].0@] == i
    }

    /// A map without keys.
    pub fn new() -> (r: Self)
        ensures
            r.wf(),
            r.pairs() == Seq::<(Seq<char>, V)>::empty(),
    {
        let r = TextMap { index: StringHashMap::new(), items: Vec::new() };
        assert(r.pairs() =~= Seq::<(Seq<char>, V)>::empty());
        r
    }

    /// Number of keys.
    pub fn len(&self) -> (r: usize)
        ensures
            r == self.pairs().len(),
    {
        self.items.len()
    }

    /// The key at position `i`.
    pub fn key_at(&self, i: usize) -> (r: &String)
        requires
            i < self.pairs().len(),
        ensures
            r@ == self.pairs()[i as int].0,
    {
        &self.items[i].0
    }

    /// The value at position `i`.
    pub fn value_at(&self, i: usize) -> (r: &V)
        requires
            i < self.pairs().len(),
        ensures
            *r == self.pairs()[i as int].1,
    {
        &self.items[i].1
    }

    /// The value of `key`, if it has one.
    pub fn get(&self, key: &str) -> (r: Option<&V>)
        requires
            self.wf(),
        ensures
            match r {
                Some(value) => has_pair(self.pairs(), key@) && *value == value_of(
                    self.pairs(),
                    key@,
                ),
                None => !has_pair(self.pairs(), key@),
            },
    {
        proof {
            assert forall|i: int| 0 <= i < self.pairs().len() implies self.index@.dom().contains(
                (#[trigger] self.pairs()[i]).0,
            ) && self.index@[self.pairs()[i].0] == i by {
                assert(self.items@[i].0@ == self.pairs()[i].0);
            }
        }
        match self.index.get(key) {
            Some(place) => {
                let place: usize = *place;
                proof {
                    assert(self.pairs()[place as int].0 == key@);
                    lemma_value_of(self.pairs(), key@, place as int);
                }
                Some(&self.items[place].1)
            },
            None => None,
        }
    }

    /// Gives `key` the value `value`: in its old place if it had one, else behind all others.
    pub fn insert(&mut self, key: String, value: V)
        requires
            old(self).wf(),
        ensures
            final(self).wf(),
            final(self).pairs() == with_pair(old(self).pairs(), key@, value),
    {
        let ghost before = self.items@;
        let ghost old_pairs = self.pairs();
        let ghost old_index = self.index@;
        assert forall|i: int| 0 <= i < before.len() implies (#[trigger] old_pairs[i]).0
            == before[i].0@ by {}
        let known = match self.index.get(key.as_str()) {
            Some(place) => Some(*place),
            None => None,
        };
        match known {
            Some(place) => {
                let place: usize = place;
                let ghost text = key@;
                self.items[place] = (key, value);
                assert(old_pairs[place as int].0 == text);
                assert(self.pairs() =~= with_pair(old_pairs, text, value)) by {
                    assert forall|i: int| 0 <= i < before.len() implies #[trigger] self.pairs()[i]
                        == with_pair(old_pairs, text, value)[i] by {
                        assert(old_index.dom().contains(before[i].0@));
                        if i != place {
                            assert(old_pairs[i].0 != text);
                        }
                    }
                }
                assert forall|i: int| 0 <= i < self.items@.len() implies self.index@.dom().contains(
                    #[trigger] self.items@[i].0@,
                ) && self.index@[self.items@[i].0@] == i by {
                    assert(old_index.dom().contains(before[i].0@) && old_index[before[i].0@] == i);
                    assert(self.items@[i].0@ == before[i].0@);
                }
                assert forall|k: Seq<char>| #[trigger]
                    self.index@.dom().contains(k) implies self.index@[k] < self.items@.len()
                    && self.items@[self.index@[k] as int].0@ == k by {
                    assert(before[old_index[k] as int].0@ == k);
                }
            },
            None => {
                let place: usize = self.items.len();
                let ghost text = key@;
                self.index.insert(key.clone(), place);
                self.items.push((key, value));
                assert(!has_pair(old_pairs, text)) by {
                    if has_pair(old_pairs, text) {
                        let i = choose|i: int|
                            0 <= i < old_pairs.len() && (#[trigger] old_pairs[i]).0 == text;
                        assert(old_index.dom().contains(before[i].0@));
                    }
                }
                assert(self.pairs() =~= old_pairs.push((text, value)));
                assert forall|i: int| 0 <= i < self.items@.len() implies self.index@.dom().contains(
                    #[trigger] self.items@[i].0@,
                ) && self.index@[self.items@[i].0@] == i by {
                    if i < place {
                        assert(self.items@[i] == before[i]);
                        assert(old_index.dom().contains(before[i].0@) && old_index[before[i].0@]
                            == i);
                        assert(old_pairs[i].0 != text);
                    }
                }
                assert forall|k: Seq<char>| #[trigger]
                    self.index@.dom().contains(k) implies self.index@[k] < self.items@.len()
                    && self.items@[self.index@[k] as int].0@ == k by {
                    if k != text {
                        assert(old_index.dom().contains(k));
                        assert(before[old_index[k] as int].0@ == k);
                    }
                }
            },
        }
    }

    /// No key occurs twice.
    pub proof fn law_keys_are_distinct(&self, i: int, j: int)
        requires
            self.wf(),
            0 <= i < self.pairs().len(),
            0 <= j < self.pairs().len(),
            self.pairs()[i].0 == self.pairs()[j].0,
        ensures
            i == j,
    {
        assert(self.index@[self.items@[i].0@] == i);
        assert(self.index@[self.items@[j].0@] == j);
    }
}

/// Whether the pairs hold the key `k`.
pub open spec fn has_pair<V>(pairs: Seq<(Seq<char>, V)>, k: Seq<char>) -> bool {
    exists|i: int| 0 <= i < pairs.len() && (#[trigger] pairs[i]).0 == k
}

/// The value that the last pair with the key `k` holds.
pub open spec fn value_of<V>(pairs: Seq<(Seq<char>, V)>, k: Seq<char>) -> V
    decreases pairs.len(),
{
    let last = pairs[pairs.len() - 1];
    if pairs.len() <= 1 || last.0 == k {
        last.1
    } else {
        value_of(pairs.drop_last(), k)
    }
}

/// The pairs with the value of `k` replaced, or with a pair for `k` at the end.
pub open spec fn with_pair<V>(pairs: Seq<(Seq<char>, V)>, k: Seq<char>, value: V) -> Seq<
    (Seq<char>, V),
> {
    if has_pair(pairs, k) {
        Seq::new(
            pairs.len(),
            |i: int|
                if pairs[i].0 == k {
                    (k, value)
                } else {
                    pairs[i]
                },
        )
    } else {
        pairs.push((k, value))
    }
}

/// Where keys are distinct, the value of a key is the one beside it.
pub proof fn lemma_value_of<V>(pairs: Seq<(Seq<char>, V)>, k: Seq<char>, i: int)
    requires
        0 <= i < pairs.len(),
        pairs[i].0 == k,
        forall|j: int| 0 <= j < pairs.len() && (#[trigger] pairs[j]).0 == k ==> j == i,
    ensures
        value_of(pairs, k) == pairs[i].1,
    decreases pairs.len(),
{
    let last = pairs.len() - 1;
    if pairs.len() > 1 && pairs[last].0 != k {
        let shorter = pairs.drop_last();
        assert(shorter[i] == pairs[i]);
        assert forall|j: int| 0 <= j < shorter.len() && (#[trigger] shorter[j]).0 == k implies j
            == i by {
            assert(pairs[j] == shorter[j]);
        }
        lemma_value_of(shorter, k, i);
    } else {
        assert(pairs[last].0 == k ==> last == i);
    }
}

/// A key has the value that it was given last, and giving it one changes no other key.
pub proof fn law_last_value_is_kept<V>(
    pairs: Seq<(Seq<char>, V)>,
    k: Seq<char>,
    value: V,
    other: Seq<char>,
)
    requires
        forall|i: int, j: int|
            #![trigger pairs[i], pairs[j]]
            0 <= i < j < pairs.len() ==> pairs[i].0 != pairs[j].0,
    ensures
        has_pair(with_pair(pairs, k, value), k),
        value_of(with_pair(pairs, k, value), k) == value,
        other != k ==> has_pair(with_pair(pairs, k, value), other) == has_pair(pairs, other),
        other != k && has_pair(pairs, other) ==> value_of(with_pair(pairs, k, value), other)
            == value_of(pairs, other),
        with_pair(pairs, k, value).len() == pairs.len() + (if has_pair(pairs, k) {
            0int
        } else {
            1int
        }),
{
    let after = with_pair(pairs, k, value);
    assert forall|i: int, j: int|
        #![trigger after[i], after[j]]
        0 <= i < j < after.len() implies after[i].0 != after[j].0 by {
        if j < pairs.len() {
            assert(pairs[i].0 != pairs[j].0);
        }
    }
    let place = if has_pair(pairs, k) {
        choose|i: int| 0 <= i < pairs.len() && (#[trigger] pairs[i]).0 == k
    } else {
        pairs.len() as int
    };
    assert(after[place] == (k, value));
    lemma_value_of(after, k, place);
    if other != k {
        if has_pair(pairs, other) {
            let i = choose|i: int| 0 <= i < pairs.len() && (#[trigger] pairs[i]).0 == other;
            assert(after[i] == pairs[i]);
            lemma_value_of(pairs, other, i);
            lemma_value_of(after, other, i);
        }
        if has_pair(after, other) {
            let i = choose|i: int| 0 <= i < after.len() && (#[trigger] after[i]).0 == other;
            assert(pairs[i].0 == other);
        }
    }
}

} // verus!
