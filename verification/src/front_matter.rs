//! The key/value mapping that a document's front matter holds.
//!
//! Keys and values are text. The mapping keeps its entries in the order in
//! which their keys first came in, and holds each key once.

use vstd::prelude::*;

verus! {

/// One entry as it is seen in contracts: the key's and the value's text.
pub type Pair = (Seq<char>, Seq<char>);

/// The mapping that results from inserting `pairs` one after the other, so
/// that of two entries with one key the later one stays.
pub open spec fn pairs_map(pairs: Seq<Pair>) -> Map<Seq<char>, Seq<char>>
    decreases pairs.len(),
{
    if pairs.len() == 0 {
        Map::empty()
    } else {
        pairs_map(pairs.drop_last()).insert(pairs.last().0, pairs.last().1)
    }
}

/// Whether no two entries of `pairs` share a key.
pub open spec fn distinct_keys(pairs: Seq<Pair>) -> bool {
    forall|i: int, j: int| 0 <= i < j < pairs.len() ==> pairs[i].0 != pairs[j].0
}

/// Whether some entry of `pairs` has the key `key`.
pub open spec fn has_key(pairs: Seq<Pair>, key: Seq<char>) -> bool {
    exists|i: int| 0 <= i < pairs.len() && #[trigger] pairs[i].0 == key
}

/// Index of the first entry of `pairs` with the key `key`, or `pairs.len()`
/// when no entry has it.
pub open spec fn key_index(pairs: Seq<Pair>, key: Seq<char>) -> int
    decreases pairs.len(),
{
    if pairs.len() == 0 || pairs[0].0 == key {
        0
    } else {
        1 + key_index(pairs.drop_first(), key)
    }
}

/// `pairs` once `key` has been given the value `value`: the entry of `key`
/// keeps its place and takes the new value, and a new key goes to the end.
pub open spec fn insert_pair(pairs: Seq<Pair>, key: Seq<char>, value: Seq<char>) -> Seq<Pair> {
    let at = key_index(pairs, key);
    if 0 <= at < pairs.len() {
        pairs.update(at, (key, value))
    } else {
        pairs.push((key, value))
    }
}

/// `pairs` without the entry of `key`; the others keep their order.
pub open spec fn remove_key(pairs: Seq<Pair>, key: Seq<char>) -> Seq<Pair> {
    let at = key_index(pairs, key);
    if 0 <= at < pairs.len() {
        pairs.remove(at)
    } else {
        pairs
    }
}

/// `key_index` lies within the entries, holds `key` where it lies before
/// the end, has no `key` before it, and lies before the end exactly when
/// some entry has the key.
pub proof fn lemma_key_index(pairs: Seq<Pair>, key: Seq<char>)
    ensures
        0 <= key_index(pairs, key) <= pairs.len(),
        key_index(pairs, key) < pairs.len() ==> pairs[key_index(pairs, key)].0 == key,
        forall|i: int| 0 <= i < key_index(pairs, key) ==> pairs[i].0 != key,
        key_index(pairs, key) < pairs.len() <==> has_key(pairs, key),
    decreases pairs.len(),
{
    if pairs.len() != 0 && pairs[0].0 != key {
        let rest = pairs.drop_first();
        lemma_key_index(rest, key);
        assert forall|i: int| 0 <= i < key_index(pairs, key) implies pairs[i].0 != key by {
            if i > 0 {
                assert(pairs[i] == rest[i - 1]);
            }
        }
    }
    let at = key_index(pairs, key);
    if at < pairs.len() {
        assert(pairs[at].0 == key);
    }
    if has_key(pairs, key) {
        let i = choose|i: int| 0 <= i < pairs.len() && #[trigger] pairs[i].0 == key;
        assert(at <= i);
    }
}

/// The text of each entry of `entries`.
pub open spec fn pairs_of(entries: Seq<(String, String)>) -> Seq<Pair> {
    Seq::new(entries.len(), |i: int| (entries[i].0@, entries[i].1@))
}

/// The keys of `pairs_map(pairs)` are the keys of `pairs`, and there are
/// finitely many of them.
pub proof fn lemma_pairs_map_domain(pairs: Seq<Pair>)
    ensures
        pairs_map(pairs).dom().finite(),
        pairs_map(pairs).dom().len() <= pairs.len(),
        forall|k: Seq<char>| #[trigger] pairs_map(pairs).contains_key(k) <==> has_key(pairs, k),
    decreases pairs.len(),
{
    if pairs.len() > 0 {
        let front = pairs.drop_last();
        lemma_pairs_map_domain(front);
        assert forall|k: Seq<char>| #[trigger]
            pairs_map(pairs).contains_key(k) <==> has_key(pairs, k) by {
            if pairs_map(pairs).contains_key(k) {
                if k == pairs.last().0 {
                    assert(pairs[pairs.len() - 1].0 == k);
                } else {
                    assert(has_key(front, k));
                    let i = choose|i: int| 0 <= i < front.len() && #[trigger] front[i].0 == k;
                    assert(pairs[i].0 == k);
                }
            }
            if has_key(pairs, k) {
                let i = choose|i: int| 0 <= i < pairs.len() && #[trigger] pairs[i].0 == k;
                if i < pairs.len() - 1 {
                    assert(front[i].0 == k);
                    assert(has_key(front, k));
                }
            }
        }
    }
}

/// Where no key occurs twice, each entry of `pairs` is an entry of
/// `pairs_map(pairs)`, and the mapping has as many entries as `pairs`.
pub proof fn lemma_pairs_map_distinct(pairs: Seq<Pair>)
    requires
        distinct_keys(pairs),
    ensures
        pairs_map(pairs).dom().finite(),
        pairs_map(pairs).dom().len() == pairs.len(),
        forall|i: int|
            0 <= i < pairs.len() ==> pairs_map(pairs).contains_key(#[trigger] pairs[i].0)
                && pairs_map(pairs)[pairs[i].0] == pairs[i].1,
    decreases pairs.len(),
{
    lemma_pairs_map_domain(pairs);
    if pairs.len() > 0 {
        let front = pairs.drop_last();
        assert(distinct_keys(front)) by {
            assert forall|i: int, j: int| 0 <= i < j < front.len() implies front[i].0
                != front[j].0 by {
                assert(front[i] == pairs[i] && front[j] == pairs[j]);
            }
        }
        lemma_pairs_map_distinct(front);
        lemma_pairs_map_domain(front);
        let last_key = pairs.last().0;
        assert(!has_key(front, last_key)) by {
            if has_key(front, last_key) {
                let i = choose|i: int| 0 <= i < front.len() && #[trigger] front[i].0 == last_key;
                assert(pairs[i].0 == pairs[pairs.len() - 1].0);
            }
        }
        assert(!pairs_map(front).contains_key(last_key));
        assert forall|i: int| 0 <= i < pairs.len() implies pairs_map(pairs).contains_key(
            #[trigger] pairs[i].0,
        ) && pairs_map(pairs)[pairs[i].0] == pairs[i].1 by {
            if i < pairs.len() - 1 {
                assert(front[i] == pairs[i]);
                assert(pairs[i].0 != pairs[pairs.len() - 1].0);
            }
        }
    }
}

/// Replacing the value of the entry at `at` is inserting under its key.
pub proof fn lemma_pairs_map_update(pairs: Seq<Pair>, at: int, value: Seq<char>)
    requires
        distinct_keys(pairs),
        0 <= at < pairs.len(),
    ensures
        distinct_keys(pairs.update(at, (pairs[at].0, value))),
        pairs_map(pairs.update(at, (pairs[at].0, value))) == pairs_map(pairs).insert(
            pairs[at].0,
            value,
        ),
{
    let key = pairs[at].0;
    let after = pairs.update(at, (key, value));
    assert(distinct_keys(after)) by {
        assert forall|i: int, j: int| 0 <= i < j < after.len() implies after[i].0
            != after[j].0 by {
            assert(after[i].0 == pairs[i].0 && after[j].0 == pairs[j].0);
        }
    }
    lemma_pairs_map_distinct(pairs);
    lemma_pairs_map_distinct(after);
    lemma_pairs_map_domain(pairs);
    lemma_pairs_map_domain(after);
    let lhs = pairs_map(after);
    let rhs = pairs_map(pairs).insert(key, value);
    assert forall|k: Seq<char>| lhs.contains_key(k) <==> rhs.contains_key(k) by {
        if has_key(after, k) {
            let i = choose|i: int| 0 <= i < after.len() && #[trigger] after[i].0 == k;
            assert(pairs[i].0 == k);
        }
        if has_key(pairs, k) {
            let i = choose|i: int| 0 <= i < pairs.len() && #[trigger] pairs[i].0 == k;
            assert(after[i].0 == k);
        }
        if k == key {
            assert(after[at].0 == k);
        }
    }
    assert forall|k: Seq<char>| lhs.contains_key(k) implies lhs[k] == rhs[k] by {
        let i = choose|i: int| 0 <= i < after.len() && #[trigger] after[i].0 == k;
        assert(lhs[after[i].0] == after[i].1);
        if i != at {
            assert(after[i] == pairs[i]);
            assert(pairs[i].0 != pairs[at].0);
            assert(pairs_map(pairs)[pairs[i].0] == pairs[i].1);
        }
    }
    assert(lhs =~= rhs);
}

/// Taking out the entry at `at` is removing its key.
pub proof fn lemma_pairs_map_remove(pairs: Seq<Pair>, at: int)
    requires
        distinct_keys(pairs),
        0 <= at < pairs.len(),
    ensures
        distinct_keys(pairs.remove(at)),
        pairs_map(pairs.remove(at)) == pairs_map(pairs).remove(pairs[at].0),
{
    let key = pairs[at].0;
    let after = pairs.remove(at);
    assert forall|i: int| 0 <= i < after.len() implies after[i] == pairs[if i < at {
        i
    } else {
        i + 1
    }] by {}
    assert(distinct_keys(after)) by {
        assert forall|i: int, j: int| 0 <= i < j < after.len() implies after[i].0
            != after[j].0 by {
            let pi = if i < at {
                i
            } else {
                i + 1
            };
            let pj = if j < at {
                j
            } else {
                j + 1
            };
            assert(after[i] == pairs[pi] && after[j] == pairs[pj]);
        }
    }
    lemma_pairs_map_distinct(pairs);
    lemma_pairs_map_distinct(after);
    lemma_pairs_map_domain(pairs);
    lemma_pairs_map_domain(after);
    let lhs = pairs_map(after);
    let rhs = pairs_map(pairs).remove(key);
    assert forall|k: Seq<char>| lhs.contains_key(k) <==> rhs.contains_key(k) by {
        if has_key(after, k) {
            let i = choose|i: int| 0 <= i < after.len() && #[trigger] after[i].0 == k;
            let pi = if i < at {
                i
            } else {
                i + 1
            };
            assert(pairs[pi].0 == k);
            assert(pairs[pi].0 != pairs[at].0);
        }
        if has_key(pairs, k) && k != key {
            let i = choose|i: int| 0 <= i < pairs.len() && #[trigger] pairs[i].0 == k;
            let ai = if i < at {
                i
            } else {
                i - 1
            };
            assert(after[ai].0 == k);
        }
    }
    assert forall|k: Seq<char>| lhs.contains_key(k) implies lhs[k] == rhs[k] by {
        let i = choose|i: int| 0 <= i < after.len() && #[trigger] after[i].0 == k;
        let pi = if i < at {
            i
        } else {
            i + 1
        };
        assert(lhs[after[i].0] == after[i].1);
        assert(after[i] == pairs[pi]);
        assert(pairs_map(pairs)[pairs[pi].0] == pairs[pi].1);
    }
    assert(lhs =~= rhs);
}

/// Giving a key a value in the list of entries is inserting it in the
/// mapping, and keeps the keys distinct.
pub proof fn lemma_insert_pair(pairs: Seq<Pair>, key: Seq<char>, value: Seq<char>)
    requires
        distinct_keys(pairs),
    ensures
        distinct_keys(insert_pair(pairs, key, value)),
        pairs_map(insert_pair(pairs, key, value)) == pairs_map(pairs).insert(key, value),
{
    lemma_key_index(pairs, key);
    let at = key_index(pairs, key);
    if at < pairs.len() {
        lemma_pairs_map_update(pairs, at, value);
    } else {
        let after = pairs.push((key, value));
        assert(after.drop_last() == pairs);
        assert forall|i: int, j: int| 0 <= i < j < after.len() implies after[i].0
            != after[j].0 by {
            if j == after.len() - 1 {
                assert(pairs[i].0 == after[i].0);
            } else {
                assert(pairs[i] == after[i] && pairs[j] == after[j]);
            }
        }
    }
}

/// A mapping from text keys to text values.
#[derive(Debug)]
pub struct FrontMatter {
    entries: Vec<(String, String)>,
}

impl View for FrontMatter {
    type V = Map<Seq<char>, Seq<char>>;

    open spec fn view(&self) -> Map<Seq<char>, Seq<char>> {
        pairs_map(self.pairs())
    }
}

impl Clone for FrontMatter {
    /// A mapping with the same entries in the same order.
    fn clone(&self) -> (r: Self)
        ensures
            r.pairs() == self.pairs(),
            r@ == self@,
    {
        proof {
            use_type_invariant(self);
        }
        let mut entries: Vec<(String, String)> = Vec::new();
        let mut i: usize = 0;
        while i < self.entries.len()
            invariant
                i <= self.entries.len(),
                pairs_of(entries@) == pairs_of(self.entries@).take(i as int),
            decreases self.entries.len() - i,
        {
            let ghost before = pairs_of(entries@);
            entries.push((self.entries[i].0.clone(), self.entries[i].1.clone()));
            assert(pairs_of(entries@) == before.push(pairs_of(self.entries@)[i as int]));
            i = i + 1;
            assert(pairs_of(self.entries@).take(i as int) == before.push(
                pairs_of(self.entries@)[i - 1],
            ));
        }
        assert(pairs_of(self.entries@).take(i as int) == pairs_of(self.entries@));
        FrontMatter { entries }
    }
}

impl FrontMatter {
    /// The entries in the order in which they are kept.
    pub closed spec fn pairs(&self) -> Seq<Pair> {
        pairs_of(self.entries@)
    }

    /// No two entries share a key.
    #[verifier::type_invariant]
    spec fn well_formed(&self) -> bool {
        distinct_keys(pairs_of(self.entries@))
    }

    /// The empty mapping.
    pub fn new() -> (r: Self)
        ensures
            r@ == Map::<Seq<char>, Seq<char>>::empty(),
            r.pairs() == Seq::<Pair>::empty(),
    {
        let r = FrontMatter { entries: Vec::new() };
        assert(r.pairs() == Seq::<Pair>::empty());
        r
    }

    /// Index of the entry with the key `key`.
    fn find(&self, key: &String) -> (r: Option<usize>)
        ensures
            match r {
                Some(i) => i < self.entries.len() && self.entries@[i as int].0@ == key@,
                None => !has_key(pairs_of(self.entries@), key@),
            },
            key_index(pairs_of(self.entries@), key@) == match r {
                Some(i) => i as int,
                None => self.entries.len() as int,
            },
    {
        let mut i: usize = 0;
        while i < self.entries.len()
            invariant
                i <= self.entries.len(),
                forall|j: int| 0 <= j < i ==> self.entries@[j].0@ != key@,
            decreases self.entries.len() - i,
        {
            if self.entries[i].0 == *key {
                proof {
                    let pairs = pairs_of(self.entries@);
                    lemma_key_index(pairs, key@);
                    let at = key_index(pairs, key@);
                    assert(pairs[i as int].0 == key@);
                    if at < i {
                        assert(self.entries@[at].0@ != key@);
                    }
                }
                return Some(i);
            }
            i = i + 1;
        }
        proof {
            let pairs = pairs_of(self.entries@);
            if has_key(pairs, key@) {
                let j = choose|j: int| 0 <= j < pairs.len() && #[trigger] pairs[j].0 == key@;
                assert(self.entries@[j].0@ != key@);
            }
            lemma_key_index(pairs, key@);
        }
        None
    }

    /// Number of entries.
    pub fn len(&self) -> (n: usize)
        ensures
            n == self@.len(),
            n == self.pairs().len(),
    {
        proof {
            use_type_invariant(self);
            lemma_pairs_map_distinct(self.pairs());
        }
        self.entries.len()
    }

    /// Whether the mapping has no entry.
    pub fn is_empty(&self) -> (b: bool)
        ensures
            b == (self@.len() == 0),
            b == (self@ == Map::<Seq<char>, Seq<char>>::empty()),
    {
        proof {
            use_type_invariant(self);
            lemma_pairs_map_distinct(self.pairs());
            if self.pairs().len() == 0 {
                assert(self@ =~= Map::<Seq<char>, Seq<char>>::empty());
            }
        }
        self.entries.len() == 0
    }

    /// Whether `key` has a value.
    pub fn contains_key(&self, key: &str) -> (b: bool)
        ensures
            b == self@.contains_key(key@),
    {
        proof {
            lemma_pairs_map_domain(self.pairs());
        }
        let owned = key.to_owned();
        match self.find(&owned) {
            Some(i) => {
                assert(self.pairs()[i as int].0 == key@);
                true
            },
            None => false,
        }
    }

    /// The value of `key`, if it has one.
    pub fn get(&self, key: &str) -> (r: Option<&String>)
        ensures
            match r {
                Some(v) => self@.contains_key(key@) && v@ == self@[key@],
                None => !self@.contains_key(key@),
            },
    {
        proof {
            use_type_invariant(self);
            lemma_pairs_map_domain(self.pairs());
            lemma_pairs_map_distinct(self.pairs());
        }
        let owned = key.to_owned();
        match self.find(&owned) {
            Some(i) => {
                assert(self.pairs()[i as int].0 == key@);
                Some(&self.entries[i].1)
            },
            None => None,
        }
    }

    /// Moves the entries out and leaves the mapping empty.
    fn take_entries(&mut self) -> (entries: Vec<(String, String)>)
        ensures
            pairs_of(entries@) == old(self).pairs(),
            distinct_keys(pairs_of(entries@)),
    {
        proof {
            use_type_invariant(&*self);
        }
        let mut taken = FrontMatter { entries: Vec::new() };
        core::mem::swap(self, &mut taken);
        taken.entries
    }

    /// Gives `key` the value `value`; an earlier value of `key` is dropped.
    pub fn insert(&mut self, key: String, value: String)
        ensures
            final(self)@ == old(self)@.insert(key@, value@),
            final(self).pairs() == insert_pair(old(self).pairs(), key@, value@),
    {
        let found = self.find(&key);
        let mut entries = self.take_entries();
        let ghost before = pairs_of(entries@);
        proof {
            lemma_pairs_map_domain(before);
        }
        match found {
            Some(i) => {
                proof {
                    lemma_pairs_map_update(before, i as int, value@);
                }
                entries.set(i, (key, value));
                assert(pairs_of(entries@) == before.update(i as int, (before[i as int].0, value@)));
                assert(before[i as int].0 == key@);
            },
            None => {
                entries.push((key, value));
                proof {
                    let after = pairs_of(entries@);
                    assert(after == before.push((key@, value@)));
                    assert(after.drop_last() == before);
                    assert(distinct_keys(after)) by {
                        assert forall|i: int, j: int| 0 <= i < j < after.len() implies after[i].0
                            != after[j].0 by {
                            if j == after.len() - 1 {
                                assert(before[i].0 == after[i].0);
                            } else {
                                assert(before[i] == after[i] && before[j] == after[j]);
                            }
                        }
                    }
                }
            },
        }
        *self = FrontMatter { entries };
    }

    /// Takes `key` out of the mapping and hands back the value it had.
    pub fn remove(&mut self, key: &str) -> (r: Option<String>)
        ensures
            final(self)@ == old(self)@.remove(key@),
            final(self).pairs() == remove_key(old(self).pairs(), key@),
            match r {
                Some(v) => old(self)@.contains_key(key@) && v@ == old(self)@[key@],
                None => !old(self)@.contains_key(key@),
            },
    {
        let owned = key.to_owned();
        let found = self.find(&owned);
        let mut entries = self.take_entries();
        let ghost before = pairs_of(entries@);
        proof {
            lemma_pairs_map_domain(before);
            lemma_pairs_map_distinct(before);
        }
        let r = match found {
            Some(i) => {
                proof {
                    lemma_pairs_map_remove(before, i as int);
                }
                assert(before[i as int].0 == key@);
                let entry = entries.remove(i);
                assert(pairs_of(entries@) == before.remove(i as int));
                Some(entry.1)
            },
            None => {
                assert(pairs_map(before) =~= pairs_map(before).remove(key@));
                None
            },
        };
        *self = FrontMatter { entries };
        r
    }

    /// The entries in the order in which they are kept.
    pub fn entries(&self) -> (r: &Vec<(String, String)>)
        ensures
            pairs_of(r@) == self.pairs(),
            distinct_keys(self.pairs()),
    {
        proof {
            use_type_invariant(self);
        }
        &self.entries
    }
}

} // verus!
