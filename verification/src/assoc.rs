//! A small map that keeps its pairs in the order in which they were put in.
use vstd::prelude::*;
use crate::hlc::{same_peer, PeerId};

verus! {

/// A type whose values can be told apart.
pub trait Key: Sized {
    /// What two equal keys have in common.
    type Model;

    spec fn model(&self) -> Self::Model;

    fn same(&self, other: &Self) -> (same: bool)
        ensures
            same == (self.model() == other.model()),
    ;
}

impl Key for PeerId {
    type Model = PeerId;

    open spec fn model(&self) -> PeerId {
        *self
    }

    fn same(&self, other: &Self) -> (same: bool) {
        same_peer(self, other)
    }
}

impl Key for String {
    type Model = Seq<char>;

    open spec fn model(&self) -> Seq<char> {
        self@
    }

    fn same(&self, other: &Self) -> (same: bool) {
        *self == *other
    }
}

impl Key for (String, String) {
    type Model = (Seq<char>, Seq<char>);

    open spec fn model(&self) -> (Seq<char>, Seq<char>) {
        (self.0@, self.1@)
    }

    fn same(&self, other: &Self) -> (same: bool) {
        self.0 == other.0 && self.1 == other.1
    }
}

/// A map from `K` to `V`.
#[derive(Debug)]
#[verifier::reject_recursive_types(K)]
pub struct Assoc<K: Key, V> {
    pairs: Vec<(K, V)>,
}

/// No key occurs twice.
pub open spec fn distinct_keys<K: Key, V>(pairs: Seq<(K, V)>) -> bool {
    forall|i: int, j: int|
        0 <= i < j < pairs.len() ==> (#[trigger] pairs[i]).0.model() != (
        #[trigger] pairs[j]).0.model()
}

/// The map that a list of pairs stands for.
pub open spec fn map_of<K: Key, V>(pairs: Seq<(K, V)>) -> Map<K::Model, V>
    decreases pairs.len(),
{
    if pairs.len() == 0 {
        Map::empty()
    } else {
        map_of(pairs.drop_last()).insert(pairs.last().0.model(), pairs.last().1)
    }
}

pub proof fn lemma_map_of<K: Key, V>(pairs: Seq<(K, V)>)
    requires
        distinct_keys(pairs),
    ensures
        forall|i: int|
            0 <= i < pairs.len() ==> {
                &&& map_of(pairs).contains_key((#[trigger] pairs[i]).0.model())
                &&& map_of(pairs)[pairs[i].0.model()] == pairs[i].1
            },
        forall|m: K::Model| #[trigger]
            map_of(pairs).contains_key(m) ==> exists|i: int|
                0 <= i < pairs.len() && (#[trigger] pairs[i]).0.model() == m,
    decreases pairs.len(),
{
    if pairs.len() > 0 {
        let front = pairs.drop_last();
        assert(distinct_keys(front)) by {
            assert forall|i: int, j: int| 0 <= i < j < front.len() implies (
            #[trigger] front[i]).0.model() != (#[trigger] front[j]).0.model() by {
                assert(front[i] == pairs[i] && front[j] == pairs[j]);
            }
        }
        lemma_map_of(front);
        assert forall|i: int| 0 <= i < pairs.len() implies {
            &&& map_of(pairs).contains_key((#[trigger] pairs[i]).0.model())
            &&& map_of(pairs)[pairs[i].0.model()] == pairs[i].1
        } by {
            if i < pairs.len() - 1 {
                assert(front[i] == pairs[i]);
                assert(pairs[i].0.model() != pairs[pairs.len() - 1].0.model());
            }
        }
        assert forall|m: K::Model| #[trigger] map_of(pairs).contains_key(m) implies exists|i: int|
            0 <= i < pairs.len() && (#[trigger] pairs[i]).0.model() == m by {
            if m == pairs.last().0.model() {
                assert(pairs[pairs.len() - 1].0.model() == m);
            } else {
                assert(map_of(front).contains_key(m));
                let i = choose|i: int|
                    0 <= i < front.len() && (#[trigger] front[i]).0.model() == m;
                assert(pairs[i] == front[i]);
            }
        }
    }
}

/// The map has as many keys as there are pairs.
pub proof fn lemma_map_count<K: Key, V>(pairs: Seq<(K, V)>)
    requires
        distinct_keys(pairs),
    ensures
        map_of(pairs).dom().finite(),
        map_of(pairs).dom().len() == pairs.len(),
    decreases pairs.len(),
{
    if pairs.len() > 0 {
        let front = pairs.drop_last();
        let key = pairs.last().0.model();
        assert forall|i: int, j: int| 0 <= i < j < front.len() implies (
        #[trigger] front[i]).0.model() != (#[trigger] front[j]).0.model() by {
            assert(front[i] == pairs[i] && front[j] == pairs[j]);
        }
        lemma_map_count(front);
        lemma_map_of(front);
        assert(!map_of(front).dom().contains(key)) by {
            if map_of(front).contains_key(key) {
                let i = choose|i: int|
                    0 <= i < front.len() && (#[trigger] front[i]).0.model() == key;
                assert(pairs[i].0.model() != pairs[pairs.len() - 1].0.model());
            }
        }
        assert(map_of(pairs).dom() =~= map_of(front).dom().insert(key));
    } else {
        assert(map_of(pairs).dom() =~= Set::empty());
    }
}

/// Without one pair the keys stay distinct, and the map is without its key.
proof fn lemma_remove_at<K: Key, V>(before: Seq<(K, V)>, at: int)
    requires
        distinct_keys(before),
        0 <= at < before.len(),
    ensures
        distinct_keys(before.remove(at)),
        map_of(before.remove(at)) == map_of(before).remove(before[at].0.model()),
{
    let after = before.remove(at);
    let key = before[at].0.model();
    assert forall|i: int, j: int| 0 <= i < j < after.len() implies (
    #[trigger] after[i]).0.model() != (#[trigger] after[j]).0.model() by {
        let p = if i < at { i } else { i + 1 };
        let q = if j < at { j } else { j + 1 };
        assert(after[i] == before[p] && after[j] == before[q]);
    }
    lemma_map_of(before);
    lemma_map_of(after);
    assert forall|m: K::Model| #[trigger] map_of(after).contains_key(m) == map_of(before).remove(
        key,
    ).contains_key(m) by {
        if map_of(after).contains_key(m) {
            let i = choose|i: int| 0 <= i < after.len() && (#[trigger] after[i]).0.model() == m;
            let p = if i < at { i } else { i + 1 };
            assert(after[i] == before[p]);
            assert(before[p].0.model() != before[at].0.model());
        }
        if map_of(before).contains_key(m) && m != key {
            let p = choose|p: int| 0 <= p < before.len() && (#[trigger] before[p]).0.model() == m;
            let i = if p < at { p } else { p - 1 };
            assert(after[i] == before[p]);
        }
    }
    assert forall|m: K::Model| #[trigger] map_of(after).contains_key(m) implies map_of(after)[m]
        == map_of(before)[m] by {
        let i = choose|i: int| 0 <= i < after.len() && (#[trigger] after[i]).0.model() == m;
        let p = if i < at { i } else { i + 1 };
        assert(after[i] == before[p]);
    }
    assert(map_of(after) =~= map_of(before).remove(key));
}

impl<K: Key, V> View for Assoc<K, V> {
    type V = Map<K::Model, V>;

    closed spec fn view(&self) -> Map<K::Model, V> {
        map_of(self.pairs@)
    }
}

impl<K: Key, V> Assoc<K, V> {
    #[verifier::type_invariant]
    spec fn keys_distinct(self) -> bool {
        distinct_keys(self.pairs@)
    }

    /// The pairs in the order in which [`Assoc::at`] gives them.
    pub closed spec fn listing(self) -> Seq<(K, V)> {
        self.pairs@
    }

    /// The empty map.
    #[must_use]
    pub fn new() -> (map: Self)
        ensures
            map@ == Map::<K::Model, V>::empty(),
            map.listing() == Seq::<(K, V)>::empty(),
    {
        Assoc { pairs: Vec::new() }
    }

    /// How many pairs there are.
    pub fn len(&self) -> (len: usize)
        ensures
            len == self.listing().len(),
            distinct_keys(self.listing()),
            self@ == map_of(self.listing()),
    {
        proof {
            use_type_invariant(self);
        }
        self.pairs.len()
    }

    /// The pair at a position.
    pub fn at(&self, i: usize) -> (pair: (&K, &V))
        requires
            i < self.listing().len(),
        ensures
            *pair.0 == self.listing()[i as int].0,
            *pair.1 == self.listing()[i as int].1,
    {
        (&self.pairs[i].0, &self.pairs[i].1)
    }

    fn position(&self, key: &K) -> (found: Option<usize>)
        ensures
            match found {
                Some(i) => i < self.pairs@.len() && self.pairs@[i as int].0.model() == key.model(),
                None => forall|j: int|
                    0 <= j < self.pairs@.len() ==> (#[trigger] self.pairs@[j]).0.model()
                        != key.model(),
            },
    {
        let mut i: usize = 0;
        while i < self.pairs.len()
            invariant
                i <= self.pairs@.len(),
                forall|j: int|
                    0 <= j < i ==> (#[trigger] self.pairs@[j]).0.model() != key.model(),
            decreases self.pairs@.len() - i,
        {
            if self.pairs[i].0.same(key) {
                return Some(i);
            }
            i = i + 1;
        }
        None
    }

    /// The value under a key.
    pub fn get(&self, key: &K) -> (found: Option<&V>)
        ensures
            match found {
                Some(v) => self@.contains_key(key.model()) && *v == self@[key.model()],
                None => !self@.contains_key(key.model()),
            },
    {
        proof {
            use_type_invariant(self);
            lemma_map_of(self.pairs@);
        }
        match self.position(key) {
            Some(i) => Some(&self.pairs[i].1),
            None => None,
        }
    }

    /// Whether a key is present.
    pub fn contains_key(&self, key: &K) -> (found: bool)
        ensures
            found == self@.contains_key(key.model()),
    {
        self.get(key).is_some()
    }

    /// Takes a key and its value out.
    pub fn remove(&mut self, key: &K) -> (taken: Option<V>)
        ensures
            final(self)@ == old(self)@.remove(key.model()),
            match taken {
                Some(v) => old(self)@.contains_key(key.model()) && v == old(self)@[key.model()],
                None => !old(self)@.contains_key(key.model()),
            },
    {
        proof {
            use_type_invariant(&*self);
            lemma_map_of(self.pairs@);
        }
        match self.position(key) {
            None => {
                assert(self@ =~= old(self)@.remove(key.model()));
                None
            },
            Some(at) => {
                let mut pairs: Vec<(K, V)> = Vec::new();
                std::mem::swap(&mut pairs, &mut self.pairs);
                let (_, value) = pairs.remove(at);
                proof {
                    lemma_remove_at(old(self).pairs@, at as int);
                }
                self.pairs = pairs;
                Some(value)
            },
        }
    }

    /// Takes the first pair out.
    pub fn pop_first(&mut self) -> (pair: (K, V))
        requires
            old(self).listing().len() > 0,
        ensures
            pair == old(self).listing()[0],
            final(self).listing() == old(self).listing().remove(0),
            old(self)@.contains_key(pair.0.model()),
            old(self)@[pair.0.model()] == pair.1,
            final(self)@ == old(self)@.remove(pair.0.model()),
    {
        proof {
            use_type_invariant(&*self);
            lemma_map_of(self.pairs@);
        }
        let mut pairs: Vec<(K, V)> = Vec::new();
        std::mem::swap(&mut pairs, &mut self.pairs);
        let pair = pairs.remove(0);
        proof {
            assert(old(self).pairs@[0] == pair);
            lemma_remove_at(old(self).pairs@, 0);
        }
        self.pairs = pairs;
        pair
    }

    /// Puts a value under a key, in place of the one that was there.
    pub fn insert(&mut self, key: K, value: V)
        ensures
            final(self)@ == old(self)@.insert(key.model(), value),
    {
        let ghost start = self@;
        let _ = self.remove(&key);
        let ghost cleared = self@;
        proof {
            use_type_invariant(&*self);
            lemma_map_of(self.pairs@);
        }
        let mut pairs: Vec<(K, V)> = Vec::new();
        std::mem::swap(&mut pairs, &mut self.pairs);
        let ghost before = pairs@;
        pairs.push((key, value));
        proof {
            let after = pairs@;
            assert(map_of(before) == cleared);
            assert forall|i: int, j: int| 0 <= i < j < after.len() implies (
            #[trigger] after[i]).0.model() != (#[trigger] after[j]).0.model() by {
                assert(after[i] == before[i]);
                if j < before.len() {
                    assert(after[j] == before[j]);
                } else {
                    assert(map_of(before).contains_key(before[i].0.model()));
                }
            }
            assert(after.drop_last() =~= before);
            assert(map_of(after) =~= start.insert(key.model(), value));
        }
        self.pairs = pairs;
    }
}

/// A map reads as it was set: a key gives its last value, a removed key gives none and
/// hands out its value, and the other keys stay as they were.
pub proof fn keys_read_as_set<K: Key, V>(
    setting: &mut Assoc<K, V>,
    key: K,
    value: V,
    set: &Assoc<K, V>,
    asked: &K,
    found: Option<&V>,
    removing: &mut Assoc<K, V>,
    taken: Option<V>,
    left: &Assoc<K, V>,
    still: bool,
)
    requires
        call_ensures(Assoc::<K, V>::insert, (setting, key, value), ()),
        *set == *final(setting),
        call_ensures(Assoc::<K, V>::get, (set, asked), found),
        *old(removing) == *final(setting),
        call_ensures(Assoc::<K, V>::remove, (removing, asked), taken),
        *left == *final(removing),
        call_ensures(Assoc::<K, V>::contains_key, (left, asked), still),
    ensures
        asked.model() == key.model() ==> (found matches Some(v) && *v == value),
        asked.model() != key.model() ==> match found {
            Some(v) => old(setting)@.contains_key(asked.model()) && old(setting)@[asked.model()]
                == *v,
            None => !old(setting)@.contains_key(asked.model()),
        },
        taken is Some <==> found is Some,
        taken matches Some(v) ==> v == *found->Some_0,
        !still,
        forall|other: K::Model|
            other != asked.model() ==> (#[trigger] final(removing)@.contains_key(other) <==> old(removing)@.contains_key(other)) && (old(removing)@.contains_key(other) ==> final(removing)@[other] == old(removing)@[other]),
{
}

} // verus!
