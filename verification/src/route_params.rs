//! Parameters captured while a request path is matched against a route.

use crate::segments::same_text;
use vstd::prelude::*;

verus! {

/// The map that a list of key-value pairs stands for. Of two pairs with the
/// same key the later one counts.
pub open spec fn map_of(pairs: Seq<(Seq<char>, Seq<char>)>) -> Map<Seq<char>, Seq<char>>
    decreases pairs.len(),
{
    if pairs.len() == 0 {
        Map::empty()
    } else {
        map_of(pairs.drop_last()).insert(pairs.last().0, pairs.last().1)
    }
}

/// The views of stored pairs.
pub open spec fn pair_views(entries: Seq<(String, String)>) -> Seq<(Seq<char>, Seq<char>)> {
    entries.map_values(|e: (String, String)| (e.0@, e.1@))
}

/// No key occurs in two pairs.
pub open spec fn distinct_keys(pairs: Seq<(Seq<char>, Seq<char>)>) -> bool {
    forall|i: int, j: int| 0 <= i < j < pairs.len() ==> pairs[i].0 != pairs[j].0
}

/// A key that no pair holds is not in the map.
pub proof fn lemma_map_of_absent(pairs: Seq<(Seq<char>, Seq<char>)>, key: Seq<char>)
    requires
        forall|i: int| 0 <= i < pairs.len() ==> pairs[i].0 != key,
    ensures
        !map_of(pairs).contains_key(key),
    decreases pairs.len(),
{
    if pairs.len() > 0 {
        lemma_map_of_absent(pairs.drop_last(), key);
    }
}

/// A key of the map is the key of some pair; the lemma returns its position.
pub proof fn lemma_map_of_position(pairs: Seq<(Seq<char>, Seq<char>)>, key: Seq<char>) -> (at:
    int)
    requires
        map_of(pairs).contains_key(key),
    ensures
        0 <= at < pairs.len(),
        pairs[at].0 == key,
    decreases pairs.len(),
{
    if pairs.last().0 == key {
        pairs.len() - 1
    } else {
        lemma_map_of_position(pairs.drop_last(), key)
    }
}

/// With distinct keys, every pair is an entry of the map.
pub proof fn lemma_map_of_entry(pairs: Seq<(Seq<char>, Seq<char>)>, at: int)
    requires
        distinct_keys(pairs),
        0 <= at < pairs.len(),
    ensures
        map_of(pairs).contains_key(pairs[at].0),
        map_of(pairs)[pairs[at].0] == pairs[at].1,
    decreases pairs.len(),
{
    if at < pairs.len() - 1 {
        lemma_map_of_entry(pairs.drop_last(), at);
    }
}

/// With distinct keys, the map has as many entries as there are pairs.
pub proof fn lemma_map_of_len(pairs: Seq<(Seq<char>, Seq<char>)>)
    requires
        distinct_keys(pairs),
    ensures
        map_of(pairs).dom().finite(),
        map_of(pairs).len() == pairs.len(),
    decreases pairs.len(),
{
    if pairs.len() > 0 {
        let front = pairs.drop_last();
        lemma_map_of_len(front);
        assert forall|i: int| 0 <= i < front.len() implies front[i].0 != pairs.last().0 by {
            assert(front[i] == pairs[i]);
        }
        lemma_map_of_absent(front, pairs.last().0);
    }
}

/// With distinct keys, replacing the value of the pair at `at` replaces the
/// value of its key in the map.
pub proof fn lemma_map_of_update(
    pairs: Seq<(Seq<char>, Seq<char>)>,
    at: int,
    value: Seq<char>,
)
    requires
        distinct_keys(pairs),
        0 <= at < pairs.len(),
    ensures
        map_of(pairs.update(at, (pairs[at].0, value))) == map_of(pairs).insert(
            pairs[at].0,
            value,
        ),
    decreases pairs.len(),
{
    let key = pairs[at].0;
    let updated = pairs.update(at, (key, value));
    if at == pairs.len() - 1 {
        assert(updated.drop_last() =~= pairs.drop_last());
        assert(map_of(updated) =~= map_of(pairs).insert(key, value));
    } else {
        lemma_map_of_update(pairs.drop_last(), at, value);
        assert(updated.drop_last() =~= pairs.drop_last().update(at, (key, value)));
        assert(pairs.last().0 != key);
        assert(map_of(updated) =~= map_of(pairs).insert(key, value));
    }
}

/// The captures of one match: a finite map from parameter name to the text
/// captured for it.
#[derive(Debug)]
pub struct RouteParams {
    entries: Vec<(String, String)>,
}

impl View for RouteParams {
    type V = Map<Seq<char>, Seq<char>>;

    closed spec fn view(&self) -> Map<Seq<char>, Seq<char>> {
        map_of(pair_views(self.entries@))
    }
}

impl RouteParams {
    #[verifier::type_invariant]
    spec fn keys_are_distinct(&self) -> bool {
        distinct_keys(pair_views(self.entries@))
    }

    /// The empty map.
    pub fn new() -> (params: RouteParams)
        ensures
            params@ == Map::<Seq<char>, Seq<char>>::empty(),
    {
        RouteParams { entries: Vec::new() }
    }

    /// The number of parameters.
    pub fn len(&self) -> (n: usize)
        ensures
            self@.dom().finite(),
            n == self@.len(),
    {
        proof {
            use_type_invariant(self);
            lemma_map_of_len(pair_views(self.entries@));
        }
        self.entries.len()
    }

    /// Position of the entry for `key`, if there is one.
    fn position(&self, key: &str) -> (found: Option<usize>)
        ensures
            match found {
                Some(at) => at < self.entries.len() && self.entries@[at as int].0@ == key@,
                None => forall|i: int|
                    0 <= i < self.entries.len() ==> self.entries@[i].0@ != key@,
            },
    {
        let mut i: usize = 0;
        while i < self.entries.len()
            invariant
                i <= self.entries.len(),
                forall|j: int| 0 <= j < i ==> self.entries@[j].0@ != key@,
            decreases self.entries.len() - i,
        {
            if same_text(self.entries[i].0.as_str(), key) {
                return Some(i);
            }
            i += 1;
        }
        None
    }

    /// The value stored for `key`, if there is one.
    pub fn get(&self, key: &str) -> (value: Option<&String>)
        ensures
            match value {
                Some(v) => self@.contains_key(key@) && self@[key@] == v@,
                None => !self@.contains_key(key@),
            },
    {
        proof {
            use_type_invariant(self);
        }
        match self.position(key) {
            Some(at) => {
                proof {
                    lemma_map_of_entry(pair_views(self.entries@), at as int);
                }
                Some(&self.entries[at].1)
            },
            None => {
                proof {
                    lemma_map_of_absent(pair_views(self.entries@), key@);
                }
                None
            },
        }
    }

    /// Stores `value` under `key`, in place of any value stored there before.
    pub fn insert(&mut self, key: String, value: String)
        ensures
            final(self)@ == old(self)@.insert(key@, value@),
    {
        proof {
            use_type_invariant(&*self);
        }
        let ghost before = pair_views(self.entries@);
        let found = self.position(key.as_str());
        let mut entries: Vec<(String, String)> = Vec::new();
        core::mem::swap(&mut self.entries, &mut entries);
        match found {
            Some(at) => {
                proof {
                    lemma_map_of_update(before, at as int, value@);
                }
                entries[at] = (key, value);
                assert(pair_views(entries@) =~= before.update(
                    at as int,
                    (before[at as int].0, value@),
                ));
            },
            None => {
                entries.push((key, value));
                assert(pair_views(entries@) =~= before.push((key@, value@)));
                assert(pair_views(entries@).drop_last() =~= before);
            },
        }
        self.entries = entries;
    }

    /// Whether every parameter of `self` is one of `other`, with the same
    /// value.
    pub fn is_submap_of(&self, other: &RouteParams) -> (within: bool)
        ensures
            within == self@.submap_of(other@),
    {
        proof {
            use_type_invariant(self);
        }
        let ghost pairs = pair_views(self.entries@);
        let mut i: usize = 0;
        while i < self.entries.len()
            invariant
                i <= self.entries.len(),
                pairs == pair_views(self.entries@),
                distinct_keys(pairs),
                forall|j: int|
                    0 <= j < i ==> other@.contains_key(#[trigger] pairs[j].0) && other@[pairs[j].0]
                        == pairs[j].1,
            decreases self.entries.len() - i,
        {
            proof {
                lemma_map_of_entry(pairs, i as int);
            }
            let agrees = match other.get(self.entries[i].0.as_str()) {
                Some(value) => *value == self.entries[i].1,
                None => false,
            };
            if !agrees {
                return false;
            }
            i += 1;
        }
        proof {
            assert forall|key: Seq<char>| #[trigger]
                self@.dom().contains(key) implies other@.dom().contains(key) && self@[key]
                == other@[key] by {
                let at = lemma_map_of_position(pairs, key);
                lemma_map_of_entry(pairs, at);
                assert(other@.contains_key(pairs[at].0));
            }
        }
        true
    }
}

impl PartialEq for RouteParams {
    /// Two sets of parameters are equal when they are the same map.
    fn eq(&self, other: &RouteParams) -> (same: bool) {
        let forth = self.is_submap_of(other);
        let back = other.is_submap_of(self);
        proof {
            self@.lemma_submap_eq_iff(other@);
        }
        forth && back
    }
}

impl vstd::std_specs::cmp::PartialEqSpecImpl for RouteParams {
    open spec fn obeys_eq_spec() -> bool {
        true
    }

    open spec fn eq_spec(&self, other: &RouteParams) -> bool {
        self@ == other@
    }
}

} // verus!
