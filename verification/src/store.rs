//! The store: a map from keys to byte strings.
//!
//! A store is a plain value. Handlers that share one keep it behind a lock and
//! hold the lock for one `get` or one `set` at a time, so every operation sees
//! the store as some sequence of earlier operations left it.

use vstd::hash_map::StringHashMap;
use vstd::prelude::*;

verus! {

/// A map from text keys to byte-string values.
pub struct Store {
    entries: StringHashMap<Vec<u8>>,
}

impl View for Store {
    type V = Map<Seq<char>, Seq<u8>>;

    closed spec fn view(&self) -> Map<Seq<char>, Seq<u8>> {
        self.entries@.map_values(|value: Vec<u8>| value@)
    }
}

impl Store {
    /// A store without entries.
    pub fn new() -> (store: Store)
        ensures
            store@ == Map::<Seq<char>, Seq<u8>>::empty(),
    {
        let store = Store { entries: StringHashMap::new() };
        store
    }

    /// The value stored under `key`, if there is one.
    pub fn get(&self, key: &str) -> (r: Option<Vec<u8>>)
        ensures
            match r {
                Some(value) => self@.contains_key(key@) && value@ == self@[key@],
                None => !self@.contains_key(key@),
            },
    {
        match self.entries.get(key) {
            Some(value) => {
                let copy = value.clone();
                Some(copy)
            },
            None => None,
        }
    }

    /// Every value of a store is as long as a vector can be at most, and so
    /// fits the length field of a frame.
    pub proof fn lemma_values_fit(&self)
        ensures
            forall|key: Seq<char>|
                self@.contains_key(key) ==> (#[trigger] self@[key]).len() <= u64::MAX,
    {
        assert forall|key: Seq<char>| self@.contains_key(key) implies (#[trigger] self@[key]).len()
            <= u64::MAX by {
            let value = self.entries@[key];
            assert(value@.len() == value.len());
        }
    }

    /// Stores `value` under `key`, in place of what was stored there before.
    pub fn set(&mut self, key: String, value: Vec<u8>)
        ensures
            final(self)@ == old(self)@.insert(key@, value@),
    {
        self.entries.insert(key, value);
    }
}

/// One operation on a store, as the store sees it.
pub enum Operation {
    /// A `get` of a key.
    Get(Seq<char>),
    /// A `set` of a key to a value.
    Put(Seq<char>, Seq<u8>),
}

/// The store that `history` leaves, starting from the empty store.
pub open spec fn replay(history: Seq<Operation>) -> Map<Seq<char>, Seq<u8>>
    decreases history.len(),
{
    if history.len() == 0 {
        Map::empty()
    } else {
        match history.last() {
            Operation::Get(_) => replay(history.drop_last()),
            Operation::Put(key, value) => replay(history.drop_last()).insert(key, value),
        }
    }
}

impl Operation {
    /// Whether the operation is a `set` of `key`.
    pub open spec fn sets(self, key: Seq<char>) -> bool {
        match self {
            Operation::Get(_) => false,
            Operation::Put(k, _) => k == key,
        }
    }
}

/// Whether `history` holds a `set` of `key`.
pub open spec fn was_set(history: Seq<Operation>, key: Seq<char>) -> bool {
    exists|i: int| 0 <= i < history.len() && (#[trigger] history[i]).sets(key)
}

/// Whether `history` holds a `set` of `key` to `value`.
pub open spec fn was_set_to(history: Seq<Operation>, key: Seq<char>, value: Seq<u8>) -> bool {
    exists|i: int| 0 <= i < history.len() && #[trigger] history[i] == Operation::Put(key, value)
}

/// Whatever operations ran before, in whatever order the lock let them in,
/// a `get` finds a value only under a key that was set, and the value it
/// finds is one that the key was set to.
pub proof fn lemma_get_observes_a_set(history: Seq<Operation>, key: Seq<char>)
    ensures
        replay(history).contains_key(key) <==> was_set(history, key),
        replay(history).contains_key(key) ==> was_set_to(history, key, replay(history)[key]),
    decreases history.len(),
{
    if history.len() > 0 {
        let earlier = history.drop_last();
        lemma_get_observes_a_set(earlier, key);
        if was_set(earlier, key) {
            let i = choose|i: int| 0 <= i < earlier.len() && (#[trigger] earlier[i]).sets(key);
            let j = choose|j: int|
                0 <= j < earlier.len() && #[trigger] earlier[j] == Operation::Put(
                    key,
                    replay(earlier)[key],
                );
        }
        if was_set(history, key) {
            let i = choose|i: int| 0 <= i < history.len() && (#[trigger] history[i]).sets(key);
            if i < earlier.len() {
                assert(earlier[i] == history[i]);
            }
        }
        match history.last() {
            Operation::Get(_) => {},
            Operation::Put(k, v) => {
                if k == key {
                    assert(history[history.len() - 1] == Operation::Put(key, v));
                }
            },
        }
    }
}

/// Two `set`s of one key, in either order, leave one of the two values: a
/// `get` that follows them finds `first` or `second`, and nothing else.
pub proof fn lemma_two_sets_then_get(
    before: Map<Seq<char>, Seq<u8>>,
    key: Seq<char>,
    first: Seq<u8>,
    second: Seq<u8>,
)
    ensures
        before.insert(key, first).insert(key, second)[key] == second,
        before.insert(key, second).insert(key, first)[key] == first,
        before.insert(key, first).insert(key, second).contains_key(key),
        before.insert(key, second).insert(key, first).contains_key(key),
{
}

} // verus!
