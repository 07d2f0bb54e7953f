use crate::error::ConstructionError;
use vstd::hash_map::StringHashMap;
use vstd::prelude::*;

verus! {

/// The views of a sequence of keys, position by position.
pub open spec fn key_views(keys: Seq<String>) -> Seq<Seq<char>> {
    Seq::new(keys.len(), |i: int| keys[i]@)
}

/// `position` is the least position whose key repeats the key of an earlier
/// position.
pub open spec fn is_first_duplicate(keys: Seq<Seq<char>>, position: int) -> bool {
    &&& 0 <= position < keys.len()
    &&& keys.take(position).no_duplicates()
    &&& keys.take(position).contains(keys[position])
}

/// `positions` maps each of the first `n` keys to the position at which it
/// stands, and maps nothing else.
pub open spec fn locates(positions: Map<Seq<char>, usize>, keys: Seq<Seq<char>>, n: int) -> bool {
    &&& forall|i: int|
        0 <= i < n ==> positions.contains_key(#[trigger] keys[i]) && positions[keys[i]] == i
    &&& forall|k: Seq<char>| #[trigger]
        positions.contains_key(k) ==> 0 <= positions[k] < n && keys[positions[k] as int] == k
}

/// Keys that a map locates do not repeat.
pub proof fn lemma_located_keys_distinct(
    positions: Map<Seq<char>, usize>,
    keys: Seq<Seq<char>>,
    n: int,
)
    requires
        0 <= n <= keys.len(),
        locates(positions, keys, n),
    ensures
        keys.take(n).no_duplicates(),
{
    let head = keys.take(n);
    assert forall|i: int, j: int| 0 <= i < n && 0 <= j < n && i != j implies head[i] != head[j] by {
        assert(positions[keys[i]] == i);
        assert(positions[keys[j]] == j);
    }
}

/// A bijection between a set of keys and the positions `0..len`.
///
/// The keys are held once by position and once in a hash table that maps
/// each key back to its position.
pub struct KeyIndex {
    keys: Vec<String>,
    positions: StringHashMap<usize>,
}

impl KeyIndex {
    /// The keys in position order.
    pub closed spec fn keys(&self) -> Seq<Seq<char>> {
        key_views(self.keys@)
    }

    /// The hash table locates every key, and nothing but the keys.
    #[verifier::type_invariant]
    pub closed spec fn wf(&self) -> bool {
        locates(self.positions@, key_views(self.keys@), self.keys@.len() as int)
    }

    /// In a well-formed index no key stands at two positions.
    pub proof fn lemma_keys_distinct(&self)
        requires
            self.wf(),
        ensures
            self.keys().no_duplicates(),
    {
        lemma_located_keys_distinct(self.positions@, self.keys(), self.keys().len() as int);
        assert(self.keys().take(self.keys().len() as int) =~= self.keys());
    }

    /// Builds the index that gives each key the position at which it stands
    /// in `keys`, or reports the first key that repeats an earlier one.
    pub fn build(keys: Vec<String>) -> (r: Result<KeyIndex, ConstructionError>)
        ensures
            match r {
                Ok(index) => index.keys() == key_views(keys@) && key_views(keys@).no_duplicates(),
                Err(ConstructionError::DuplicateKey(position)) => is_first_duplicate(
                    key_views(keys@),
                    position as int,
                ),
            },
    {
        let ghost views = key_views(keys@);
        let mut positions: StringHashMap<usize> = StringHashMap::new();
        let mut i: usize = 0;
        while i < keys.len()
            invariant
                0 <= i <= keys@.len(),
                views == key_views(keys@),
                locates(positions@, views, i as int),
            decreases keys.len() - i,
        {
            let key = &keys[i];
            assert(key@ == views[i as int]);
            if positions.contains_key(key.as_str()) {
                proof {
                    lemma_located_keys_distinct(positions@, views, i as int);
                    let p = positions@[key@] as int;
                    assert(views.take(i as int)[p] == views[i as int]);
                }
                return Err(ConstructionError::DuplicateKey(i));
            }
            let ghost before = positions@;
            positions.insert(key.clone(), i);
            proof {
                assert forall|j: int| 0 <= j < i + 1 implies positions@.contains_key(
                    #[trigger] views[j],
                ) && positions@[views[j]] == j by {
                    if j < i {
                        assert(before.contains_key(views[j]));
                    }
                }
                assert forall|k: Seq<char>| #[trigger] positions@.contains_key(k) implies 0
                    <= positions@[k] < i + 1 && views[positions@[k] as int] == k by {
                    if k != views[i as int] {
                        assert(before.contains_key(k));
                    }
                }
            }
            i += 1;
        }
        let index = KeyIndex { keys, positions };
        proof {
            index.lemma_keys_distinct();
        }
        Ok(index)
    }

    /// The number of keys.
    pub fn len(&self) -> (n: usize)
        ensures
            n == self.keys().len(),
    {
        self.keys.len()
    }

    /// The key that stands at `position`.
    pub fn key(&self, position: usize) -> (key: &String)
        requires
            position < self.keys().len(),
        ensures
            key@ == self.keys()[position as int],
    {
        &self.keys[position]
    }

    /// The position at which `key` stands, if it stands in the index.
    pub fn position_of(&self, key: &str) -> (r: Option<usize>)
        ensures
            match r {
                Some(position) => position < self.keys().len() && self.keys()[position as int]
                    == key@,
                None => !self.keys().contains(key@),
            },
    {
        proof {
            use_type_invariant(self);
        }
        match self.positions.get(key) {
            Some(position) => Some(*position),
            None => {
                assert forall|i: int| 0 <= i < self.keys().len() implies self.keys()[i]
                    != key@ by {
                    assert(self.positions@.contains_key(self.keys()[i]));
                }
                None
            },
        }
    }

    /// Whether both indexes hold the same keys at the same positions.
    pub fn same_layout(&self, other: &KeyIndex) -> (r: bool)
        ensures
            r == (self.keys() == other.keys()),
    {
        if self.keys.len() != other.keys.len() {
            assert(self.keys().len() != other.keys().len());
            return false;
        }
        let mut i: usize = 0;
        while i < self.keys.len()
            invariant
                0 <= i <= self.keys@.len(),
                self.keys@.len() == other.keys@.len(),
                forall|j: int| 0 <= j < i ==> self.keys()[j] == other.keys()[j],
            decreases self.keys.len() - i,
        {
            if self.keys[i] != other.keys[i] {
                assert(self.keys()[i as int] != other.keys()[i as int]);
                return false;
            }
            i += 1;
        }
        assert(self.keys() =~= other.keys());
        true
    }
}

} // verus!
