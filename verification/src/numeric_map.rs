use crate::error::ConstructionError;
use crate::key_index::{is_first_duplicate, key_views, KeyIndex};
use crate::operation::Operation;
use crate::shared::{same_allocation, share};
use std::sync::Arc;
use vstd::prelude::*;

verus! {

/// The keys of a sequence of entries, by their views and in order.
pub open spec fn entry_keys<V>(entries: Seq<(String, V)>) -> Seq<Seq<char>> {
    Seq::new(entries.len(), |i: int| entries[i].0@)
}

/// The values of a sequence of entries, in order.
pub open spec fn entry_values<V>(entries: Seq<(String, V)>) -> Seq<V> {
    Seq::new(entries.len(), |i: int| entries[i].1)
}

/// A sequence of entries with each key taken by its view.
pub open spec fn entry_views<V>(entries: Seq<(String, V)>) -> Seq<(Seq<char>, V)> {
    Seq::new(entries.len(), |i: int| (entries[i].0@, entries[i].1))
}

/// The mapping that gives each key the value at the position of the key.
pub open spec fn mapping_of<V>(keys: Seq<Seq<char>>, values: Seq<V>) -> Map<Seq<char>, V> {
    Map::new(|key: Seq<char>| keys.contains(key), |key: Seq<char>| values[keys.index_of(key)])
}

/// An immutable mapping from string keys to values of type `V`.
///
/// A map is a key index and a buffer of values, one value for each position
/// of the index. Both are held through counted handles, so that maps can
/// share them. Every operation borrows its operands, gives a new map and
/// writes only into a buffer that no other map holds.
pub struct NumericMap<V> {
    index: Arc<KeyIndex>,
    values: Arc<Vec<V>>,
}

impl<V> View for NumericMap<V> {
    type V = Map<Seq<char>, V>;

    /// The mapping from each key to its value.
    open spec fn view(&self) -> Map<Seq<char>, V> {
        mapping_of(self.keys(), self.values())
    }
}

impl<V> NumericMap<V> {
    /// The keys in position order.
    pub closed spec fn keys(&self) -> Seq<Seq<char>> {
        self.index.keys()
    }

    /// The values in position order.
    pub closed spec fn values(&self) -> Seq<V> {
        self.values@
    }

    /// The index is a bijection between the keys and the positions of the
    /// value buffer.
    #[verifier::type_invariant]
    pub closed spec fn wf(&self) -> bool {
        &&& self.index.wf()
        &&& self.values@.len() == self.index.keys().len()
    }

    /// The map holds the entries of `entries`, each at the position at which
    /// it stands there.
    pub open spec fn holds(&self, entries: Seq<(String, V)>) -> bool {
        &&& self.keys() == entry_keys(entries)
        &&& self.values() == entry_values(entries)
    }

    /// The value that stands for `key` as a right operand: the value of
    /// `key` where the map holds the key, else `fill`.
    pub open spec fn value_or(&self, key: Seq<char>, fill: V) -> V {
        if self@.contains_key(key) {
            self@[key]
        } else {
            fill
        }
    }

    /// What well-formedness means for the keys and the values.
    pub proof fn lemma_wf(&self)
        requires
            self.wf(),
        ensures
            self.keys().no_duplicates(),
            self.values().len() == self.keys().len(),
    {
        self.index.lemma_keys_distinct();
    }

    /// The mapping holds each key with the value at the position of the key.
    pub proof fn lemma_value_at(&self, position: int)
        requires
            self.wf(),
            0 <= position < self.keys().len(),
        ensures
            self@.contains_key(self.keys()[position]),
            self@[self.keys()[position]] == self.values()[position],
    {
        self.lemma_wf();
        let key = self.keys()[position];
        assert(self.keys().contains(key));
        assert(self.keys().index_of(key) == position);
    }
}

impl<V: Copy> NumericMap<V> {
    /// `r` has the layout of `self`, and each of its values is a result of
    /// `op` on the value of `self` at that position and `x`.
    pub open spec fn scalar_applied<F: Fn(V, V) -> V>(
        &self,
        x: V,
        op: &Operation<V, F>,
        r: &Self,
    ) -> bool {
        &&& r.keys() == self.keys()
        &&& r.values().len() == self.values().len()
        &&& forall|i: int|
            0 <= i < self.values().len() ==> op.yields(
                self.values()[i],
                x,
                #[trigger] r.values()[i],
            )
    }

    /// `r` has the layout of `self`, and each of its values is a result of
    /// `op` on the value of `self` at that position and the value that
    /// `other` holds for the key at that position, or `fill` where `other`
    /// does not hold the key.
    pub open spec fn merged<F: Fn(V, V) -> V>(
        &self,
        other: &Self,
        fill: V,
        op: &Operation<V, F>,
        r: &Self,
    ) -> bool {
        &&& r.keys() == self.keys()
        &&& r.values().len() == self.values().len()
        &&& forall|i: int|
            0 <= i < self.values().len() ==> op.yields(
                self.values()[i],
                other.value_or(self.keys()[i], fill),
                #[trigger] r.values()[i],
            )
    }

    /// `r` has the layout of `self`, and each of its values is a result of
    /// `op` on the values of `self` and of `other` at that position.
    pub open spec fn merged_by_position<F: Fn(V, V) -> V>(
        &self,
        other: &Self,
        op: &Operation<V, F>,
        r: &Self,
    ) -> bool {
        &&& r.keys() == self.keys()
        &&& r.values().len() == self.values().len()
        &&& forall|i: int|
            0 <= i < self.values().len() ==> op.yields(
                self.values()[i],
                other.values()[i],
                #[trigger] r.values()[i],
            )
    }

    /// Where `other` has the layout of `self`, its value for the key at a
    /// position of `self` is its value at that position, whatever the fill
    /// value is.
    pub proof fn lemma_aligned_operands(&self, other: &Self, fill: V)
        requires
            self.wf(),
            other.wf(),
            self.keys() == other.keys(),
        ensures
            other.values().len() == self.values().len(),
            forall|i: int|
                0 <= i < self.values().len() ==> other.value_or(#[trigger] self.keys()[i], fill)
                    == other.values()[i],
    {
        self.lemma_wf();
        other.lemma_wf();
        assert forall|i: int| 0 <= i < self.values().len() implies other.value_or(
            #[trigger] self.keys()[i],
            fill,
        ) == other.values()[i] by {
            other.lemma_value_at(i);
        }
    }

    /// A scalar operation read key by key: the result holds exactly the keys
    /// of `self`, each with a result of `op` on its value in `self` and `x`.
    pub proof fn lemma_scalar_applied_by_key<F: Fn(V, V) -> V>(
        &self,
        x: V,
        op: &Operation<V, F>,
        r: &Self,
    )
        requires
            self.wf(),
            r.wf(),
            self.scalar_applied(x, op, r),
        ensures
            r@.dom() == self@.dom(),
            forall|key: Seq<char>| #[trigger]
                self@.contains_key(key) ==> op.yields(self@[key], x, r@[key]),
    {
        assert(r@.dom() =~= self@.dom());
        assert forall|key: Seq<char>| #[trigger] self@.contains_key(key) implies op.yields(
            self@[key],
            x,
            r@[key],
        ) by {
            let i = self.keys().index_of(key);
            self.lemma_value_at(i);
            r.lemma_value_at(i);
            assert(op.yields(self.values()[i], x, r.values()[i]));
        }
    }

    /// A merge read key by key: the result holds exactly the keys of `self`,
    /// each with a result of `op` on the value of the key in `self` and the
    /// value that stands for the key in `other`.
    pub proof fn lemma_merged_by_key<F: Fn(V, V) -> V>(
        &self,
        other: &Self,
        fill: V,
        op: &Operation<V, F>,
        r: &Self,
    )
        requires
            self.wf(),
            r.wf(),
            self.merged(other, fill, op, r),
        ensures
            r@.dom() == self@.dom(),
            forall|key: Seq<char>| #[trigger]
                self@.contains_key(key) ==> op.yields(
                    self@[key],
                    other.value_or(key, fill),
                    r@[key],
                ),
    {
        assert(r@.dom() =~= self@.dom());
        assert forall|key: Seq<char>| #[trigger] self@.contains_key(key) implies op.yields(
            self@[key],
            other.value_or(key, fill),
            r@[key],
        ) by {
            let i = self.keys().index_of(key);
            self.lemma_value_at(i);
            r.lemma_value_at(i);
            assert(op.yields(
                self.values()[i],
                other.value_or(self.keys()[i], fill),
                r.values()[i],
            ));
        }
    }

    /// Builds the map that holds `entries`: the entry at position `i` of
    /// `entries` gets position `i`. Entries with a repeated key are no
    /// mapping: the first repetition is reported and no map is built.
    pub fn construct(entries: Vec<(String, V)>) -> (r: Result<Self, ConstructionError>)
        ensures
            match r {
                Ok(map) => entry_keys(entries@).no_duplicates() && map.holds(entries@),
                Err(ConstructionError::DuplicateKey(position)) => is_first_duplicate(
                    entry_keys(entries@),
                    position as int,
                ),
            },
    {
        let mut keys: Vec<String> = Vec::new();
        let mut values: Vec<V> = Vec::new();
        let mut i: usize = 0;
        while i < entries.len()
            invariant
                0 <= i <= entries@.len(),
                keys@.len() == i,
                values@.len() == i,
                forall|j: int| 0 <= j < i ==> (#[trigger] keys@[j])@ == entries@[j].0@,
                forall|j: int| 0 <= j < i ==> #[trigger] values@[j] == entries@[j].1,
            decreases entries.len() - i,
        {
            keys.push(entries[i].0.clone());
            values.push(entries[i].1);
            i += 1;
        }
        assert(key_views(keys@) =~= entry_keys(entries@));
        assert(values@ =~= entry_values(entries@));
        match KeyIndex::build(keys) {
            Ok(index) => {
                proof {
                    use_type_invariant(&index);
                }
                Ok(NumericMap { index: Arc::new(index), values: Arc::new(values) })
            },
            Err(error) => Err(error),
        }
    }

    /// The entries of the map in position order.
    pub fn export(&self) -> (entries: Vec<(String, V)>)
        ensures
            self.holds(entries@),
    {
        proof {
            use_type_invariant(self);
        }
        let mut entries: Vec<(String, V)> = Vec::new();
        let mut i: usize = 0;
        while i < self.values.len()
            invariant
                self.wf(),
                0 <= i <= self.values@.len(),
                entries@.len() == i,
                forall|j: int| 0 <= j < i ==> (#[trigger] entries@[j]).0@ == self.keys()[j],
                forall|j: int| 0 <= j < i ==> (#[trigger] entries@[j]).1 == self.values()[j],
            decreases self.values.len() - i,
        {
            entries.push((self.index.key(i).clone(), self.values[i]));
            i += 1;
        }
        assert(entry_keys(entries@) =~= self.keys());
        assert(entry_values(entries@) =~= self.values());
        entries
    }

    /// A buffer of its own with the values of the map, for an operation to
    /// write into while every handle goes on reading the shared one.
    fn detached_values(&self) -> (buffer: Vec<V>)
        ensures
            buffer@ == self.values(),
    {
        let mut buffer: Vec<V> = Vec::new();
        let mut i: usize = 0;
        while i < self.values.len()
            invariant
                0 <= i <= self.values@.len(),
                buffer@.len() == i,
                forall|j: int| 0 <= j < i ==> #[trigger] buffer@[j] == self.values@[j],
            decreases self.values.len() - i,
        {
            buffer.push(self.values[i]);
            i += 1;
        }
        assert(buffer@ =~= self.values@);
        buffer
    }

    /// The map with the keys of `self`, each with the value `x`. The result
    /// shares the index of `self`.
    pub fn reset(&self, x: V) -> (r: Self)
        ensures
            r.keys() == self.keys(),
            r.values() == Seq::new(self.values().len(), |i: int| x),
            r@.dom() == self@.dom(),
            forall|key: Seq<char>| #[trigger] r@.contains_key(key) ==> r@[key] == x,
    {
        proof {
            use_type_invariant(self);
        }
        let mut buffer: Vec<V> = Vec::new();
        let mut i: usize = 0;
        while i < self.values.len()
            invariant
                0 <= i <= self.values@.len(),
                buffer@.len() == i,
                forall|j: int| 0 <= j < i ==> #[trigger] buffer@[j] == x,
            decreases self.values.len() - i,
        {
            buffer.push(x);
            i += 1;
        }
        assert(buffer@ =~= Seq::new(self.values().len(), |i: int| x));
        let r = NumericMap { index: share(&self.index), values: Arc::new(buffer) };
        proof {
            assert(r@.dom() =~= self@.dom());
            assert forall|key: Seq<char>| #[trigger] r@.contains_key(key) implies r@[key] == x by {
                r.lemma_value_at(r.keys().index_of(key));
            }
        }
        r
    }

    /// Applies `op` to every value of the map, with `x` as the right operand.
    /// The result shares the index of `self`.
    pub fn apply_scalar<F: Fn(V, V) -> V>(&self, x: V, op: &Operation<V, F>) -> (r: Self)
        requires
            forall|i: int|
                0 <= i < self.values().len() ==> op.accepts(#[trigger] self.values()[i], x),
        ensures
            self.scalar_applied(x, op, &r),
            r@.dom() == self@.dom(),
            forall|key: Seq<char>| #[trigger]
                self@.contains_key(key) ==> op.yields(self@[key], x, r@[key]),
    {
        proof {
            use_type_invariant(self);
        }
        let mut buffer = self.detached_values();
        let mut i: usize = 0;
        while i < buffer.len()
            invariant
                0 <= i <= buffer@.len(),
                buffer@.len() == self.values().len(),
                forall|j: int|
                    0 <= j < self.values().len() ==> op.accepts(#[trigger] self.values()[j], x),
                forall|j: int|
                    0 <= j < i ==> op.yields(self.values()[j], x, #[trigger] buffer@[j]),
                forall|j: int| i <= j < buffer@.len() ==> #[trigger] buffer@[j] == self.values()[j],
            decreases buffer.len() - i,
        {
            let value = op.call(buffer[i], x);
            buffer.set(i, value);
            i += 1;
        }
        let r = NumericMap { index: share(&self.index), values: Arc::new(buffer) };
        proof {
            self.lemma_scalar_applied_by_key(x, op, &r);
        }
        r
    }

    /// The merge of operands of one layout: a pass over the two value
    /// buffers, position by position, that looks no key up.
    fn merge_aligned<F: Fn(V, V) -> V>(&self, other: &Self, op: &Operation<V, F>) -> (r: Self)
        requires
            self.keys() == other.keys(),
            forall|i: int|
                0 <= i < self.values().len() ==> op.accepts(
                    #[trigger] self.values()[i],
                    other.values()[i],
                ),
        ensures
            self.merged_by_position(other, op, &r),
    {
        proof {
            use_type_invariant(self);
            use_type_invariant(other);
        }
        let mut buffer = self.detached_values();
        let mut i: usize = 0;
        while i < buffer.len()
            invariant
                0 <= i <= buffer@.len(),
                buffer@.len() == self.values().len(),
                other.values@.len() == self.values().len(),
                other.values@ == other.values(),
                forall|j: int|
                    0 <= j < self.values().len() ==> op.accepts(
                        #[trigger] self.values()[j],
                        other.values()[j],
                    ),
                forall|j: int|
                    0 <= j < i ==> op.yields(
                        self.values()[j],
                        other.values()[j],
                        #[trigger] buffer@[j],
                    ),
                forall|j: int| i <= j < buffer@.len() ==> #[trigger] buffer@[j] == self.values()[j],
            decreases buffer.len() - i,
        {
            let value = op.call(buffer[i], other.values[i]);
            buffer.set(i, value);
            i += 1;
        }
        NumericMap { index: share(&self.index), values: Arc::new(buffer) }
    }

    /// The merge by lookup: for each key of `self`, `op` on its value and
    /// the value that `other` holds for the key, or `fill` where `other`
    /// does not hold it. Keys that only `other` holds are passed over. The
    /// result shares the index of `self`.
    pub fn merge_by_key<F: Fn(V, V) -> V>(
        &self,
        other: &Self,
        fill: V,
        op: &Operation<V, F>,
    ) -> (r: Self)
        requires
            forall|i: int|
                0 <= i < self.values().len() ==> op.accepts(
                    #[trigger] self.values()[i],
                    other.value_or(self.keys()[i], fill),
                ),
        ensures
            self.merged(other, fill, op, &r),
            r@.dom() == self@.dom(),
            forall|key: Seq<char>| #[trigger]
                self@.contains_key(key) ==> op.yields(
                    self@[key],
                    other.value_or(key, fill),
                    r@[key],
                ),
    {
        proof {
            use_type_invariant(self);
            use_type_invariant(other);
        }
        let mut buffer = self.detached_values();
        let mut i: usize = 0;
        while i < buffer.len()
            invariant
                self.wf(),
                other.wf(),
                0 <= i <= buffer@.len(),
                buffer@.len() == self.values().len(),
                forall|j: int|
                    0 <= j < self.values().len() ==> op.accepts(
                        #[trigger] self.values()[j],
                        other.value_or(self.keys()[j], fill),
                    ),
                forall|j: int|
                    0 <= j < i ==> op.yields(
                        self.values()[j],
                        other.value_or(self.keys()[j], fill),
                        #[trigger] buffer@[j],
                    ),
                forall|j: int| i <= j < buffer@.len() ==> #[trigger] buffer@[j] == self.values()[j],
            decreases buffer.len() - i,
        {
            let key = self.index.key(i);
            let operand = match other.index.position_of(key.as_str()) {
                Some(position) => {
                    proof {
                        other.lemma_value_at(position as int);
                    }
                    other.values[position]
                },
                None => fill,
            };
            assert(operand == other.value_or(self.keys()[i as int], fill));
            let value = op.call(buffer[i], operand);
            buffer.set(i, value);
            i += 1;
        }
        let r = NumericMap { index: share(&self.index), values: Arc::new(buffer) };
        proof {
            self.lemma_merged_by_key(other, fill, op, &r);
        }
        r
    }

    /// Combines the maps key by key: for each key of `self`, `op` on its
    /// value and the value that `other` holds for the key, or the fill value
    /// where `other` does not hold it. The fill value is `fill`, or the
    /// identity element of `op` where none is given. The result has the keys
    /// of `self`, whatever keys `other` holds, and shares the index of `self`.
    ///
    /// Operands of one layout are combined position by position without a
    /// lookup, which gives what the lookup gives.
    pub fn merge<F: Fn(V, V) -> V>(
        &self,
        other: &Self,
        fill: Option<V>,
        op: &Operation<V, F>,
    ) -> (r: Self)
        requires
            forall|i: int|
                0 <= i < self.values().len() ==> op.accepts(
                    #[trigger] self.values()[i],
                    other.value_or(self.keys()[i], op.fill_or_identity(fill)),
                ),
        ensures
            self.merged(other, op.fill_or_identity(fill), op, &r),
            r@.dom() == self@.dom(),
            forall|key: Seq<char>| #[trigger]
                self@.contains_key(key) ==> op.yields(
                    self@[key],
                    other.value_or(key, op.fill_or_identity(fill)),
                    r@[key],
                ),
    {
        proof {
            use_type_invariant(self);
            use_type_invariant(other);
        }
        let fill = match fill {
            Some(value) => value,
            None => op.identity,
        };
        if same_allocation(&self.index, &other.index) || self.index.same_layout(&other.index) {
            proof {
                self.lemma_aligned_operands(other, fill);
            }
            let r = self.merge_aligned(other, op);
            proof {
                use_type_invariant(&r);
                self.lemma_merged_by_key(other, fill, op, &r);
            }
            r
        } else {
            self.merge_by_key(other, fill, op)
        }
    }

    /// Folds the values with `op`, in position order and starting from the
    /// identity element of `op`: their sum for addition, their product for
    /// multiplication, and the identity element itself for a map without
    /// keys.
    pub fn reduce<F: Fn(V, V) -> V>(&self, op: &Operation<V, F>) -> (acc: V)
        requires
            forall|i: int, before: V|
                0 <= i < self.values().len() && #[trigger] op.folds(self.values().take(i), before)
                    ==> op.accepts(before, self.values()[i]),
        ensures
            op.folds(self.values(), acc),
            self.values().len() == 0 ==> acc == op.identity,
    {
        let mut acc = op.identity;
        let mut i: usize = 0;
        while i < self.values.len()
            invariant
                0 <= i <= self.values@.len(),
                self.values@ == self.values(),
                forall|j: int, before: V|
                    0 <= j < self.values().len() && #[trigger] op.folds(
                        self.values().take(j),
                        before,
                    ) ==> op.accepts(before, self.values()[j]),
                op.folds(self.values().take(i as int), acc),
            decreases self.values.len() - i,
        {
            let ghost before = acc;
            acc = op.call(acc, self.values[i]);
            proof {
                let head = self.values().take(i + 1);
                assert(head.drop_last() =~= self.values().take(i as int));
                assert(op.yields(before, head.last(), acc));
            }
            i += 1;
        }
        assert(self.values().take(i as int) =~= self.values());
        acc
    }
}

impl<V: Copy> Clone for NumericMap<V> {
    /// A second handle to the same index and the same values.
    fn clone(&self) -> (r: Self)
        ensures
            r == *self,
    {
        proof {
            use_type_invariant(self);
        }
        NumericMap { index: share(&self.index), values: share(&self.values) }
    }
}

} // verus!
