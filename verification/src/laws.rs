//! What holds of the maps and their operations, whatever the values and the
//! operation are.

use crate::numeric_map::{entry_keys, entry_values, entry_views, mapping_of, NumericMap};
use crate::operation::Operation;
use vstd::prelude::*;

verus! {

/// Construction and export are inverse to each other: the entries that a map
/// exports are the entries it was constructed from, pair for pair, and so
/// they are the same set of pairs and the same mapping.
pub proof fn lemma_export_returns_entries<V>(
    map: &NumericMap<V>,
    entries: Seq<(String, V)>,
    exported: Seq<(String, V)>,
)
    requires
        map.holds(entries),
        map.holds(exported),
    ensures
        entry_views(exported) == entry_views(entries),
        entry_views(exported).to_set() == entry_views(entries).to_set(),
        mapping_of(entry_keys(exported), entry_values(exported)) == map@,
        mapping_of(entry_keys(entries), entry_values(entries)) == map@,
{
    assert(exported.len() == entry_keys(exported).len());
    assert(entries.len() == entry_keys(entries).len());
    assert forall|i: int| 0 <= i < entries.len() implies entry_views(exported)[i] == entry_views(
        entries,
    )[i] by {
        assert(entry_keys(exported)[i] == entry_keys(entries)[i]);
        assert(entry_values(exported)[i] == entry_values(entries)[i]);
    }
    assert(entry_views(exported) =~= entry_views(entries));
}

/// Operations leave their operands as they were. They borrow each operand
/// without the right to write, so an operand is one value before and after,
/// and what a map exports is a matter of that value alone: two exports of a
/// map agree, whatever was computed from the map in between.
pub proof fn lemma_exports_agree<V>(
    map: &NumericMap<V>,
    before: Seq<(String, V)>,
    after: Seq<(String, V)>,
)
    requires
        map.holds(before),
        map.holds(after),
    ensures
        entry_views(after) == entry_views(before),
{
    lemma_export_returns_entries(map, before, after);
}

/// A scalar operation with the identity element as its scalar changes
/// nothing, where the identity element is one: adding `0` or multiplying by
/// `1` gives the map back.
pub proof fn lemma_scalar_identity<V: Copy, F: Fn(V, V) -> V>(
    map: &NumericMap<V>,
    op: &Operation<V, F>,
    r: &NumericMap<V>,
)
    requires
        op.has_right_identity(),
        map.scalar_applied(op.identity, op, r),
    ensures
        r.keys() == map.keys(),
        r.values() == map.values(),
        r@ == map@,
{
    assert forall|i: int| 0 <= i < map.values().len() implies r.values()[i] == map.values()[i] by {
        assert(op.yields(map.values()[i], op.identity, r.values()[i]));
    }
    assert(r.values() =~= map.values());
}

/// A merge without a fill value is the merge with the identity element of
/// the operation as its fill value.
pub proof fn lemma_default_fill<V: Copy, F: Fn(V, V) -> V>(
    map: &NumericMap<V>,
    other: &NumericMap<V>,
    op: &Operation<V, F>,
    r: &NumericMap<V>,
)
    ensures
        op.fill_or_identity(None) == op.identity,
        op.fill_or_identity(None) == op.fill_or_identity(Some(op.identity)),
        map.merged(other, op.fill_or_identity(None), op, r) == map.merged(
            other,
            op.fill_or_identity(Some(op.identity)),
            op,
            r,
        ),
{
}

/// The keys of a merge are the keys of its left operand, at their positions,
/// whatever keys the right operand holds.
pub proof fn lemma_merge_keeps_keys<V: Copy, F: Fn(V, V) -> V>(
    map: &NumericMap<V>,
    other: &NumericMap<V>,
    fill: V,
    op: &Operation<V, F>,
    r: &NumericMap<V>,
)
    requires
        map.merged(other, fill, op, r),
    ensures
        r.keys() == map.keys(),
        r@.dom() == map@.dom(),
{
    assert(r@.dom() =~= map@.dom());
}

/// For operands of one layout the pass by position and the pass by lookup
/// ask the same of a result: each hands the operation the same operands at
/// every position, whatever the fill value is.
pub proof fn lemma_aligned_merge_agrees<V: Copy, F: Fn(V, V) -> V>(
    map: &NumericMap<V>,
    other: &NumericMap<V>,
    fill: V,
    op: &Operation<V, F>,
    r: &NumericMap<V>,
)
    requires
        map.wf(),
        other.wf(),
        map.keys() == other.keys(),
    ensures
        map.merged_by_position(other, op, r) == map.merged(other, fill, op, r),
{
    map.lemma_aligned_operands(other, fill);
    if map.merged_by_position(other, op, r) {
        assert forall|i: int| 0 <= i < map.values().len() implies op.yields(
            map.values()[i],
            other.value_or(map.keys()[i], fill),
            #[trigger] r.values()[i],
        ) by {
            assert(other.value_or(map.keys()[i], fill) == other.values()[i]);
        }
    }
    if map.merged(other, fill, op, r) {
        assert forall|i: int| 0 <= i < map.values().len() implies op.yields(
            map.values()[i],
            other.values()[i],
            #[trigger] r.values()[i],
        ) by {
            assert(other.value_or(map.keys()[i], fill) == other.values()[i]);
        }
    }
}

/// Where both operands hold the same keys, in whatever layout, the fill
/// value has no part in the merge.
pub proof fn lemma_same_keys_need_no_fill<V: Copy, F: Fn(V, V) -> V>(
    map: &NumericMap<V>,
    other: &NumericMap<V>,
    fill1: V,
    fill2: V,
    op: &Operation<V, F>,
    r: &NumericMap<V>,
)
    requires
        map.wf(),
        other.wf(),
        map@.dom() == other@.dom(),
    ensures
        map.merged(other, fill1, op, r) == map.merged(other, fill2, op, r),
{
    map.lemma_wf();
    assert forall|i: int| 0 <= i < map.values().len() implies other.value_or(
        #[trigger] map.keys()[i],
        fill1,
    ) == other.value_or(map.keys()[i], fill2) by {
        map.lemma_value_at(i);
        assert(other@.dom().contains(map.keys()[i]));
    }
}

/// With a deterministic operation a merge has one result, by whichever pass
/// it was computed.
pub proof fn lemma_merge_determined<V: Copy, F: Fn(V, V) -> V>(
    map: &NumericMap<V>,
    other: &NumericMap<V>,
    fill: V,
    op: &Operation<V, F>,
    r1: &NumericMap<V>,
    r2: &NumericMap<V>,
)
    requires
        op.deterministic(),
        map.merged(other, fill, op, r1),
        map.merged(other, fill, op, r2),
    ensures
        r1.keys() == r2.keys(),
        r1.values() == r2.values(),
        r1@ == r2@,
{
    assert forall|i: int| 0 <= i < map.values().len() implies r1.values()[i] == r2.values()[i] by {
        let operand = other.value_or(map.keys()[i], fill);
        assert(op.yields(map.values()[i], operand, r1.values()[i]));
        assert(op.yields(map.values()[i], operand, r2.values()[i]));
    }
    assert(r1.values() =~= r2.values());
}

/// The reduction of no values is the identity element: `0` for a sum and `1`
/// for a product.
pub proof fn lemma_reduce_of_nothing<V: Copy, F: Fn(V, V) -> V>(op: &Operation<V, F>, acc: V)
    ensures
        op.folds(Seq::<V>::empty(), acc) == (acc == op.identity),
{
}

} // verus!
