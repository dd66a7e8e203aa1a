//! Height order of the layers of a column.

use vstd::prelude::*;

use crate::l2j::block::Layer;

verus! {

/// The layers of a sorted column with one more layer put in: behind every
/// layer that is not higher.
pub open spec fn insert_by_height(sorted: Seq<Layer>, layer: Layer) -> Seq<Layer>
    decreases sorted.len(),
{
    if sorted.len() == 0 || sorted.last().height <= layer.height {
        sorted.push(layer)
    } else {
        insert_by_height(sorted.drop_last(), layer).push(sorted.last())
    }
}

/// The layers in height order, equal heights in their old order.
pub open spec fn by_height(layers: Seq<Layer>) -> Seq<Layer>
    decreases layers.len(),
{
    if layers.len() == 0 {
        layers
    } else {
        insert_by_height(by_height(layers.drop_last()), layers.last())
    }
}

/// The layers of one height, in their order.
pub open spec fn at_height(layers: Seq<Layer>, height: i16) -> Seq<Layer> {
    layers.filter(|layer: Layer| layer.height == height)
}

pub open spec fn rising(layers: Seq<Layer>) -> bool {
    forall|i: int, j: int|
        0 <= i < j < layers.len() ==> (#[trigger] layers[i]).height <= (#[trigger] layers[j]).height
}

proof fn lemma_insert(sorted: Seq<Layer>, layer: Layer)
    requires
        rising(sorted),
    ensures
        rising(insert_by_height(sorted, layer)),
        insert_by_height(sorted, layer).len() == sorted.len() + 1,
        forall|i: int|
            0 <= i <= sorted.len() ==> (#[trigger] insert_by_height(sorted, layer)[i]) == layer
                || sorted.contains(insert_by_height(sorted, layer)[i]),
        forall|height: i16| #[trigger]
            at_height(insert_by_height(sorted, layer), height) == if layer.height == height {
                at_height(sorted, height).push(layer)
            } else {
                at_height(sorted, height)
            },
    decreases sorted.len(),
{
    let result = insert_by_height(sorted, layer);
    if sorted.len() == 0 || sorted.last().height <= layer.height {
        assert forall|height: i16| #[trigger] at_height(result, height) == if layer.height == height {
            at_height(sorted, height).push(layer)
        } else {
            at_height(sorted, height)
        } by {
            reveal(Seq::filter);
            assert(result.drop_last() =~= sorted);
        }
    } else {
        let shorter = sorted.drop_last();
        lemma_insert(shorter, layer);
        let inner = insert_by_height(shorter, layer);
        assert forall|i: int| 0 <= i < inner.len() implies (#[trigger] inner[i]).height
            <= sorted.last().height by {
            if inner[i] != layer {
                let k = choose|k: int| 0 <= k < shorter.len() && shorter[k] == inner[i];
                assert(sorted[k] == inner[i]);
            }
        }
        assert forall|i: int| 0 <= i < result.len() implies (#[trigger] result[i]) == layer
            || sorted.contains(result[i]) by {
            if i < inner.len() && inner[i] != layer {
                let k = choose|k: int| 0 <= k < shorter.len() && shorter[k] == inner[i];
                assert(sorted[k] == result[i]);
            } else if i == inner.len() {
                assert(sorted[sorted.len() - 1] == result[i]);
            }
        }
        assert forall|height: i16| #[trigger] at_height(result, height) == if layer.height == height {
            at_height(sorted, height).push(layer)
        } else {
            at_height(sorted, height)
        } by {
            reveal(Seq::filter);
            assert(result.drop_last() =~= inner);
            let same = |layer: Layer| layer.height == height;
            assert(at_height(inner, height) == inner.filter(same));
            assert(at_height(shorter, height) == shorter.filter(same));
            assert(at_height(result, height) == result.filter(same));
            assert(at_height(sorted, height) == sorted.filter(same));
        }
    }
}


/// Height order is an order: heights never fall along the column.
pub proof fn height_order_is_sorted(layers: Seq<Layer>)
    ensures
        rising(by_height(layers)),
        by_height(layers).len() == layers.len(),
    decreases layers.len(),
{
    if layers.len() > 0 {
        height_order_is_sorted(layers.drop_last());
        lemma_insert(by_height(layers.drop_last()), layers.last());
    }
}

/// Height order is stable: layers of one height keep their order, and no layer
/// is lost or made up.
pub proof fn height_order_is_stable(layers: Seq<Layer>, height: i16)
    ensures
        at_height(by_height(layers), height) == at_height(layers, height),
    decreases layers.len(),
{
    if layers.len() > 0 {
        height_order_is_sorted(layers.drop_last());
        height_order_is_stable(layers.drop_last(), height);
        lemma_insert(by_height(layers.drop_last()), layers.last());
        reveal(Seq::filter);
    }
}

/// Whatever holds of every layer still does in height order.
pub proof fn lemma_order_keeps(layers: Seq<Layer>, i: int)
    requires
        0 <= i < layers.len(),
    ensures
        by_height(layers).len() == layers.len(),
        layers.contains(by_height(layers)[i]),
    decreases layers.len(),
{
    let shorter = layers.drop_last();
    height_order_is_sorted(layers);
    height_order_is_sorted(shorter);
    lemma_insert(by_height(shorter), layers.last());
    if by_height(layers)[i] == layers.last() {
        assert(layers[layers.len() - 1] == by_height(layers)[i]);
    } else {
        let k = choose|k: int| 0 <= k < by_height(shorter).len() && by_height(shorter)[k] == by_height(layers)[i];
        lemma_order_keeps(shorter, k);
        let m = choose|m: int| 0 <= m < shorter.len() && shorter[m] == by_height(shorter)[k];
        assert(layers[m] == by_height(layers)[i]);
    }
}

proof fn lemma_insert_at(sorted: Seq<Layer>, layer: Layer, place: int)
    requires
        0 <= place <= sorted.len(),
        place == 0 || sorted[place - 1].height <= layer.height,
        forall|i: int| place <= i < sorted.len() ==> (#[trigger] sorted[i]).height > layer.height,
    ensures
        insert_by_height(sorted, layer) == sorted.insert(place, layer),
    decreases sorted.len(),
{
    if place == sorted.len() {
        assert(sorted.insert(place, layer) =~= sorted.push(layer));
    } else {
        assert(sorted[sorted.len() - 1].height > layer.height);
        lemma_insert_at(sorted.drop_last(), layer, place);
        assert(sorted.insert(place, layer) =~= sorted.drop_last().insert(place, layer).push(
            sorted.last(),
        ));
    }
}

/// The layers of a column in height order.
pub fn sorted_by_height(layers: &[Layer]) -> (sorted: Vec<Layer>)
    ensures
        sorted@ == by_height(layers@),
{
    let mut sorted: Vec<Layer> = Vec::new();
    let mut next: usize = 0;
    while next < layers.len()
        invariant
            next <= layers.len(),
            sorted.len() == next,
            sorted@ == by_height(layers@.take(next as int)),
        decreases layers.len() - next,
    {
        let layer = layers[next];
        let mut place: usize = next;
        while place > 0 && sorted[place - 1].height > layer.height
            invariant
                place <= next,
                sorted.len() == next,
                forall|i: int|
                    place <= i < sorted.len() ==> (#[trigger] sorted[i]).height > layer.height,
            decreases place,
        {
            place -= 1;
        }
        proof {
            lemma_insert_at(sorted@, layer, place as int);
            assert(layers@.take(next + 1).drop_last() =~= layers@.take(next as int));
        }
        sorted.insert(place, layer);
        next += 1;
    }
    assert(layers@.take(next as int) =~= layers@);
    sorted
}

} // verus!
