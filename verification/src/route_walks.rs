//! Routes as walks over the map: which steps a route takes, and at what price.

use vstd::prelude::*;

use crate::l2j::block::{Layer, LayerAddress};
use crate::l2j::document::{Document, DocumentModel};
use crate::route;
use crate::route::Quest;
use crate::route_laws;

verus! {

/// Whether the map has a layer at an address.
pub open spec fn has_layer(model: DocumentModel, a: LayerAddress) -> bool {
    a.x < 2_048 && a.y < 2_048 && a.layer < model.column(a.x as int, a.y as int).len()
}

/// The layer at an address.
pub open spec fn layer_at(model: DocumentModel, a: LayerAddress) -> Layer {
    model.column(a.x as int, a.y as int)[a.layer as int]
}

pub open spec fn blocked(layer: Layer) -> bool {
    layer.nswe & 15 == 0
}

/// Both blocked, both open to all sides, or both neither.
pub open spec fn same_colour(a: Layer, b: Layer) -> bool {
    (a.nswe & 15 == 0) == (b.nswe & 15 == 0) && (a.nswe & 15 == 15) == (b.nswe & 15 == 15)
}

/// How far two heights are apart.
pub open spec fn gap(a: Layer, b: Layer) -> int {
    if a.height >= b.height {
        a.height - b.height
    } else {
        b.height - a.height
    }
}

/// Two cells side by side.
pub open spec fn beside(a: LayerAddress, b: LayerAddress) -> bool {
    (a.x == b.x && (a.y + 1 == b.y || b.y + 1 == a.y)) || (a.y == b.y && (a.x + 1 == b.x || b.x + 1
        == a.x))
}

/// Between two numbers, or at most 64 beyond the nearer of them.
pub open spec fn within_reach(value: int, a: int, b: int) -> bool {
    (a - 64 <= value || b - 64 <= value) && (value <= a + 64 || value <= b + 64)
}

/// A layer that a route between two others may pass: no sentinel, near enough,
/// and blocked exactly if the first one is.
pub open spec fn passes(
    model: DocumentModel,
    start: LayerAddress,
    end: LayerAddress,
    a: LayerAddress,
) -> bool {
    &&& has_layer(model, a)
    &&& layer_at(model, a).height != -16_384
    &&& blocked(layer_at(model, a)) == blocked(layer_at(model, start))
    &&& within_reach(a.x as int, start.x as int, end.x as int)
    &&& within_reach(a.y as int, start.y as int, end.y as int)
}

/// A step of a route: to a layer beside it, not more than 64 units up or down.
pub open spec fn steps(
    model: DocumentModel,
    start: LayerAddress,
    end: LayerAddress,
    a: LayerAddress,
    b: LayerAddress,
) -> bool {
    beside(a, b) && passes(model, start, end, b) && gap(layer_at(model, a), layer_at(model, b))
        <= 64
}

/// A walk from one layer to another.
pub open spec fn is_walk(
    model: DocumentModel,
    start: LayerAddress,
    end: LayerAddress,
    walk: Seq<LayerAddress>,
) -> bool {
    &&& walk.len() > 0
    &&& walk[0] == start
    &&& walk[walk.len() - 1] == end
    &&& passes(model, start, end, start)
    &&& forall|i: int|
        0 <= i < walk.len() - 1 ==> steps(model, start, end, #[trigger] walk[i], walk[i + 1])
}

/// The price of a step of a walk that starts in a layer.
pub open spec fn price(model: DocumentModel, start: LayerAddress, a: LayerAddress, b: LayerAddress) -> int {
    let here = layer_at(model, a);
    let there = layer_at(model, b);
    let turn: int = if here.nswe & 15 == there.nswe & 15 {
        0
    } else {
        1
    };
    let strip: int = if same_colour(layer_at(model, start), there) {
        0
    } else {
        48
    };
    10 + gap(here, there) / 8 + turn + strip
}

/// The price of the first steps of a walk.
pub open spec fn price_of(
    model: DocumentModel,
    start: LayerAddress,
    walk: Seq<LayerAddress>,
    count: int,
) -> int
    decreases count,
{
    if count <= 0 {
        0
    } else {
        price_of(model, start, walk, count - 1) + price(model, start, walk[count - 1], walk[count])
    }
}

/// More layers that a route may pass than a search looks at.
pub open spec fn overcrowded(model: DocumentModel, start: LayerAddress, end: LayerAddress) -> bool {
    exists|layers: Set<LayerAddress>|
        layers.finite() && #[trigger] layers.len() == 65_537 && forall|a: LayerAddress|
            layers.contains(a) ==> passes(model, start, end, a)
}

/// Whether two layers can be the ends of a route.
pub open spec fn are_ends(model: DocumentModel, start: LayerAddress, end: LayerAddress) -> bool {
    &&& has_layer(model, start)
    &&& has_layer(model, end)
    &&& layer_at(model, start).height != -16_384
    &&& layer_at(model, end).height != -16_384
    &&& blocked(layer_at(model, start)) == blocked(layer_at(model, end))
}

spec fn keys_of(walk: Seq<LayerAddress>) -> Seq<u64> {
    walk.map_values(|a: LayerAddress| route::key_at(a))
}

proof fn lemma_address(document: &Document, a: LayerAddress)
    requires
        document.well_formed(),
        has_layer(document@, a),
    ensures
        route::key_x(route::key_at(a)) == a.x,
        route::key_y(route::key_at(a)) == a.y,
        route::key_layer(route::key_at(a)) == a.layer,
        route::address_at(route::key_at(a)) == a,
{
    document.lemma_column_size(a.x as int, a.y as int);
    route::lemma_key(a.x as int, a.y as int, a.layer as int);
}

proof fn lemma_usable(
    document: &Document,
    start: LayerAddress,
    end: LayerAddress,
    a: LayerAddress,
)
    requires
        document.well_formed(),
        has_layer(document@, start),
        has_layer(document@, end),
        has_layer(document@, a),
    ensures
        Quest::between(document@, start, end).usable(document@, route::key_at(a)) == passes(
            document@,
            start,
            end,
            a,
        ),
        Quest::between(document@, start, end).layer(document@, route::key_at(a)) == layer_at(
            document@,
            a,
        ),
{
    lemma_address(document, a);
}

proof fn lemma_step(
    document: &Document,
    start: LayerAddress,
    end: LayerAddress,
    a: LayerAddress,
    b: LayerAddress,
)
    requires
        document.well_formed(),
        has_layer(document@, start),
        has_layer(document@, end),
        has_layer(document@, a),
        has_layer(document@, b),
    ensures
        ({
            let quest = Quest::between(document@, start, end);
            let from = route::key_at(a);
            let to = route::key_at(b);
            &&& quest.edge(document@, from, to) == steps(document@, start, end, a, b)
            &&& steps(document@, start, end, a, b) ==> quest.weight(document@, from, to) == price(
                document@,
                start,
                a,
                b,
            )
        }),
{
    lemma_address(document, a);
    lemma_address(document, b);
    lemma_usable(document, start, end, a);
    lemma_usable(document, start, end, b);
}

/// A walk is a route of the search, at the same price.
proof fn lemma_walk_is_route(
    document: &Document,
    start: LayerAddress,
    end: LayerAddress,
    walk: Seq<LayerAddress>,
)
    requires
        document.well_formed(),
        has_layer(document@, start),
        has_layer(document@, end),
        is_walk(document@, start, end, walk),
    ensures
        ({
            let quest = Quest::between(document@, start, end);
            &&& route_laws::joins(
                document@,
                quest,
                keys_of(walk),
                route::key_at(start),
                route::key_at(end),
            )
            &&& route_laws::cost_of(document@, quest, keys_of(walk)) == price_of(
                document@,
                start,
                walk,
                walk.len() - 1,
            )
        }),
{
    let quest = Quest::between(document@, start, end);
    let keys = keys_of(walk);
    assert forall|i: int| 0 <= i < walk.len() implies has_layer(document@, #[trigger] walk[i]) by {
        if i > 0 {
            assert(steps(document@, start, end, walk[i - 1], walk[i - 1 + 1]));
        }
    }
    assert forall|i: int| 0 <= i < keys.len() - 1 implies quest.edge(
        document@,
        #[trigger] keys[i],
        keys[i + 1],
    ) by {
        assert(steps(document@, start, end, walk[i], walk[i + 1]));
        assert(has_layer(document@, walk[i + 1]));
        lemma_step(document, start, end, walk[i], walk[i + 1]);
    }
    lemma_same_price(document, start, end, walk, walk.len() - 1);
}

proof fn lemma_same_price(
    document: &Document,
    start: LayerAddress,
    end: LayerAddress,
    walk: Seq<LayerAddress>,
    count: int,
)
    requires
        document.well_formed(),
        has_layer(document@, start),
        has_layer(document@, end),
        is_walk(document@, start, end, walk),
        count < walk.len(),
    ensures
        route_laws::cost_to(
            document@,
            Quest::between(document@, start, end),
            keys_of(walk),
            count,
        ) == price_of(document@, start, walk, count),
    decreases count,
{
    if count > 0 {
        lemma_same_price(document, start, end, walk, count - 1);
        let i = count - 1;
        assert(steps(document@, start, end, walk[i], walk[i + 1]));
        if i > 0 {
            assert(steps(document@, start, end, walk[i - 1], walk[i - 1 + 1]));
        }
        lemma_step(document, start, end, walk[i], walk[i + 1]);
    }
}

/// A route of the search is a walk.
proof fn lemma_route_is_walk(
    document: &Document,
    start: LayerAddress,
    end: LayerAddress,
    keys: Seq<u64>,
)
    requires
        document.well_formed(),
        are_ends(document@, start, end),
        route_laws::joins(
            document@,
            Quest::between(document@, start, end),
            keys,
            route::key_at(start),
            route::key_at(end),
        ),
    ensures
        ({
            let walk = keys.map_values(|key: u64| route::address_at(key));
            is_walk(document@, start, end, walk) && keys_of(walk) == keys
        }),
{
    let quest = Quest::between(document@, start, end);
    let walk = keys.map_values(|key: u64| route::address_at(key));
    lemma_address(document, start);
    lemma_address(document, end);
    assert forall|i: int| 0 <= i < keys.len() implies has_layer(document@, #[trigger] walk[i])
        && route::key_at(walk[i]) == keys[i] by {
        if i > 0 {
            assert(quest.edge(document@, keys[i - 1], keys[i - 1 + 1]));
            route::lemma_key_back(keys[i]);
        }
    }
    assert forall|i: int| 0 <= i < walk.len() - 1 implies steps(
        document@,
        start,
        end,
        #[trigger] walk[i],
        walk[i + 1],
    ) by {
        assert(quest.edge(document@, keys[i], keys[i + 1]));
        assert(has_layer(document@, walk[i + 1]));
        lemma_step(document, start, end, walk[i], walk[i + 1]);
    }
    assert(keys_of(walk) =~= keys);
}

/// A selected route is a walk between its ends, and no walk between them has a
/// lower price: ten for each step, one for each eight units of height, one where
/// the mask changes, and 48 more for each layer of another colour than the
/// first. Without a walk between them there is none, and with one there is,
/// unless more layers are in reach than a search looks at.
pub proof fn route_is_the_cheapest_walk(document: &Document, start: LayerAddress, end: LayerAddress)
    requires
        document.well_formed(),
    ensures
        match route::routed(document@, start, end) {
            Some(walk) => {
                &&& are_ends(document@, start, end)
                &&& is_walk(document@, start, end, walk)
                &&& forall|other: Seq<LayerAddress>| #[trigger]
                    is_walk(document@, start, end, other) ==> price_of(
                        document@,
                        start,
                        walk,
                        walk.len() - 1,
                    ) <= price_of(document@, start, other, other.len() - 1)
            },
            None => {
                ||| !are_ends(document@, start, end)
                ||| overcrowded(document@, start, end)
                ||| forall|other: Seq<LayerAddress>| !#[trigger]
                    is_walk(document@, start, end, other)
            },
        },
{
    let model = document@;
    let quest = Quest::between(model, start, end);
    let first = route::key_at(start);
    let last = route::key_at(end);
    route_laws::route_is_the_cheapest(document, start, end);
    assert(route::joinable(model, start, end) == are_ends(model, start, end));
    match route::routed(model, start, end) {
        Some(walk) => {
            let keys = choose|keys: Seq<u64>| #[trigger]
                route_laws::joins(model, quest, keys, first, last) && walk == keys.map_values(
                    |key: u64| route::address_at(key),
                ) && (forall|other: Seq<u64>|
                    route_laws::joins(model, quest, other, first, last) ==> route_laws::cost_of(
                        model,
                        quest,
                        keys,
                    ) <= #[trigger] route_laws::cost_of(model, quest, other));
            lemma_route_is_walk(document, start, end, keys);
            lemma_walk_is_route(document, start, end, walk);
            assert forall|other: Seq<LayerAddress>| #[trigger]
                is_walk(model, start, end, other) implies price_of(
                model,
                start,
                walk,
                walk.len() - 1,
            ) <= price_of(model, start, other, other.len() - 1) by {
                lemma_walk_is_route(document, start, end, other);
                assert(route_laws::cost_of(model, quest, keys) <= route_laws::cost_of(
                    model,
                    quest,
                    keys_of(other),
                ));
            }
        },
        None => {
            if are_ends(model, start, end) && route_laws::too_wide(model, quest) {
                let layers = choose|layers: Set<u64>|
                    layers.finite() && #[trigger] layers.len() == 65_537 && forall|key: u64|
                        layers.contains(key) ==> quest.usable(model, key);
                lemma_overcrowded(document, start, end, layers);
            }
            if are_ends(model, start, end) && !overcrowded(model, start, end) {
                assert forall|other: Seq<LayerAddress>| !#[trigger]
                    is_walk(model, start, end, other) by {
                    if is_walk(model, start, end, other) {
                        lemma_walk_is_route(document, start, end, other);
                        assert(route_laws::joins(model, quest, keys_of(other), first, last));
                    }
                }
            }
        },
    }
}

proof fn lemma_overcrowded(
    document: &Document,
    start: LayerAddress,
    end: LayerAddress,
    layers: Set<u64>,
)
    requires
        document.well_formed(),
        are_ends(document@, start, end),
        layers.finite(),
        layers.len() == 65_537,
        forall|key: u64|
            layers.contains(key) ==> Quest::between(document@, start, end).usable(document@, key),
    ensures
        overcrowded(document@, start, end),
{
    let model = document@;
    let quest = Quest::between(model, start, end);
    let place = |key: u64| route::address_at(key);
    let places = layers.map(place);
    assert forall|key: u64| layers.contains(key) implies has_layer(
        model,
        #[trigger] route::address_at(key),
    ) && route::key_at(route::address_at(key)) == key by {
        assert(quest.usable(model, key));
        route::lemma_key_back(key);
    }
    assert(vstd::relations::injective_on(place, layers)) by {
        assert forall|a: u64, b: u64|
            layers.contains(a) && layers.contains(b) && #[trigger] place(a) == #[trigger] place(
                b,
            ) implies a == b by {
            assert(route::key_at(route::address_at(a)) == a);
            assert(route::key_at(route::address_at(b)) == b);
        }
    }
    vstd::set_lib::lemma_map_size(layers, places, place);
    assert forall|a: LayerAddress| places.contains(a) implies passes(model, start, end, a) by {
        let key = choose|key: u64| layers.contains(key) && place(key) == a;
        assert(has_layer(model, route::address_at(key)));
        assert(quest.usable(model, key));
        lemma_usable(document, start, end, a);
    }
}

/// All layers of a walk are at one height and have one mask.
pub open spec fn is_level(model: DocumentModel, walk: Seq<LayerAddress>) -> bool {
    forall|i: int|
        0 <= i < walk.len() ==> layer_at(model, #[trigger] walk[i]).height == layer_at(
            model,
            walk[0],
        ).height && layer_at(model, walk[i]).nswe & 15 == layer_at(model, walk[0]).nswe & 15
}

proof fn lemma_level_price(
    model: DocumentModel,
    start: LayerAddress,
    walk: Seq<LayerAddress>,
    count: int,
)
    requires
        0 <= count < walk.len(),
        walk[0] == start,
        is_level(model, walk),
    ensures
        price_of(model, start, walk, count) == 10 * count,
    decreases count,
{
    if count > 0 {
        lemma_level_price(model, start, walk, count - 1);
        assert(layer_at(model, walk[count]).nswe & 15 == layer_at(model, walk[0]).nswe & 15);
        assert(layer_at(model, walk[count - 1]).nswe & 15 == layer_at(model, walk[0]).nswe & 15);
        assert(layer_at(model, walk[count]).height == layer_at(model, walk[0]).height);
        assert(layer_at(model, walk[count - 1]).height == layer_at(model, walk[0]).height);
    }
}

/// Leaving the colour of the first layer has its price.
proof fn lemma_leaving_price(
    model: DocumentModel,
    start: LayerAddress,
    walk: Seq<LayerAddress>,
    count: int,
    place: int,
)
    requires
        0 <= count < walk.len(),
        0 < place,
        !same_colour(layer_at(model, start), layer_at(model, walk[place])),
    ensures
        price_of(model, start, walk, count) >= 10 * count,
        place <= count ==> price_of(model, start, walk, count) >= 10 * count + 48,
    decreases count,
{
    if count > 0 {
        lemma_leaving_price(model, start, walk, count - 1, place);
        assert(gap(layer_at(model, walk[count - 1]), layer_at(model, walk[count])) / 8 >= 0);
    }
}

/// A route follows a strip: with a level strip of one mask between the ends, the
/// selected route leaves the colour of its first layer only if that saves it at
/// least five steps.
pub proof fn route_follows_its_strip(
    document: &Document,
    start: LayerAddress,
    end: LayerAddress,
    strip: Seq<LayerAddress>,
    place: int,
)
    requires
        document.well_formed(),
        is_walk(document@, start, end, strip),
        is_level(document@, strip),
        route::routed(document@, start, end) is Some,
        0 <= place < route::routed(document@, start, end)->0.len(),
        !same_colour(
            layer_at(document@, start),
            layer_at(document@, route::routed(document@, start, end)->0[place]),
        ),
    ensures
        route::routed(document@, start, end)->0.len() + 5 <= strip.len(),
{
    let walk = route::routed(document@, start, end)->0;
    route_is_the_cheapest_walk(document, start, end);
    lemma_level_price(document@, start, strip, strip.len() - 1);
    assert(place > 0);
    lemma_leaving_price(document@, start, walk, walk.len() - 1, place);
}

/// Entering a layer of another colour costs exactly 48 more than entering one of
/// the colour of the first, where the heights and the change of mask are the
/// same.
pub proof fn another_colour_costs_48(
    document: &Document,
    start: LayerAddress,
    end: LayerAddress,
    from: LayerAddress,
    kept: LayerAddress,
    left: LayerAddress,
)
    requires
        document.well_formed(),
        are_ends(document@, start, end),
        has_layer(document@, from),
        steps(document@, start, end, from, kept),
        steps(document@, start, end, from, left),
        layer_at(document@, kept).height == layer_at(document@, left).height,
        (layer_at(document@, from).nswe & 15 == layer_at(document@, kept).nswe & 15) == (layer_at(
            document@,
            from,
        ).nswe & 15 == layer_at(document@, left).nswe & 15),
        same_colour(layer_at(document@, start), layer_at(document@, kept)),
        !same_colour(layer_at(document@, start), layer_at(document@, left)),
    ensures
        ({
            let quest = Quest::between(document@, start, end);
            quest.weight(document@, route::key_at(from), route::key_at(left)) == quest.weight(
                document@,
                route::key_at(from),
                route::key_at(kept),
            ) + 48
        }),
{
    lemma_step(document, start, end, from, kept);
    lemma_step(document, start, end, from, left);
}

} // verus!
