//! Why a route that was found is the cheapest one.

use vstd::multiset::Multiset;
use vstd::prelude::*;

use crate::heap;
use crate::heap::Entry;
use crate::l2j::block::LayerAddress;
use crate::l2j::document::{Document, DocumentModel};
use crate::l2j::document;
use crate::route;
use crate::route::{Quest, Search};

verus! {

broadcast use vstd::multiset::group_multiset_axioms;

/// Layers that a route may follow one after the other.
pub open spec fn is_route(model: DocumentModel, quest: Quest, keys: Seq<u64>) -> bool {
    keys.len() > 0 && forall|i: int|
        0 <= i < keys.len() - 1 ==> quest.edge(model, #[trigger] keys[i], keys[i + 1])
}

/// What the first steps of a route cost.
pub open spec fn cost_to(model: DocumentModel, quest: Quest, keys: Seq<u64>, steps: int) -> int
    decreases steps,
{
    if steps <= 0 {
        0
    } else {
        cost_to(model, quest, keys, steps - 1) + quest.weight(model, keys[steps - 1], keys[steps])
    }
}

/// What a whole route costs.
pub open spec fn cost_of(model: DocumentModel, quest: Quest, keys: Seq<u64>) -> int {
    cost_to(model, quest, keys, keys.len() - 1)
}

/// A route from one layer to another.
pub open spec fn joins(
    model: DocumentModel,
    quest: Quest,
    keys: Seq<u64>,
    start: u64,
    end: u64,
) -> bool {
    is_route(model, quest, keys) && keys[0] == start && keys.last() == end
}

/// The entry of the cheapest way known to a layer.
spec fn entry_of(search: Search, quest: Quest, key: u64) -> Entry {
    Entry {
        estimate: (search.costs[key] + quest.bound(key)) as u32,
        cost: search.costs[key],
        node: key,
    }
}

/// Every way onward from a layer has been tried.
spec fn relaxed(search: Search, model: DocumentModel, quest: Quest, key: u64) -> bool {
    forall|to: u64| #[trigger]
        quest.edge(model, key, to) ==> search.costs.contains_key(to) && search.costs[to]
            <= search.costs[key] + quest.weight(model, key, to)
}

/// What holds of a search at every step. Layers are either visited, with every
/// way onward tried but for the pending one, or wait in the frontier once. No
/// entry of the frontier promises less than `floor`, and no visited layer more.
spec fn sound(
    search: Search,
    model: DocumentModel,
    quest: Quest,
    start: u64,
    floor: int,
    pending: Option<u64>,
) -> bool {
    &&& search.steady(model)
    &&& search.visited <= 65_536
    &&& search.costs.contains_key(start)
    &&& search.costs[start] == 0
    &&& !search.previous.contains_key(start)
    &&& forall|key: u64| #[trigger]
        search.costs.contains_key(key) ==> quest.usable(model, key)
    &&& forall|key: u64| #[trigger]
        search.costs.contains_key(key) && key != start ==> search.previous.contains_key(key)
            && quest.edge(model, search.previous[key], key) && search.costs[search.previous[key]]
            + quest.weight(model, search.previous[key], key) <= search.costs[key]
    &&& forall|entry: Entry| #[trigger]
        search.frontier.count(entry) > 0 ==> search.costs[entry.node] <= entry.cost
            && entry.estimate == entry.cost + quest.bound(entry.node) && floor <= entry.estimate
    &&& forall|key: u64| #[trigger]
        search.costs.contains_key(key) && !search.expanded.contains(key)
            ==> search.frontier.count(entry_of(search, quest, key)) == 1
    &&& forall|key: u64| #[trigger]
        search.expanded.contains(key) ==> search.costs.contains_key(key) && key != quest.end
            && search.frontier.count(entry_of(search, quest, key)) == 0 && search.costs[key]
            + quest.bound(key) <= floor
    &&& forall|key: u64| #[trigger]
        search.expanded.contains(key) && pending != Some(key) ==> relaxed(search, model, quest, key)
    &&& search.expanded.finite()
    &&& search.expanded.len() == search.visited
}

/// Costs only fall.
spec fn improves(before: Search, after: Search) -> bool {
    forall|key: u64| #[trigger]
        before.costs.contains_key(key) ==> after.costs.contains_key(key) && after.costs[key]
            <= before.costs[key]
}

proof fn lemma_bound_step(model: DocumentModel, quest: Quest, from: u64, to: u64)
    requires
        quest.edge(model, from, to),
    ensures
        quest.bound(from) <= quest.bound(to) + 10,
        quest.bound(from) <= quest.bound(to) + quest.weight(model, from, to),
{
    Search::lemma_weight(model, quest, from, to);
}

proof fn lemma_bound_small(model: DocumentModel, quest: Quest, key: u64)
    requires
        quest.valid(),
        route::located(model, key),
    ensures
        0 <= quest.bound(key) <= 40_940,
{
}

proof fn lemma_relax(
    search: Search,
    model: DocumentModel,
    quest: Quest,
    start: u64,
    from: u64,
    cost: u32,
    to: u64,
)
    requires
        quest.valid(),
        sound(search, model, quest, start, cost + quest.bound(from), Some(from)),
        search.expanded.contains(from),
        search.costs[from] == cost,
        cost + 67 <= 67 * search.visited,
    ensures
        ({
            let after = search.relaxing(model, quest, from, cost, to);
            &&& sound(after, model, quest, start, cost + quest.bound(from), Some(from))
            &&& after.expanded == search.expanded
            &&& after.visited == search.visited
            &&& after.costs[from] == cost
            &&& improves(search, after)
            &&& quest.edge(model, from, to) ==> after.costs.contains_key(to) && after.costs[to]
                <= cost + quest.weight(model, from, to)
        }),
{
    let after = search.relaxing(model, quest, from, cost, to);
    let floor = cost + quest.bound(from);
    search.lemma_relaxing_steady(model, quest, from, cost, to);
    if quest.edge(model, from, to) {
        Search::lemma_weight(model, quest, from, to);
        lemma_bound_step(model, quest, from, to);
        let next = cost + quest.weight(model, from, to);
        if !(search.costs.contains_key(to) && search.costs[to] <= next) {
            assert(to != from);
            assert(to != start);
            if search.expanded.contains(to) {
                assert(search.costs[to] + quest.bound(to) <= floor);
            }
            assert(!search.expanded.contains(to));
            assert(route::located(model, to));
            lemma_bound_small(model, quest, to);
            let pushed = Entry {
                estimate: (next + quest.bound(to)) as u32,
                cost: next as u32,
                node: to,
            };
            assert(pushed.estimate == next + quest.bound(to));
            assert(search.frontier.count(pushed) == 0) by {
                if search.frontier.count(pushed) > 0 {
                    assert(search.costs.contains_key(to));
                    assert(search.costs[to] <= pushed.cost);
                }
            }
            assert(entry_of(after, quest, to) == pushed);
            assert forall|entry: Entry| #[trigger]
                after.frontier.count(entry) > 0 implies after.costs[entry.node] <= entry.cost
                && entry.estimate == entry.cost + quest.bound(entry.node) && floor
                <= entry.estimate by {
                if entry != pushed {
                    assert(search.frontier.count(entry) > 0);
                    assert(search.costs.contains_key(entry.node));
                }
            }
            assert forall|key: u64| #[trigger]
                after.costs.contains_key(key) && !after.expanded.contains(
                    key,
                ) implies after.frontier.count(entry_of(after, quest, key)) == 1 by {
                if key != to {
                    assert(search.costs.contains_key(key));
                    assert(entry_of(after, quest, key) == entry_of(search, quest, key));
                    assert(entry_of(search, quest, key) != pushed);
                }
            }
            assert forall|key: u64| #[trigger]
                after.expanded.contains(key) implies after.costs.contains_key(key) && key
                != quest.end && after.frontier.count(entry_of(after, quest, key)) == 0
                && after.costs[key] + quest.bound(key) <= floor by {
                assert(search.expanded.contains(key));
                assert(entry_of(after, quest, key) == entry_of(search, quest, key));
                assert(entry_of(search, quest, key) != pushed);
            }
            assert forall|key: u64| #[trigger]
                after.expanded.contains(key) && Some(from) != Some(key) implies relaxed(
                after,
                model,
                quest,
                key,
            ) by {
                assert(relaxed(search, model, quest, key));
                assert forall|way: u64| #[trigger]
                    quest.edge(model, key, way) implies after.costs.contains_key(way)
                    && after.costs[way] <= after.costs[key] + quest.weight(model, key, way) by {
                    assert(search.costs.contains_key(way));
                }
            }
            assert forall|key: u64| #[trigger]
                after.costs.contains_key(key) && key != start implies after.previous.contains_key(
                key,
            ) && quest.edge(model, after.previous[key], key) && after.costs[after.previous[key]]
                + quest.weight(model, after.previous[key], key) <= after.costs[key] by {
                if key != to {
                    assert(search.costs.contains_key(key));
                    assert(search.previous.contains_key(key));
                }
            }
        }
    }
}

proof fn lemma_relax_layers(
    search: Search,
    model: DocumentModel,
    quest: Quest,
    start: u64,
    from: u64,
    cost: u32,
    x: int,
    y: int,
    layers: nat,
)
    requires
        quest.valid(),
        sound(search, model, quest, start, cost + quest.bound(from), Some(from)),
        search.expanded.contains(from),
        search.costs[from] == cost,
        cost + 67 <= 67 * search.visited,
    ensures
        ({
            let after = search.relaxing_layers(model, quest, from, cost, x, y, layers);
            &&& sound(after, model, quest, start, cost + quest.bound(from), Some(from))
            &&& after.expanded == search.expanded
            &&& after.visited == search.visited
            &&& after.costs[from] == cost
            &&& improves(search, after)
            &&& forall|layer: int|
                0 <= layer < layers && quest.edge(
                    model,
                    from,
                    #[trigger] route::key_of(x, y, layer),
                ) ==> after.costs.contains_key(route::key_of(x, y, layer))
                    && after.costs[route::key_of(x, y, layer)] <= cost + quest.weight(
                    model,
                    from,
                    route::key_of(x, y, layer),
                )
        }),
    decreases layers,
{
    if layers > 0 {
        let fewer = (layers - 1) as nat;
        lemma_relax_layers(search, model, quest, start, from, cost, x, y, fewer);
        let middle = search.relaxing_layers(model, quest, from, cost, x, y, fewer);
        let last = route::key_of(x, y, layers - 1);
        lemma_relax(middle, model, quest, start, from, cost, last);
        let after = search.relaxing_layers(model, quest, from, cost, x, y, layers);
        assert forall|key: u64| #[trigger] search.costs.contains_key(key) implies
            after.costs.contains_key(key) && after.costs[key] <= search.costs[key] by {
            assert(middle.costs.contains_key(key));
        }
        assert forall|layer: int|
            0 <= layer < layers && quest.edge(
                model,
                from,
                #[trigger] route::key_of(x, y, layer),
            ) implies after.costs.contains_key(route::key_of(x, y, layer))
            && after.costs[route::key_of(x, y, layer)] <= cost + quest.weight(
            model,
            from,
            route::key_of(x, y, layer),
        ) by {
            if layer < fewer {
                assert(middle.costs.contains_key(route::key_of(x, y, layer)));
            }
        }
    }
}

/// Every way from a layer into one cell has been tried.
spec fn cell_tried(
    search: Search,
    model: DocumentModel,
    quest: Quest,
    from: u64,
    cost: int,
    x: int,
    y: int,
) -> bool {
    forall|to: u64| #[trigger]
        quest.edge(model, from, to) && route::key_x(to) == x && route::key_y(to) == y
            ==> search.costs.contains_key(to) && search.costs[to] <= cost + quest.weight(
            model,
            from,
            to,
        )
}

proof fn lemma_relax_cell(
    search: Search,
    model: DocumentModel,
    quest: Quest,
    start: u64,
    from: u64,
    cost: u32,
    x: int,
    y: int,
)
    requires
        quest.valid(),
        sound(search, model, quest, start, cost + quest.bound(from), Some(from)),
        search.expanded.contains(from),
        search.costs[from] == cost,
        cost + 67 <= 67 * search.visited,
    ensures
        ({
            let after = search.relaxing_cell(model, quest, from, cost, x, y);
            &&& sound(after, model, quest, start, cost + quest.bound(from), Some(from))
            &&& after.expanded == search.expanded
            &&& after.visited == search.visited
            &&& after.costs[from] == cost
            &&& improves(search, after)
            &&& cell_tried(after, model, quest, from, cost as int, x, y)
        }),
{
    let after = search.relaxing_cell(model, quest, from, cost, x, y);
    if quest.inside(x, y) {
        let count = model.column(x, y).len();
        lemma_relax_layers(search, model, quest, start, from, cost, x, y, count);
        assert forall|to: u64| #[trigger]
            quest.edge(model, from, to) && route::key_x(to) == x && route::key_y(to)
                == y implies after.costs.contains_key(to) && after.costs[to] <= cost
            + quest.weight(model, from, to) by {
            route::lemma_key_back(to);
            assert(quest.usable(model, to));
            let layer = route::key_layer(to);
            assert(route::key_of(x, y, layer) == to);
            assert(0 <= layer < count);
        }
    }
}

proof fn lemma_tried_later(
    before: Search,
    after: Search,
    model: DocumentModel,
    quest: Quest,
    from: u64,
    cost: int,
    x: int,
    y: int,
)
    requires
        cell_tried(before, model, quest, from, cost, x, y),
        improves(before, after),
    ensures
        cell_tried(after, model, quest, from, cost, x, y),
{
    assert forall|to: u64| #[trigger]
        quest.edge(model, from, to) && route::key_x(to) == x && route::key_y(to) == y implies
        after.costs.contains_key(to) && after.costs[to] <= cost + quest.weight(model, from, to) by {
        assert(before.costs.contains_key(to));
    }
}

proof fn lemma_expand(
    search: Search,
    model: DocumentModel,
    quest: Quest,
    start: u64,
    from: u64,
    cost: u32,
)
    requires
        quest.valid(),
        sound(search, model, quest, start, cost + quest.bound(from), Some(from)),
        search.expanded.contains(from),
        search.costs[from] == cost,
        cost + 67 <= 67 * search.visited,
    ensures
        ({
            let after = search.expanding(model, quest, from, cost);
            &&& sound(after, model, quest, start, cost + quest.bound(from), None)
            &&& after.visited == search.visited
        }),
{
    let x = route::key_x(from);
    let y = route::key_y(from);
    let c = cost as int;
    let north = search.relaxing_cell(model, quest, from, cost, x, y - 1);
    lemma_relax_cell(search, model, quest, start, from, cost, x, y - 1);
    let south = north.relaxing_cell(model, quest, from, cost, x, y + 1);
    lemma_relax_cell(north, model, quest, start, from, cost, x, y + 1);
    let west = south.relaxing_cell(model, quest, from, cost, x - 1, y);
    lemma_relax_cell(south, model, quest, start, from, cost, x - 1, y);
    let east = west.relaxing_cell(model, quest, from, cost, x + 1, y);
    lemma_relax_cell(west, model, quest, start, from, cost, x + 1, y);
    lemma_tried_later(north, south, model, quest, from, c, x, y - 1);
    lemma_tried_later(south, west, model, quest, from, c, x, y - 1);
    lemma_tried_later(west, east, model, quest, from, c, x, y - 1);
    lemma_tried_later(south, west, model, quest, from, c, x, y + 1);
    lemma_tried_later(west, east, model, quest, from, c, x, y + 1);
    lemma_tried_later(west, east, model, quest, from, c, x - 1, y);
    assert(relaxed(east, model, quest, from)) by {
        assert forall|to: u64| #[trigger] quest.edge(model, from, to) implies
            east.costs.contains_key(to) && east.costs[to] <= east.costs[from] + quest.weight(
            model,
            from,
            to,
        ) by {
            let u = route::key_x(to);
            let v = route::key_y(to);
            assert((u == x && v == y - 1) || (u == x && v == y + 1) || (u == x - 1 && v == y) || (u
                == x + 1 && v == y));
        }
    }
    assert(east == search.expanding(model, quest, from, cost));
}

/// Somewhere in a queue that is not empty stands a first entry.
proof fn lemma_first_exists(queue: Multiset<Entry>, entry: Entry)
    requires
        queue.count(entry) > 0,
    ensures
        exists|first: Entry| heap::is_first(queue, first),
    decreases entry.estimate, entry.cost, entry.node,
{
    if exists|other: Entry| queue.count(other) > 0 && #[trigger] other.before(entry) {
        let other = choose|other: Entry| queue.count(other) > 0 && #[trigger] other.before(entry);
        lemma_first_exists(queue, other);
    } else {
        assert(heap::is_first(queue, entry));
    }
}

/// A route leads through a layer that waits in the frontier, or through visited
/// layers only.
proof fn lemma_waiting(
    search: Search,
    model: DocumentModel,
    quest: Quest,
    start: u64,
    floor: int,
    keys: Seq<u64>,
    last: int,
)
    requires
        sound(search, model, quest, start, floor, None),
        is_route(model, quest, keys),
        keys[0] == start,
        0 <= last < keys.len(),
    ensures
        (exists|j: int| 0 <= j <= last && #[trigger] waits(search, model, quest, keys, j)) || (
        search.expanded.contains(keys[last]) && search.costs[keys[last]] <= cost_to(
            model,
            quest,
            keys,
            last,
        )),
    decreases last,
{
    if last == 0 {
        assert(search.costs.contains_key(start));
        if !search.expanded.contains(start) {
            assert(waits(search, model, quest, keys, 0));
        }
    } else {
        lemma_waiting(search, model, quest, start, floor, keys, last - 1);
        if exists|j: int| 0 <= j <= last - 1 && #[trigger] waits(search, model, quest, keys, j) {
            let j = choose|j: int|
                0 <= j <= last - 1 && #[trigger] waits(search, model, quest, keys, j);
            assert(waits(search, model, quest, keys, j));
        } else {
            let here = keys[last - 1];
            assert(quest.edge(model, keys[last - 1], keys[last - 1 + 1]));
            assert(relaxed(search, model, quest, here));
            assert(search.costs.contains_key(keys[last]));
            if !search.expanded.contains(keys[last]) {
                assert(waits(search, model, quest, keys, last));
            }
        }
    }
}

/// A layer of a route waits in the frontier, at no more than the route's cost.
spec fn waits(
    search: Search,
    model: DocumentModel,
    quest: Quest,
    keys: Seq<u64>,
    step: int,
) -> bool {
    &&& search.costs.contains_key(keys[step])
    &&& !search.expanded.contains(keys[step])
    &&& search.costs[keys[step]] <= cost_to(model, quest, keys, step)
}

/// The rest of a route costs at least the lower bound.
proof fn lemma_rest(model: DocumentModel, quest: Quest, keys: Seq<u64>, from: int, to: int)
    requires
        is_route(model, quest, keys),
        0 <= from <= to < keys.len(),
    ensures
        cost_to(model, quest, keys, to) - cost_to(model, quest, keys, from) >= quest.bound(
            keys[from],
        ) - quest.bound(keys[to]),
    decreases to - from,
{
    if from < to {
        lemma_rest(model, quest, keys, from, to - 1);
        assert(quest.edge(model, keys[to - 1], keys[to - 1 + 1]));
        lemma_bound_step(model, quest, keys[to - 1], keys[to]);
    }
}

/// The keys on the way to a layer, from the first.
spec fn trail_keys(search: Search, node: u64, limit: nat) -> Seq<u64>
    decreases limit,
{
    if limit == 0 || !search.previous.contains_key(node) {
        seq![node]
    } else {
        trail_keys(search, search.previous[node], (limit - 1) as nat).push(node)
    }
}

proof fn lemma_trail(
    search: Search,
    model: DocumentModel,
    quest: Quest,
    start: u64,
    floor: int,
    node: u64,
    limit: nat,
)
    requires
        sound(search, model, quest, start, floor, None),
        search.costs.contains_key(node),
        search.costs[node] <= limit,
    ensures
        ({
            let keys = trail_keys(search, node, limit);
            &&& joins(model, quest, keys, start, node)
            &&& cost_of(model, quest, keys) <= search.costs[node]
            &&& search.trail(node, limit) == keys.map_values(|key: u64| route::address_at(key))
        }),
    decreases limit,
{
    let keys = trail_keys(search, node, limit);
    if search.previous.contains_key(node) {
        let before = search.previous[node];
        assert(node != start);
        assert(quest.edge(model, before, node));
        Search::lemma_weight(model, quest, before, node);
        let fewer = (limit - 1) as nat;
        lemma_trail(search, model, quest, start, floor, before, fewer);
        let front = trail_keys(search, before, fewer);
        assert(keys =~= front.push(node));
        assert(keys[0] == front[0]);
        assert forall|i: int| 0 <= i < keys.len() - 1 implies quest.edge(
            model,
            #[trigger] keys[i],
            keys[i + 1],
        ) by {
            if i < front.len() - 1 {
                assert(quest.edge(model, front[i], front[i + 1]));
            }
        }
        lemma_same_cost(model, quest, front, keys, front.len() - 1);
        assert(search.trail(node, limit) =~= keys.map_values(|key: u64| route::address_at(key)));
    } else {
        assert(node == start);
        assert(search.trail(node, limit) =~= keys.map_values(|key: u64| route::address_at(key)));
    }
}

proof fn lemma_same_cost(
    model: DocumentModel,
    quest: Quest,
    left: Seq<u64>,
    right: Seq<u64>,
    steps: int,
)
    requires
        steps < left.len(),
        steps < right.len(),
        forall|i: int| 0 <= i <= steps ==> left[i] == right[i],
    ensures
        cost_to(model, quest, left, steps) == cost_to(model, quest, right, steps),
    decreases steps,
{
    if steps > 0 {
        lemma_same_cost(model, quest, left, right, steps - 1);
    }
}

/// More layers than a search visits, all of them open to the route.
pub open spec fn too_wide(model: DocumentModel, quest: Quest) -> bool {
    exists|layers: Set<u64>|
        layers.finite() && #[trigger] layers.len() == 65_537 && forall|key: u64|
            layers.contains(key) ==> quest.usable(model, key)
}

/// What the end of a search means.
spec fn settled(model: DocumentModel, quest: Quest, start: u64, result: Option<Search>) -> bool {
    match result {
        Some(search) => {
            &&& exists|floor: int| #[trigger] sound(search, model, quest, start, floor, None)
            &&& search.costs.contains_key(quest.end)
            &&& forall|keys: Seq<u64>|
                joins(model, quest, keys, start, quest.end) ==> search.costs[quest.end]
                    <= #[trigger] cost_of(model, quest, keys)
        },
        None => too_wide(model, quest) || forall|keys: Seq<u64>|
            !#[trigger] joins(model, quest, keys, start, quest.end),
    }
}

/// A search without anything to go on from has missed no route.
proof fn lemma_exhausted(search: Search, model: DocumentModel, quest: Quest, start: u64, floor: int)
    requires
        sound(search, model, quest, start, floor, None),
        !heap::is_first(search.frontier, search.first()),
    ensures
        forall|keys: Seq<u64>| !#[trigger] joins(model, quest, keys, start, quest.end),
{
    assert forall|keys: Seq<u64>| !#[trigger] joins(model, quest, keys, start, quest.end) by {
        if joins(model, quest, keys, start, quest.end) {
            let last = keys.len() - 1;
            lemma_waiting(search, model, quest, start, floor, keys, last);
            let j = choose|j: int| 0 <= j <= last && #[trigger] waits(search, model, quest, keys, j);
            let waiting = entry_of(search, quest, keys[j]);
            assert(search.frontier.count(waiting) == 1);
            lemma_first_exists(search.frontier, waiting);
        }
    }
}

/// An entry that a cheaper way replaced can be dropped.
proof fn lemma_stale(
    search: Search,
    model: DocumentModel,
    quest: Quest,
    start: u64,
    floor: int,
    entry: Entry,
)
    requires
        sound(search, model, quest, start, floor, None),
        search.frontier.count(entry) > 0,
        !search.current(entry),
    ensures
        sound(search.without(entry), model, quest, start, floor, None),
{
    let after = search.without(entry);
    assert forall|other: Entry| #[trigger] after.frontier.count(other) > 0 implies
        search.frontier.count(other) > 0 by {}
    assert forall|key: u64| #[trigger] after.costs.contains_key(key) implies entry_of(
        after,
        quest,
        key,
    ) == entry_of(search, quest, key) && entry_of(search, quest, key) != entry by {}
    assert forall|key: u64| #[trigger] after.expanded.contains(key) implies relaxed(
        after,
        model,
        quest,
        key,
    ) by {
        assert(relaxed(search, model, quest, key));
    }
}

/// The way to the last layer is the cheapest when it comes first.
proof fn lemma_arrived(
    search: Search,
    model: DocumentModel,
    quest: Quest,
    start: u64,
    floor: int,
    entry: Entry,
)
    requires
        quest.valid(),
        sound(search, model, quest, start, floor, None),
        heap::is_first(search.frontier, entry),
        search.current(entry),
        entry.node == quest.end,
    ensures
        forall|keys: Seq<u64>|
            joins(model, quest, keys, start, quest.end) ==> search.costs[quest.end]
                <= #[trigger] cost_of(model, quest, keys),
{
    assert(search.frontier.count(entry) > 0);
    assert(entry.estimate == entry.cost + quest.bound(entry.node));
    assert forall|keys: Seq<u64>| joins(model, quest, keys, start, quest.end) implies
        search.costs[quest.end] <= #[trigger] cost_of(model, quest, keys) by {
        let last = keys.len() - 1;
        lemma_waiting(search, model, quest, start, floor, keys, last);
        let j = choose|j: int| 0 <= j <= last && #[trigger] waits(search, model, quest, keys, j);
        let waiting = entry_of(search, quest, keys[j]);
        assert(search.frontier.count(waiting) == 1);
        assert(!waiting.before(entry));
        lemma_rest(model, quest, keys, j, last);
        assert(quest.bound(quest.end) == 0);
        assert(waiting.estimate == waiting.cost + quest.bound(keys[j]));
    }
}

/// A search that has spent its visits saw more layers than it may visit.
proof fn lemma_spent(
    search: Search,
    model: DocumentModel,
    quest: Quest,
    start: u64,
    floor: int,
    entry: Entry,
)
    requires
        sound(search, model, quest, start, floor, None),
        search.frontier.count(entry) > 0,
        search.current(entry),
        search.visited >= 65_536,
    ensures
        too_wide(model, quest),
{
    assert(entry.estimate == entry.cost + quest.bound(entry.node));
    assert(entry == entry_of(search, quest, entry.node));
    assert(!search.expanded.contains(entry.node));
    let layers = search.expanded.insert(entry.node);
    assert(layers.len() == 65_537);
    assert forall|key: u64| layers.contains(key) implies quest.usable(model, key) by {
        if key != entry.node {
            assert(search.expanded.contains(key));
        }
        assert(search.costs.contains_key(key));
    }
}

/// The first entry can be visited.
proof fn lemma_visit(
    search: Search,
    model: DocumentModel,
    quest: Quest,
    start: u64,
    floor: int,
    entry: Entry,
)
    requires
        quest.valid(),
        sound(search, model, quest, start, floor, None),
        heap::is_first(search.frontier, entry),
        search.current(entry),
        entry.node != quest.end,
        search.visited < 65_536,
    ensures
        ({
            let next = search.without(entry).visiting(entry.node);
            let edge = entry.cost + quest.bound(entry.node);
            &&& sound(next, model, quest, start, edge, Some(entry.node))
            &&& next.expanded.contains(entry.node)
            &&& next.costs[entry.node] == entry.cost
            &&& entry.cost + 67 <= 67 * next.visited
        }),
{
    assert(search.frontier.count(entry) > 0);
    assert(entry.estimate == entry.cost + quest.bound(entry.node));
    assert(entry == entry_of(search, quest, entry.node));
    assert(!search.expanded.contains(entry.node));
    let next = search.without(entry).visiting(entry.node);
    let edge = entry.cost + quest.bound(entry.node);
    assert forall|other: Entry| #[trigger] next.frontier.count(other) > 0 implies
        search.frontier.count(other) > 0 && edge <= other.estimate by {
        assert(search.frontier.count(other) > 0);
        assert(!other.before(entry));
    }
    assert forall|key: u64| #[trigger]
        next.costs.contains_key(key) && !next.expanded.contains(key) implies next.frontier.count(
        entry_of(next, quest, key),
    ) == 1 by {
        assert(search.costs.contains_key(key) && !search.expanded.contains(key));
        assert(entry_of(next, quest, key) == entry_of(search, quest, key));
        assert(entry_of(search, quest, key) != entry);
    }
    assert forall|key: u64| #[trigger] next.expanded.contains(key) implies next.costs.contains_key(
        key,
    ) && key != quest.end && next.frontier.count(entry_of(next, quest, key)) == 0
        && next.costs[key] + quest.bound(key) <= edge by {
        assert(entry_of(next, quest, key) == entry_of(search, quest, key));
        if key != entry.node {
            assert(search.expanded.contains(key));
        } else {
            assert(search.costs.contains_key(key) && !search.expanded.contains(key));
            assert(search.frontier.count(entry) == 1);
        }
    }
    assert forall|key: u64| #[trigger]
        next.expanded.contains(key) && Some(entry.node) != Some(key) implies relaxed(
        next,
        model,
        quest,
        key,
    ) by {
        assert(search.expanded.contains(key));
        assert(relaxed(search, model, quest, key));
    }
    assert forall|key: u64| #[trigger] next.costs.contains_key(key) implies next.costs[key] <= 67
        * next.visited && route::located(model, key) by {
        assert(search.costs.contains_key(key));
    }
    assert(next.steady(model));
}

proof fn lemma_finished(search: Search, model: DocumentModel, quest: Quest, start: u64, floor: int)
    requires
        quest.valid(),
        sound(search, model, quest, start, floor, None),
    ensures
        settled(model, quest, start, search.finished(model, quest)),
    decreases 65_537 - search.visited, search.frontier.len(),
{
    let entry = search.first();
    if !heap::is_first(search.frontier, entry) {
        lemma_exhausted(search, model, quest, start, floor);
    } else if !search.current(entry) {
        lemma_stale(search, model, quest, start, floor, entry);
        lemma_finished(search.without(entry), model, quest, start, floor);
    } else if entry.node == quest.end {
        lemma_arrived(search, model, quest, start, floor, entry);
    } else if search.visited >= 65_536 {
        lemma_spent(search, model, quest, start, floor, entry);
    } else {
        lemma_visit(search, model, quest, start, floor, entry);
        let next = search.without(entry).visiting(entry.node);
        lemma_expand(next, model, quest, start, entry.node, entry.cost);
        let after = next.expanding(model, quest, entry.node, entry.cost);
        lemma_finished(after, model, quest, start, entry.cost + quest.bound(entry.node));
    }
}

/// A route that was found leads from the first layer to the last in steps that
/// a route may take, and no such route costs less. None is found only where the
/// ends cannot be joined, where no such route exists, or where the rectangle
/// holds more layers than a search visits.
pub proof fn route_is_the_cheapest(document: &Document, start: LayerAddress, end: LayerAddress)
    requires
        document.well_formed(),
    ensures
        ({
            let model = document@;
            let quest = Quest::between(model, start, end);
            match route::routed(model, start, end) {
                Some(route) => route::joinable(model, start, end) && exists|keys: Seq<u64>| #[trigger]
                    joins(model, quest, keys, route::key_at(start), route::key_at(end)) && route
                        == keys.map_values(|key: u64| route::address_at(key)) && (forall|other: Seq<
                        u64,
                    >|
                        joins(model, quest, other, route::key_at(start), route::key_at(end))
                            ==> cost_of(model, quest, keys) <= #[trigger] cost_of(
                            model,
                            quest,
                            other,
                        )),
                None => {
                    ||| !route::joinable(model, start, end)
                    ||| too_wide(model, quest)
                    ||| forall|keys: Seq<u64>|
                        !#[trigger] joins(
                            model,
                            quest,
                            keys,
                            route::key_at(start),
                            route::key_at(end),
                        )
                },
            }
        }),
{
    let model = document@;
    let quest = Quest::between(model, start, end);
    let first = route::key_at(start);
    let last = route::key_at(end);
    if route::joinable(model, start, end) {
        document.lemma_column_size(start.x as int, start.y as int);
        document.lemma_column_size(end.x as int, end.y as int);
        route::lemma_key(start.x as int, start.y as int, start.layer as int);
        route::lemma_key(end.x as int, end.y as int, end.layer as int);
        if start == end {
            let keys = seq![first];
            assert(joins(model, quest, keys, first, last));
            assert(keys.map_values(|key: u64| route::address_at(key)) =~= seq![start]);
            assert forall|other: Seq<u64>| joins(model, quest, other, first, last) implies cost_of(
                model,
                quest,
                keys,
            ) <= #[trigger] cost_of(model, quest, other) by {
                lemma_cost_positive(model, quest, other, other.len() - 1);
            }
        } else {
            let initial = Search::at(quest, first);
            let only = Entry { estimate: quest.bound(first) as u32, cost: 0, node: first };
            assert(quest.usable(model, first));
            assert(route::located(model, first));
            lemma_bound_small(model, quest, first);
            assert forall|entry: Entry| #[trigger] initial.frontier.count(entry) > 0 implies entry
                == only by {}
            assert(initial.frontier.count(only) == 1);
            assert(sound(initial, model, quest, first, 0, None));
            lemma_finished(initial, model, quest, first, 0);
            match initial.finished(model, quest) {
                Some(search) => {
                    let floor = choose|floor: int| #[trigger]
                        sound(search, model, quest, first, floor, None);
                    let limit = search.costs[last] as nat;
                    lemma_trail(search, model, quest, first, floor, last, limit);
                    let keys = trail_keys(search, last, limit);
                    assert(joins(model, quest, keys, first, last));
                },
                None => {},
            }
        }
    }
}

proof fn lemma_cost_positive(model: DocumentModel, quest: Quest, keys: Seq<u64>, steps: int)
    requires
        is_route(model, quest, keys),
        steps < keys.len(),
    ensures
        cost_to(model, quest, keys, steps) >= 0,
    decreases steps,
{
    if steps > 0 {
        lemma_cost_positive(model, quest, keys, steps - 1);
        assert(quest.edge(model, keys[steps - 1], keys[steps - 1 + 1]));
        Search::lemma_weight(model, quest, keys[steps - 1], keys[steps]);
    }
}

} // verus!
