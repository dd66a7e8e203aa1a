//! Routes that follow a continuous strip of cells.

use std::collections::HashMap;
use vstd::multiset::Multiset;
use vstd::prelude::*;

use crate::heap;
use crate::heap::{Entry, Queue};
use crate::l2j::block::{Layer, LayerAddress, NULL_HEIGHT};
use crate::l2j::document::{Document, DocumentModel};
use crate::l2j::{document, grid};

verus! {

broadcast use vstd::std_specs::hash::group_hash_axioms;

/// How many cells a search goes on from at most.
pub const FLEX_ROUTE_MAX_VISITED: usize = 65_536;

/// How far a route may leave the rectangle between its ends.
pub const FLEX_ROUTE_MARGIN: usize = 64;

/// Coarse state of a layer: blocked, partially open or open. It matches the
/// three colours of the editor, without asking every cell of a strip for the
/// same mask.
pub open spec fn class_of(layer: Layer) -> int {
    if layer.nswe & 15 == 0 {
        0
    } else if layer.nswe & 15 == 15 {
        2
    } else {
        1
    }
}

/// Classes that a route may join: a class with itself, and any two that are not
/// blocked.
pub open spec fn same_family(left: int, right: int) -> bool {
    left == right || (left != 0 && right != 0)
}

/// What it costs to enter a layer of another class than the one asked for.
pub open spec fn class_cost(wanted: int, candidate: int) -> Option<int> {
    if wanted == candidate {
        Some(0)
    } else if wanted != 0 && candidate != 0 {
        Some(48)
    } else {
        None
    }
}

pub fn route_class(layer: Layer) -> (class: u8)
    ensures
        class == class_of(layer),
{
    let mask: u8 = layer.nswe & 15;
    if mask == 0 {
        0
    } else if mask == 15 {
        2
    } else {
        1
    }
}

pub fn same_route_family(left: u8, right: u8) -> (same: bool)
    ensures
        same == same_family(left as int, right as int),
{
    left == right || (left != 0 && right != 0)
}

pub fn route_class_cost(wanted: u8, candidate: u8) -> (cost: Option<u32>)
    ensures
        match cost {
            Some(cost) => class_cost(wanted as int, candidate as int) == Some(cost as int),
            None => class_cost(wanted as int, candidate as int) is None,
        },
{
    if wanted == candidate {
        Some(0)
    } else if wanted != 0 && candidate != 0 {
        Some(48)
    } else {
        None
    }
}

pub open spec fn apart(a: int, b: int) -> int {
    if a <= b {
        b - a
    } else {
        a - b
    }
}

/// The least that the way from one cell to another can cost.
pub open spec fn lower_bound(x: int, y: int, end_x: int, end_y: int) -> int {
    10 * (apart(x, end_x) + apart(y, end_y))
}

fn distance(a: usize, b: usize) -> (result: usize)
    ensures
        result == apart(a as int, b as int),
{
    if a <= b {
        b - a
    } else {
        a - b
    }
}

/// The search moves orthogonally, so the number of columns and rows between two
/// cells is a lower bound that no route can beat.
pub fn route_heuristic(x: usize, y: usize, end_x: usize, end_y: usize) -> (estimate: u32)
    requires
        grid::on_map(x as int, y as int),
        grid::on_map(end_x as int, end_y as int),
    ensures
        estimate == lower_bound(x as int, y as int, end_x as int, end_y as int),
        estimate <= 40_940,
{
    10 * (distance(x, end_x) as u32 + distance(y, end_y) as u32)
}

/// A layer of the map as one number, in the order of column, row and layer.
pub open spec fn key_of(x: int, y: int, layer: int) -> u64 {
    ((x * 2_048 + y) * 65_536 + layer) as u64
}

pub open spec fn key_x(key: u64) -> int {
    key as int / 65_536 / 2_048
}

pub open spec fn key_y(key: u64) -> int {
    key as int / 65_536 % 2_048
}

pub open spec fn key_layer(key: u64) -> int {
    key as int % 65_536
}

pub open spec fn key_at(address: LayerAddress) -> u64 {
    key_of(address.x as int, address.y as int, address.layer as int)
}

pub open spec fn address_at(key: u64) -> LayerAddress {
    LayerAddress {
        x: key_x(key) as usize,
        y: key_y(key) as usize,
        layer: key_layer(key) as usize,
    }
}

/// A key gives back what it was made of.
pub proof fn lemma_key(x: int, y: int, layer: int)
    requires
        grid::on_map(x, y),
        0 <= layer < 65_536,
    ensures
        key_x(key_of(x, y, layer)) == x,
        key_y(key_of(x, y, layer)) == y,
        key_layer(key_of(x, y, layer)) == layer,
        key_of(x, y, layer) == (x * 2_048 + y) * 65_536 + layer,
{
}

/// A key is made of what it gives back.
pub proof fn lemma_key_back(key: u64)
    requires
        grid::on_map(key_x(key), key_y(key)),
    ensures
        key_of(key_x(key), key_y(key), key_layer(key)) == key,
{
}

fn make_key(x: usize, y: usize, layer: usize) -> (key: u64)
    requires
        grid::on_map(x as int, y as int),
        layer < 65_536,
    ensures
        key == key_of(x as int, y as int, layer as int),
{
    (x as u64 * 2_048 + y as u64) * 65_536 + layer as u64
}

/// Where a search starts to look along an axis: a margin before the nearer end.
pub open spec fn window_start(a: int, b: int) -> int {
    let near = if a <= b {
        a
    } else {
        b
    };
    if near < 64 {
        0
    } else {
        near - 64
    }
}

/// Where it stops: a margin behind the farther end.
pub open spec fn window_end(a: int, b: int) -> int {
    let far = if a <= b {
        b
    } else {
        a
    };
    if far + 64 > 2_047 {
        2_047
    } else {
        far + 64
    }
}

/// Where a search looks and what it looks for.
pub struct Quest {
    pub min_x: usize,
    pub max_x: usize,
    pub min_y: usize,
    pub max_y: usize,
    pub wanted: u8,
    pub end_x: usize,
    pub end_y: usize,
    pub end: u64,
}

impl Quest {
    /// The search between two ends: the rectangle between them with a margin.
    pub open spec fn between(model: DocumentModel, start: LayerAddress, end: LayerAddress) -> Quest {
        Quest {
            min_x: window_start(start.x as int, end.x as int) as usize,
            max_x: window_end(start.x as int, end.x as int) as usize,
            min_y: window_start(start.y as int, end.y as int) as usize,
            max_y: window_end(start.y as int, end.y as int) as usize,
            wanted: class_of(model.column(start.x as int, start.y as int)[start.layer as int]) as u8,
            end_x: end.x,
            end_y: end.y,
            end: key_at(end),
        }
    }

    pub open spec fn valid(self) -> bool {
        &&& self.min_x <= self.max_x < 2_048
        &&& self.min_y <= self.max_y < 2_048
        &&& grid::on_map(self.end_x as int, self.end_y as int)
        &&& key_x(self.end) == self.end_x
        &&& key_y(self.end) == self.end_y
    }

    pub open spec fn inside(self, x: int, y: int) -> bool {
        self.min_x <= x <= self.max_x && self.min_y <= y <= self.max_y
    }

    pub open spec fn bound(self, key: u64) -> int {
        lower_bound(key_x(key), key_y(key), self.end_x as int, self.end_y as int)
    }

    /// The layer that a key names.
    pub open spec fn layer(self, model: DocumentModel, key: u64) -> Layer {
        model.column(key_x(key), key_y(key))[key_layer(key)]
    }

    /// Whether a route may enter a layer.
    pub open spec fn usable(self, model: DocumentModel, key: u64) -> bool {
        &&& self.inside(key_x(key), key_y(key))
        &&& key_layer(key) < model.column(key_x(key), key_y(key)).len()
        &&& self.layer(model, key).height != NULL_HEIGHT
        &&& class_cost(self.wanted as int, class_of(self.layer(model, key))) is Some
    }

    /// Whether a route may go from one layer to another: to a cell beside it,
    /// over a step of at most 64 units.
    pub open spec fn edge(self, model: DocumentModel, from: u64, to: u64) -> bool {
        &&& apart(key_x(from), key_x(to)) + apart(key_y(from), key_y(to)) == 1
        &&& self.usable(model, to)
        &&& apart(
            self.layer(model, from).height as int,
            self.layer(model, to).height as int,
        ) <= 64
    }

    /// What that step costs: ten, one for each eight units of height, one where
    /// the masks differ, and the cost of another class.
    pub open spec fn weight(self, model: DocumentModel, from: u64, to: u64) -> int {
        let here = self.layer(model, from);
        let there = self.layer(model, to);
        10 + apart(here.height as int, there.height as int) / 8 + (if here.nswe & 15 != there.nswe
            & 15 {
            1int
        } else {
            0int
        }) + class_cost(self.wanted as int, class_of(there))->0
    }
}

/// The state of a search: the cells to go on from, the cheapest way known to
/// each cell with the cell before it, and the cells that it went on from.
#[verifier::ext_equal]
pub struct Search {
    pub frontier: Multiset<Entry>,
    pub costs: Map<u64, u32>,
    pub previous: Map<u64, u64>,
    pub visited: nat,
    pub expanded: Set<u64>,
}

impl Search {
    /// A search that has not begun.
    pub open spec fn at(quest: Quest, start: u64) -> Search {
        Search {
            frontier: Multiset::empty().insert(
                Entry { estimate: quest.bound(start) as u32, cost: 0, node: start },
            ),
            costs: Map::empty().insert(start, 0),
            previous: Map::empty(),
            visited: 0,
            expanded: Set::empty(),
        }
    }

    pub open spec fn first(self) -> Entry {
        choose|entry: Entry| heap::is_first(self.frontier, entry)
    }

    pub open spec fn without(self, entry: Entry) -> Search {
        Search { frontier: self.frontier.remove(entry), ..self }
    }

    pub open spec fn visiting(self, node: u64) -> Search {
        Search { visited: self.visited + 1, expanded: self.expanded.insert(node), ..self }
    }

    /// The way to a layer by way of another one, taken where it is cheaper than
    /// any known before.
    pub open spec fn relaxing(
        self,
        model: DocumentModel,
        quest: Quest,
        from: u64,
        cost: u32,
        to: u64,
    ) -> Search {
        let next = cost + quest.weight(model, from, to);
        if !quest.edge(model, from, to) || (self.costs.contains_key(to) && self.costs[to]
            <= next) {
            self
        } else {
            Search {
                frontier: self.frontier.insert(
                    Entry {
                        estimate: (next + quest.bound(to)) as u32,
                        cost: next as u32,
                        node: to,
                    },
                ),
                costs: self.costs.insert(to, next as u32),
                previous: self.previous.insert(to, from),
                ..self
            }
        }
    }

    /// The same for the first layers of a cell.
    pub open spec fn relaxing_layers(
        self,
        model: DocumentModel,
        quest: Quest,
        from: u64,
        cost: u32,
        x: int,
        y: int,
        layers: nat,
    ) -> Search
        decreases layers,
    {
        if layers == 0 {
            self
        } else {
            self.relaxing_layers(model, quest, from, cost, x, y, (layers - 1) as nat).relaxing(
                model,
                quest,
                from,
                cost,
                key_of(x, y, layers - 1),
            )
        }
    }

    /// The same for all layers of a cell, where the search looks at it.
    pub open spec fn relaxing_cell(
        self,
        model: DocumentModel,
        quest: Quest,
        from: u64,
        cost: u32,
        x: int,
        y: int,
    ) -> Search {
        if quest.inside(x, y) {
            self.relaxing_layers(model, quest, from, cost, x, y, model.column(x, y).len())
        } else {
            self
        }
    }

    /// The same for the four cells around one: above, below, left and right.
    pub open spec fn expanding(
        self,
        model: DocumentModel,
        quest: Quest,
        from: u64,
        cost: u32,
    ) -> Search {
        let x = key_x(from);
        let y = key_y(from);
        self.relaxing_cell(model, quest, from, cost, x, y - 1).relaxing_cell(
            model,
            quest,
            from,
            cost,
            x,
            y + 1,
        ).relaxing_cell(model, quest, from, cost, x - 1, y).relaxing_cell(
            model,
            quest,
            from,
            cost,
            x + 1,
            y,
        )
    }

    /// Whether an entry of the frontier is the cheapest way known to its layer.
    pub open spec fn current(self, entry: Entry) -> bool {
        self.costs.contains_key(entry.node) && self.costs[entry.node] == entry.cost
    }

    /// The search carried on to its end: the state in which it came to the last
    /// cell, or nothing where it ran out of cells or of visits.
    pub open spec fn finished(self, model: DocumentModel, quest: Quest) -> Option<Search>
        decreases 65_537 - self.visited, self.frontier.len(),
    {
        let entry = self.first();
        if !heap::is_first(self.frontier, entry) {
            None
        } else if !self.current(entry) {
            self.without(entry).finished(model, quest)
        } else if entry.node == quest.end {
            Some(self)
        } else if self.visited >= 65_536 {
            None
        } else {
            proof {
                self.without(entry).visiting(entry.node).lemma_expanding_visited(
                    model,
                    quest,
                    entry.node,
                    entry.cost,
                );
            }
            self.without(entry).visiting(entry.node).expanding(
                model,
                quest,
                entry.node,
                entry.cost,
            ).finished(model, quest)
        }
    }

    proof fn lemma_layers_visited(
        self,
        model: DocumentModel,
        quest: Quest,
        from: u64,
        cost: u32,
        x: int,
        y: int,
        layers: nat,
    )
        ensures
            self.relaxing_layers(model, quest, from, cost, x, y, layers).visited == self.visited,
            self.relaxing_layers(model, quest, from, cost, x, y, layers).expanded
                == self.expanded,
        decreases layers,
    {
        if layers > 0 {
            self.lemma_layers_visited(model, quest, from, cost, x, y, (layers - 1) as nat);
        }
    }

    pub proof fn lemma_cell_visited(
        self,
        model: DocumentModel,
        quest: Quest,
        from: u64,
        cost: u32,
        x: int,
        y: int,
    )
        ensures
            self.relaxing_cell(model, quest, from, cost, x, y).visited == self.visited,
            self.relaxing_cell(model, quest, from, cost, x, y).expanded == self.expanded,
    {
        self.lemma_layers_visited(model, quest, from, cost, x, y, model.column(x, y).len());
    }

    pub proof fn lemma_expanding_visited(
        self,
        model: DocumentModel,
        quest: Quest,
        from: u64,
        cost: u32,
    )
        ensures
            self.expanding(model, quest, from, cost).visited == self.visited,
            self.expanding(model, quest, from, cost).expanded == self.expanded,
    {
        let x = key_x(from);
        let y = key_y(from);
        self.lemma_cell_visited(model, quest, from, cost, x, y - 1);
        let north = self.relaxing_cell(model, quest, from, cost, x, y - 1);
        north.lemma_cell_visited(model, quest, from, cost, x, y + 1);
        let south = north.relaxing_cell(model, quest, from, cost, x, y + 1);
        south.lemma_cell_visited(model, quest, from, cost, x - 1, y);
        let west = south.relaxing_cell(model, quest, from, cost, x - 1, y);
        west.lemma_cell_visited(model, quest, from, cost, x + 1, y);
    }

    /// The layers on the way to one, from the first; at most `limit` steps back.
    pub open spec fn trail(self, node: u64, limit: nat) -> Seq<LayerAddress>
        decreases limit,
    {
        if limit == 0 || !self.previous.contains_key(node) {
            seq![address_at(node)]
        } else {
            self.trail(self.previous[node], (limit - 1) as nat).push(address_at(node))
        }
    }
}

/// Whether a key names a layer of the map.
pub open spec fn located(model: DocumentModel, key: u64) -> bool {
    grid::on_map(key_x(key), key_y(key)) && key_layer(key) < model.column(
        key_x(key),
        key_y(key),
    ).len()
}

impl Search {
    /// Costs that fit in their type, of layers that exist, that fall with every
    /// step back.
    pub open spec fn steady(self, model: DocumentModel) -> bool {
        &&& forall|entry: Entry| #[trigger]
            self.frontier.count(entry) > 0 ==> self.costs.contains_key(entry.node) && entry.cost
                <= 67 * self.visited && located(model, entry.node)
        &&& forall|key: u64| #[trigger]
            self.costs.contains_key(key) ==> self.costs[key] <= 67 * self.visited && located(
                model,
                key,
            )
        &&& forall|key: u64| #[trigger]
            self.previous.contains_key(key) ==> self.costs.contains_key(key)
                && self.costs.contains_key(self.previous[key]) && self.costs[self.previous[key]]
                + 10 <= self.costs[key]
    }

    pub proof fn lemma_weight(model: DocumentModel, quest: Quest, from: u64, to: u64)
        requires
            quest.edge(model, from, to),
        ensures
            10 <= quest.weight(model, from, to) <= 67,
    {
    }

    pub proof fn lemma_relaxing_steady(
        self,
        model: DocumentModel,
        quest: Quest,
        from: u64,
        cost: u32,
        to: u64,
    )
        requires
            self.steady(model),
            self.visited <= 65_536,
            quest.valid(),
            self.costs.contains_key(from),
            self.costs[from] <= cost,
            cost + 67 <= 67 * self.visited,
        ensures
            self.relaxing(model, quest, from, cost, to).steady(model),
            self.relaxing(model, quest, from, cost, to).costs.contains_key(from),
            self.relaxing(model, quest, from, cost, to).costs[from] <= cost,
    {
        let after = self.relaxing(model, quest, from, cost, to);
        if quest.edge(model, from, to) {
            Self::lemma_weight(model, quest, from, to);
            let next = cost + quest.weight(model, from, to);
            assert(0 <= next <= 67 * self.visited);
            assert(from != to);
            if !(self.costs.contains_key(to) && self.costs[to] <= next) {
                assert forall|entry: Entry| #[trigger]
                    after.frontier.count(entry) > 0 implies after.costs.contains_key(entry.node)
                    && entry.cost <= 67 * after.visited && located(model, entry.node) by {
                    if entry.node != to || entry.cost != next as u32 {
                        assert(self.frontier.count(entry) > 0);
                    }
                }
                assert forall|key: u64| #[trigger]
                    after.previous.contains_key(key) implies after.costs.contains_key(key)
                    && after.costs.contains_key(after.previous[key])
                    && after.costs[after.previous[key]] + 10 <= after.costs[key] by {
                    if key != to {
                        assert(self.previous.contains_key(key));
                    }
                }
            }
        }
    }
}

/// The exact state of a search.
spec fn held(
    frontier: Queue,
    costs: HashMap<u64, u32>,
    previous: HashMap<u64, u64>,
    search: Search,
) -> bool {
    &&& frontier.well_formed()
    &&& frontier@ == search.frontier
    &&& costs@ == search.costs
    &&& previous@ == search.previous
}

/// Tries the way to one layer.
fn relax(
    document: &Document,
    quest: &Quest,
    frontier: &mut Queue,
    costs: &mut HashMap<u64, u32>,
    previous: &mut HashMap<u64, u64>,
    from: u64,
    cost: u32,
    current: Layer,
    place: LayerAddress,
    Ghost(search): Ghost<Search>,
)
    requires
        document.well_formed(),
        quest.valid(),
        held(*old(frontier), *old(costs), *old(previous), search),
        search.steady(document@),
        search.visited <= 65_536,
        search.costs.contains_key(from),
        search.costs[from] <= cost,
        cost + 67 <= 67 * search.visited,
        current == quest.layer(document@, from),
        quest.inside(place.x as int, place.y as int),
        apart(key_x(from), place.x as int) + apart(key_y(from), place.y as int) == 1,
        place.layer < document@.column(place.x as int, place.y as int).len(),
        place.layer < 65_536,
    ensures
        held(
            *final(frontier),
            *final(costs),
            *final(previous),
            search.relaxing(document@, *quest, from, cost, key_at(place)),
        ),
        search.relaxing(document@, *quest, from, cost, key_at(place)).steady(document@),
        search.relaxing(document@, *quest, from, cost, key_at(place)).costs.contains_key(from),
        search.relaxing(document@, *quest, from, cost, key_at(place)).costs[from] <= cost,
{
    let ghost to = key_at(place);
    proof {
        lemma_key(place.x as int, place.y as int, place.layer as int);
        search.lemma_relaxing_steady(document@, *quest, from, cost, to);
        document::lemma_column(document@, place.x as int, place.y as int);
    }
    let next = match document.cell(place) {
        Some(next) => next,
        None => vstd::pervasive::unreached(),
    };
    assert(next == quest.layer(document@, to));
    let entering: u32 = match route_class_cost(quest.wanted, route_class(next)) {
        Some(entering) => entering,
        None => {
            return;
        },
    };
    let climb: i32 = if current.height <= next.height {
        next.height as i32 - current.height as i32
    } else {
        current.height as i32 - next.height as i32
    };
    if next.height == NULL_HEIGHT || climb > 64 {
        return;
    }
    assert(quest.edge(document@, from, to));
    proof {
        Search::lemma_weight(document@, *quest, from, to);
    }
    let turn: u32 = if current.nswe & 15 != next.nswe & 15 {
        1
    } else {
        0
    };
    let next_cost: u32 = cost + 10 + climb as u32 / 8 + turn + entering;
    assert(next_cost == cost + quest.weight(document@, from, to));
    let key: u64 = make_key(place.x, place.y, place.layer);
    let known: Option<u32> = match costs.get(&key) {
        Some(known) => Some(*known),
        None => None,
    };
    if let Some(known) = known {
        if known <= next_cost {
            return;
        }
    }
    costs.insert(key, next_cost);
    previous.insert(key, from);
    let estimate: u32 = next_cost + route_heuristic(place.x, place.y, quest.end_x, quest.end_y);
    frontier.push(Entry { estimate, cost: next_cost, node: key });
}

/// Tries the ways to the layers of one cell.
fn relax_cell(
    document: &Document,
    quest: &Quest,
    frontier: &mut Queue,
    costs: &mut HashMap<u64, u32>,
    previous: &mut HashMap<u64, u64>,
    from: u64,
    cost: u32,
    current: Layer,
    x: usize,
    y: usize,
    Ghost(search): Ghost<Search>,
)
    requires
        document.well_formed(),
        quest.valid(),
        held(*old(frontier), *old(costs), *old(previous), search),
        search.steady(document@),
        search.visited <= 65_536,
        search.costs.contains_key(from),
        search.costs[from] <= cost,
        cost + 67 <= 67 * search.visited,
        current == quest.layer(document@, from),
        apart(key_x(from), x as int) + apart(key_y(from), y as int) == 1,
    ensures
        held(
            *final(frontier),
            *final(costs),
            *final(previous),
            search.relaxing_cell(document@, *quest, from, cost, x as int, y as int),
        ),
        search.relaxing_cell(document@, *quest, from, cost, x as int, y as int).steady(document@),
        search.relaxing_cell(document@, *quest, from, cost, x as int, y as int).costs.contains_key(
            from,
        ),
        search.relaxing_cell(document@, *quest, from, cost, x as int, y as int).costs[from] <= cost,
        search.relaxing_cell(document@, *quest, from, cost, x as int, y as int).visited
            == search.visited,
{
    if x < quest.min_x || x > quest.max_x || y < quest.min_y || y > quest.max_y {
        return;
    }
    let count: usize = match document.layer_count(x, y) {
        Some(count) => count,
        None => vstd::pervasive::unreached(),
    };
    proof {
        document.lemma_column_size(x as int, y as int);
    }
    let mut layer: usize = 0;
    while layer < count
        invariant
            layer <= count,
            count == document@.column(x as int, y as int).len(),
            count <= 65_535,
            document.well_formed(),
            quest.valid(),
            quest.inside(x as int, y as int),
            search.visited <= 65_536,
            cost + 67 <= 67 * search.visited,
            current == quest.layer(document@, from),
            apart(key_x(from), x as int) + apart(key_y(from), y as int) == 1,
            ({
                let now = search.relaxing_layers(
                    document@,
                    *quest,
                    from,
                    cost,
                    x as int,
                    y as int,
                    layer as nat,
                );
                &&& held(*frontier, *costs, *previous, now)
                &&& now.steady(document@)
                &&& now.costs.contains_key(from)
                &&& now.costs[from] <= cost
                &&& now.visited == search.visited
            }),
        decreases count - layer,
    {
        let ghost now = search.relaxing_layers(
            document@,
            *quest,
            from,
            cost,
            x as int,
            y as int,
            layer as nat,
        );
        relax(
            document,
            quest,
            frontier,
            costs,
            previous,
            from,
            cost,
            current,
            LayerAddress::new(x, y, layer),
            Ghost(now),
        );
        layer += 1;
    }
}

/// Tries the ways to the four cells around one.
fn expand(
    document: &Document,
    quest: &Quest,
    frontier: &mut Queue,
    costs: &mut HashMap<u64, u32>,
    previous: &mut HashMap<u64, u64>,
    from: u64,
    cost: u32,
    Ghost(search): Ghost<Search>,
)
    requires
        document.well_formed(),
        quest.valid(),
        held(*old(frontier), *old(costs), *old(previous), search),
        search.steady(document@),
        search.visited <= 65_536,
        search.costs.contains_key(from),
        search.costs[from] <= cost,
        cost + 67 <= 67 * search.visited,
    ensures
        held(
            *final(frontier),
            *final(costs),
            *final(previous),
            search.expanding(document@, *quest, from, cost),
        ),
        search.expanding(document@, *quest, from, cost).steady(document@),
        search.expanding(document@, *quest, from, cost).visited == search.visited,
{
    assert(located(document@, from));
    let x: usize = (from / 65_536 / 2_048) as usize;
    let y: usize = (from / 65_536 % 2_048) as usize;
    let layer: usize = (from % 65_536) as usize;
    let current = match document.cell(LayerAddress::new(x, y, layer)) {
        Some(current) => current,
        None => vstd::pervasive::unreached(),
    };
    let ghost model = document@;
    let ghost north = search.relaxing_cell(model, *quest, from, cost, x as int, y - 1);
    let ghost south = north.relaxing_cell(model, *quest, from, cost, x as int, y + 1);
    let ghost west = south.relaxing_cell(model, *quest, from, cost, x - 1, y as int);
    if y > 0 {
        relax_cell(
            document,
            quest,
            frontier,
            costs,
            previous,
            from,
            cost,
            current,
            x,
            y - 1,
            Ghost(search),
        );
    }
    relax_cell(
        document,
        quest,
        frontier,
        costs,
        previous,
        from,
        cost,
        current,
        x,
        y + 1,
        Ghost(north),
    );
    if x > 0 {
        relax_cell(
            document,
            quest,
            frontier,
            costs,
            previous,
            from,
            cost,
            current,
            x - 1,
            y,
            Ghost(south),
        );
    }
    relax_cell(
        document,
        quest,
        frontier,
        costs,
        previous,
        from,
        cost,
        current,
        x + 1,
        y,
        Ghost(west),
    );
}

/// The ends of a route: layers of the map, no sentinels, of classes that a
/// route may join.
pub open spec fn joinable(model: DocumentModel, start: LayerAddress, end: LayerAddress) -> bool {
    let first = model.cell(start.x as int, start.y as int, start.layer as int);
    let last = model.cell(end.x as int, end.y as int, end.layer as int);
    &&& first is Some
    &&& last is Some
    &&& first->0.height != NULL_HEIGHT
    &&& last->0.height != NULL_HEIGHT
    &&& same_family(class_of(first->0), class_of(last->0))
}

/// The route that a search finds between two layers.
pub open spec fn routed(model: DocumentModel, start: LayerAddress, end: LayerAddress) -> Option<
    Seq<LayerAddress>,
> {
    let quest = Quest::between(model, start, end);
    if !joinable(model, start, end) {
        None
    } else if start == end {
        Some(seq![start])
    } else {
        match Search::at(quest, key_at(start)).finished(model, quest) {
            None => None,
            Some(search) => Some(search.trail(quest.end, search.costs[quest.end] as nat)),
        }
    }
}

/// There is one first entry.
pub proof fn lemma_first(search: Search, entry: Entry)
    requires
        heap::is_first(search.frontier, entry),
    ensures
        search.first() == entry,
{
    let other = search.first();
    assert(heap::is_first(search.frontier, other));
    assert(!other.before(entry) && !entry.before(other));
}

fn key_address(key: u64) -> (place: LayerAddress)
    ensures
        place == address_at(key),
{
    LayerAddress::new(
        (key / 65_536 / 2_048) as usize,
        (key / 65_536 % 2_048) as usize,
        (key % 65_536) as usize,
    )
}

/// The addresses of some keys, the last key first.
spec fn backward_addresses(keys: Seq<u64>) -> Seq<LayerAddress> {
    Seq::new(keys.len(), |i: int| address_at(keys[keys.len() - 1 - i]))
}

/// Follows the way back from the last layer, and gives it from the first one on.
fn reconstruct_route(
    previous: &HashMap<u64, u64>,
    end: u64,
    Ghost(search): Ghost<Search>,
    Ghost(model): Ghost<DocumentModel>,
) -> (route: Vec<LayerAddress>)
    requires
        previous@ == search.previous,
        search.steady(model),
        search.costs.contains_key(end),
    ensures
        route@ == search.trail(end, search.costs[end] as nat),
{
    let mut back: Vec<u64> = Vec::new();
    let mut current: u64 = end;
    let ghost mut limit: nat = search.costs[end] as nat;
    let ghost whole = search.trail(end, limit);
    assert(whole =~= search.trail(current, limit) + backward_addresses(back@));
    loop
        invariant
            previous@ == search.previous,
            search.steady(model),
            search.costs.contains_key(current),
            search.costs[current] <= limit,
            whole == search.trail(current, limit) + backward_addresses(back@),
        ensures
            whole == seq![address_at(current)] + backward_addresses(back@),
        decreases limit,
    {
        let step: Option<u64> = match previous.get(&current) {
            Some(parent) => Some(*parent),
            None => None,
        };
        match step {
            Some(parent) => {
                let ghost before = backward_addresses(back@);
                back.push(current);
                proof {
                    assert(search.previous.contains_key(current));
                    assert(backward_addresses(back@) =~= seq![address_at(current)] + before);
                    assert(whole =~= search.trail(parent, (limit - 1) as nat)
                        + backward_addresses(back@));
                    limit = (limit - 1) as nat;
                }
                current = parent;
            },
            None => {
                break;
            },
        }
    }
    let mut route: Vec<LayerAddress> = Vec::new();
    route.push(key_address(current));
    let mut rest: usize = back.len();
    assert(back@.skip(back@.len() as int) =~= Seq::<u64>::empty());
    assert(route@ =~= seq![address_at(current)] + backward_addresses(Seq::<u64>::empty()));
    while rest > 0
        invariant
            rest <= back@.len(),
            route@ == seq![address_at(current)] + backward_addresses(back@.skip(rest as int)),
        decreases rest,
    {
        rest -= 1;
        route.push(key_address(back[rest]));
        proof {
            let now = back@.skip(rest as int);
            let before = back@.skip(rest + 1);
            assert(now =~= seq![back@[rest as int]] + before);
            assert(backward_addresses(now) =~= backward_addresses(before).push(
                address_at(back@[rest as int]),
            ));
            assert(route@ =~= seq![address_at(current)] + backward_addresses(now));
        }
    }
    assert(back@.skip(0) =~= back@);
    route
}

/// The rectangle between two ends with a margin, kept on the map.
fn axis_window(a: usize, b: usize) -> (bounds: (usize, usize))
    requires
        a < 2_048,
        b < 2_048,
    ensures
        bounds.0 == window_start(a as int, b as int),
        bounds.1 == window_end(a as int, b as int),
{
    let (low, high) = if a <= b {
        (a, b)
    } else {
        (b, a)
    };
    let start: usize = if low < FLEX_ROUTE_MARGIN {
        0
    } else {
        low - FLEX_ROUTE_MARGIN
    };
    let end: usize = if high + FLEX_ROUTE_MARGIN > 2_047 {
        2_047
    } else {
        high + FLEX_ROUTE_MARGIN
    };
    (start, end)
}

/// Finds a short cardinal route through one continuous passability family.
/// Open and partial cells may be connected, at a substantial cost, because real
/// routes often switch mask while turning a corner. Blocked cells remain
/// isolated from a walkable route. Cardinal steps keep a curved row as real
/// cells instead of cutting diagonally across a bend, and a route keeps to its
/// layers, so it never silently changes an unrelated ceiling or floor.
pub fn flexible_line_selection(
    document: &Document,
    start: LayerAddress,
    end: LayerAddress,
) -> (route: Option<Vec<LayerAddress>>)
    requires
        document.well_formed(),
    ensures
        match route {
            Some(route) => routed(document@, start, end) == Some(route@),
            None => routed(document@, start, end) is None,
        },
{
    let start_layer = match document.cell(start) {
        Some(layer) => layer,
        None => {
            return None;
        },
    };
    let end_layer = match document.cell(end) {
        Some(layer) => layer,
        None => {
            return None;
        },
    };
    if start_layer.height == NULL_HEIGHT || end_layer.height == NULL_HEIGHT || !same_route_family(
        route_class(start_layer),
        route_class(end_layer),
    ) {
        return None;
    }
    if start.x == end.x && start.y == end.y && start.layer == end.layer {
        let mut single: Vec<LayerAddress> = Vec::new();
        single.push(start);
        assert(single@ =~= seq![start]);
        return Some(single);
    }
    proof {
        document.lemma_column_size(start.x as int, start.y as int);
        document.lemma_column_size(end.x as int, end.y as int);
        lemma_key(start.x as int, start.y as int, start.layer as int);
        lemma_key(end.x as int, end.y as int, end.layer as int);
    }
    let (min_x, max_x) = axis_window(start.x, end.x);
    let (min_y, max_y) = axis_window(start.y, end.y);
    let quest = Quest {
        min_x,
        max_x,
        min_y,
        max_y,
        wanted: route_class(start_layer),
        end_x: end.x,
        end_y: end.y,
        end: make_key(end.x, end.y, end.layer),
    };
    assert(quest == Quest::between(document@, start, end));
    let first: u64 = make_key(start.x, start.y, start.layer);
    let mut frontier = Queue::new();
    let mut costs: HashMap<u64, u32> = HashMap::new();
    let mut previous: HashMap<u64, u64> = HashMap::new();
    frontier.push(
        Entry { estimate: route_heuristic(start.x, start.y, end.x, end.y), cost: 0, node: first },
    );
    costs.insert(first, 0);
    let ghost initial = Search::at(quest, first);
    let ghost mut search = initial;
    let mut visited: usize = 0;
    proof {
        assert(frontier@ =~= initial.frontier);
        assert(costs@ =~= initial.costs);
        assert(previous@ =~= initial.previous);
    }
    loop
        invariant
            document.well_formed(),
            joinable(document@, start, end),
            start != end,
            quest == Quest::between(document@, start, end),
            quest.valid(),
            initial == Search::at(quest, key_at(start)),
            held(frontier, costs, previous, search),
            search.steady(document@),
            search.visited == visited,
            visited <= 65_536,
            search.finished(document@, quest) == initial.finished(document@, quest),
        decreases 65_536 - visited, frontier@.len(),
    {
        let entry = match frontier.pop() {
            Some(entry) => entry,
            None => {
                proof {
                    assert(search.frontier.count(search.first()) == 0);
                }
                return None;
            },
        };
        proof {
            lemma_first(search, entry);
            assert(search.frontier.count(entry) > 0);
        }
        let known: Option<u32> = match costs.get(&entry.node) {
            Some(known) => Some(*known),
            None => None,
        };
        let current = match known {
            Some(known) => known == entry.cost,
            None => false,
        };
        assert(current == search.current(entry));
        if !current {
            proof {
                search = search.without(entry);
            }
            continue ;
        }
        if entry.node == quest.end {
            return Some(
                reconstruct_route(&previous, entry.node, Ghost(search), Ghost(document@)),
            );
        }
        if visited >= FLEX_ROUTE_MAX_VISITED {
            return None;
        }
        visited += 1;
        let ghost next = search.without(entry).visiting(entry.node);
        expand(
            document,
            &quest,
            &mut frontier,
            &mut costs,
            &mut previous,
            entry.node,
            entry.cost,
            Ghost(next),
        );
        proof {
            search = next.expanding(document@, quest, entry.node, entry.cost);
        }
    }
}

} // verus!
