//! What holds of the ground of every map.

use vstd::prelude::*;

use crate::unreal::objects::TerrainModel;
use crate::unreal::terrain::{Slope, TilesModel};

verus! {

/// Whether every neighbour is there, or none but the one to the south.
pub open spec fn seamless(tiles: TilesModel) -> bool {
    ||| tiles.south is Some && tiles.east is Some && tiles.southeast is Some
    ||| tiles.east is None && tiles.southeast is None
}

proof fn lemma_product(a: int, b: int, width: int)
    requires
        a < b,
        0 <= width,
    ensures
        a * width + width <= b * width,
{
    assert(a * width + width <= b * width) by (nonlinear_arith)
        requires
            a + 1 <= b,
            0 <= width,
    ;
}

pub proof fn lemma_sizes(tiles: TilesModel)
    requires
        tiles.complete(),
    ensures
        tiles.height * tiles.width == tiles.width * tiles.height,
        (tiles.height - 1) * tiles.width == tiles.width * tiles.height - tiles.width,
        (tiles.width + 1) * (tiles.height + 1) == tiles.width * tiles.height + tiles.width
            + tiles.height + 1,
        tiles.width + 2 <= tiles.width * tiles.height,
        (tiles.height + 1) * tiles.width == tiles.width * tiles.height + tiles.width,
        tiles.height * (tiles.width + 1) == tiles.width * tiles.height + tiles.height,
{
    let w = tiles.width;
    let h = tiles.height;
    assert(h * w == w * h) by (nonlinear_arith);
    assert((h - 1) * w == w * h - w) by (nonlinear_arith);
    assert((w + 1) * (h + 1) == w * h + w + h + 1) by (nonlinear_arith);
    assert((h + 1) * w == w * h + w) by (nonlinear_arith);
    assert(h * (w + 1) == w * h + h) by (nonlinear_arith);
    assert(w + 2 <= w * h) by (nonlinear_arith)
        requires
            2 <= w,
            2 <= h,
    ;
}

/// A vertex of the tile is one of the ground's.
pub proof fn lemma_vertex(tiles: TilesModel, x: int, y: int)
    requires
        tiles.complete(),
        0 <= x < tiles.width,
        0 <= y < tiles.height,
    ensures
        0 <= y * tiles.width + x < tiles.width * tiles.height,
        tiles.vertex(x, y) == y * tiles.width + x,
{
    lemma_sizes(tiles);
    lemma_product(y, tiles.height, tiles.width);
    assert(0 <= y * tiles.width) by (nonlinear_arith)
        requires
            0 <= y,
            2 <= tiles.width,
    ;
}

pub open spec fn all_below(indices: Seq<u32>, size: int) -> bool {
    forall|i: int| 0 <= i < indices.len() ==> (#[trigger] indices[i]) < size
}

proof fn lemma_joined(left: Seq<u32>, right: Seq<u32>, size: int)
    requires
        all_below(left, size),
        all_below(right, size),
        left.len() % 3 == 0,
        right.len() % 3 == 0,
    ensures
        all_below(left + right, size),
        (left + right).len() % 3 == 0,
{
}

pub proof fn lemma_row_quads(tiles: TilesModel, terrain: TerrainModel, y: int, count: nat)
    requires
        tiles.complete(),
        count < tiles.width,
        0 <= y < tiles.height - 1,
    ensures
        all_below(tiles.row_quads(terrain, y, count), tiles.size()),
        tiles.row_quads(terrain, y, count).len() % 3 == 0,
    decreases count,
{
    if count > 0 {
        let x = count - 1;
        lemma_row_quads(tiles, terrain, y, (count - 1) as nat);
        lemma_vertex(tiles, x, y);
        lemma_vertex(tiles, x + 1, y);
        lemma_vertex(tiles, x, y + 1);
        lemma_vertex(tiles, x + 1, y + 1);
        lemma_joined(
            tiles.row_quads(terrain, y, (count - 1) as nat),
            tiles.quad(terrain, x, y),
            tiles.size(),
        );
    }
}

pub proof fn lemma_quads(tiles: TilesModel, terrain: TerrainModel, rows: nat)
    requires
        tiles.complete(),
        rows < tiles.height,
    ensures
        all_below(tiles.quads(terrain, rows), tiles.size()),
        tiles.quads(terrain, rows).len() % 3 == 0,
    decreases rows,
{
    if rows > 0 {
        lemma_quads(tiles, terrain, (rows - 1) as nat);
        lemma_row_quads(tiles, terrain, rows - 1, (tiles.width - 1) as nat);
        lemma_joined(
            tiles.quads(terrain, (rows - 1) as nat),
            tiles.row_quads(terrain, rows - 1, (tiles.width - 1) as nat),
            tiles.size(),
        );
    }
}

pub proof fn lemma_south_edge(tiles: TilesModel, count: nat)
    requires
        tiles.complete(),
        tiles.south is Some,
        count <= tiles.width,
    ensures
        all_below(tiles.south_edge(count), tiles.size()),
        tiles.south_edge(count).len() % 3 == 0,
    decreases count,
{
    lemma_sizes(tiles);
    if count > 0 {
        lemma_south_edge(tiles, (count - 1) as nat);
        lemma_vertex(tiles, count - 1, tiles.height - 1);
        if count < tiles.width {
            lemma_vertex(tiles, count as int, tiles.height - 1);
        }
    }
}

pub proof fn lemma_east_edge(tiles: TilesModel, count: nat)
    requires
        tiles.complete(),
        tiles.east is Some,
        count <= tiles.height,
    ensures
        all_below(tiles.east_edge(count), tiles.size()),
        tiles.east_edge(count).len() % 3 == 0,
    decreases count,
{
    lemma_sizes(tiles);
    if count > 0 {
        lemma_east_edge(tiles, (count - 1) as nat);
        lemma_vertex(tiles, tiles.width - 1, count - 1);
        if count < tiles.height {
            lemma_vertex(tiles, tiles.width - 1, count as int);
        }
    }
}

/// Every corner of a triangle of the ground is one of its vertices.
pub proof fn terrain_mesh_is_closed(tiles: TilesModel, terrain: TerrainModel)
    requires
        tiles.complete(),
    ensures
        tiles.mesh(terrain).places.len() == tiles.size(),
        tiles.mesh(terrain).slopes.len() == tiles.size(),
        tiles.mesh(terrain).indices.len() % 3 == 0,
        forall|i: int|
            0 <= i < tiles.mesh(terrain).indices.len() ==> (#[trigger] tiles.mesh(
                terrain,
            ).indices[i]) < tiles.size(),
{
    lemma_sizes(tiles);
    lemma_main_places(tiles, tiles.height as nat);
    lemma_slopes_length(tiles, (tiles.height + 1) as nat);
    let size = tiles.size();
    let quads = tiles.quads(terrain, (tiles.height - 1) as nat);
    lemma_quads(tiles, terrain, (tiles.height - 1) as nat);
    let south = if tiles.south is Some {
        tiles.south_edge(tiles.width as nat)
    } else {
        Seq::empty()
    };
    if tiles.south is Some {
        lemma_south_edge(tiles, tiles.width as nat);
    }
    lemma_joined(quads, south, size);
    let east = if tiles.east is Some {
        tiles.east_edge(tiles.height as nat)
    } else {
        Seq::empty()
    };
    if tiles.east is Some {
        lemma_east_edge(tiles, tiles.height as nat);
    }
    lemma_joined(quads + south, east, size);
    let corner = if tiles.southeast is Some {
        tiles.corner()
    } else {
        Seq::empty()
    };
    if tiles.southeast is Some {
        lemma_vertex(tiles, tiles.width - 1, tiles.height - 1);
    }
    lemma_joined(quads + south + east, corner, size);
    assert(tiles.mesh(terrain).indices == quads + south + east + corner);
}

pub proof fn lemma_main_places(tiles: TilesModel, rows: nat)
    requires
        tiles.complete(),
        rows <= tiles.height,
    ensures
        tiles.main_places(rows).len() == rows * tiles.width,
        forall|x: int, y: int|
            0 <= x < tiles.width && 0 <= y < rows ==> #[trigger] tiles.main_places(rows)[y
                * tiles.width + x] == tiles.place(x, y, crate::unreal::terrain::Tile::Main),
    decreases rows,
{
    let w = tiles.width;
    if rows > 0 {
        let before = tiles.main_places((rows - 1) as nat);
        lemma_main_places(tiles, (rows - 1) as nat);
        assert(rows * w == (rows - 1) * w + w) by (nonlinear_arith);
        assert forall|x: int, y: int| 0 <= x < w && 0 <= y < rows implies (
        #[trigger] tiles.main_places(rows)[y * w + x]) == tiles.place(
            x,
            y,
            crate::unreal::terrain::Tile::Main,
        ) by {
            assert(0 <= y * w) by (nonlinear_arith)
                requires
                    0 <= y,
                    2 <= w,
            ;
            if y < rows - 1 {
                lemma_product(y, rows - 1, w);
                assert(tiles.main_places(rows)[y * w + x] == before[y * w + x]);
            }
        }
    } else {
        assert(0 * w == 0) by (nonlinear_arith);
    }
}

proof fn lemma_row_length(tiles: TilesModel, slopes: Seq<Option<Slope>>, y: int, count: nat)
    requires
        tiles.complete(),
        0 <= y <= tiles.height,
        count <= tiles.width + 1,
    ensures
        tiles.row_slopes(slopes, y, count).len() == slopes.len(),
    decreases count,
{
    if count > 0 {
        lemma_row_length(tiles, slopes, y, (count - 1) as nat);
        if tiles.target(count - 1, y) is Some {
            lemma_target(tiles, count - 1, y);
        }
    }
}

proof fn lemma_slopes_length(tiles: TilesModel, rows: nat)
    requires
        tiles.complete(),
        rows <= tiles.height + 1,
    ensures
        tiles.slopes(rows).len() == tiles.size(),
    decreases rows,
{
    lemma_sizes(tiles);
    if rows > 0 {
        lemma_slopes_length(tiles, (rows - 1) as nat);
        lemma_row_length(
            tiles,
            tiles.slopes((rows - 1) as nat),
            rows - 1,
            (tiles.width + 1) as nat,
        );
    }
}

/// Two points whose slope goes to the same vertex are one.
proof fn lemma_one_point(tiles: TilesModel, x: int, y: int, u: int, v: int)
    requires
        tiles.complete(),
        seamless(tiles),
        0 <= x <= tiles.width,
        0 <= y <= tiles.height,
        0 <= u <= tiles.width,
        0 <= v <= tiles.height,
        tiles.target(x, y) is Some,
        tiles.target(x, y) == tiles.target(u, v),
        tiles.target(x, y)->0 < tiles.size(),
    ensures
        x == u,
        y == v,
{
    lemma_sizes(tiles);
    if x < tiles.width && y < tiles.height {
        lemma_vertex(tiles, x, y);
    }
    if u < tiles.width && v < tiles.height {
        lemma_vertex(tiles, u, v);
    }
    if x < tiles.width && y < tiles.height && u < tiles.width && v < tiles.height {
        if y < v {
            lemma_product(y, v, tiles.width);
        } else if v < y {
            lemma_product(v, y, tiles.width);
        }
    }
}

proof fn lemma_row_keeps(
    tiles: TilesModel,
    slopes: Seq<Option<Slope>>,
    y: int,
    count: nat,
    u: int,
    v: int,
)
    requires
        tiles.complete(),
        seamless(tiles),
        slopes.len() == tiles.size(),
        0 <= y <= tiles.height,
        count <= tiles.width + 1,
        0 <= u <= tiles.width,
        0 <= v <= tiles.height,
        tiles.target(u, v) is Some,
        0 <= tiles.target(u, v)->0 < tiles.size(),
        v == y && u < count || slopes[tiles.target(u, v)->0] == Some(tiles.slope(u, v)),
    ensures
        tiles.row_slopes(slopes, y, count)[tiles.target(u, v)->0] == Some(tiles.slope(u, v)),
    decreases count,
{
    let vertex = tiles.target(u, v)->0;
    if count > 0 {
        let x = count - 1;
        let before = tiles.row_slopes(slopes, y, (count - 1) as nat);
        lemma_row_length(tiles, slopes, y, (count - 1) as nat);
        if x == u && y == v {
        } else {
            lemma_row_keeps(tiles, slopes, y, (count - 1) as nat, u, v);
            if tiles.target(x, y) == Some(vertex) {
                lemma_one_point(tiles, u, v, x, y);
            }
            if tiles.target(x, y) is Some && tiles.target(x, y)->0 < tiles.size() {
                lemma_target(tiles, x, y);
            }
        }
    }
}

proof fn lemma_target(tiles: TilesModel, x: int, y: int)
    requires
        tiles.complete(),
        0 <= x <= tiles.width,
        0 <= y <= tiles.height,
        tiles.target(x, y) is Some,
    ensures
        0 <= tiles.target(x, y)->0,
{
    lemma_sizes(tiles);
    if x < tiles.width && y < tiles.height {
        lemma_vertex(tiles, x, y);
    }
}

proof fn lemma_rows_keep(tiles: TilesModel, rows: nat, u: int, v: int)
    requires
        tiles.complete(),
        seamless(tiles),
        rows <= tiles.height + 1,
        0 <= u <= tiles.width,
        0 <= v < rows,
        tiles.target(u, v) is Some,
        0 <= tiles.target(u, v)->0 < tiles.size(),
    ensures
        tiles.slopes(rows)[tiles.target(u, v)->0] == Some(tiles.slope(u, v)),
    decreases rows,
{
    if rows > 0 {
        lemma_slopes_length(tiles, (rows - 1) as nat);
        if v < rows - 1 {
            lemma_rows_keep(tiles, (rows - 1) as nat, u, v);
        }
        lemma_row_keeps(
            tiles,
            tiles.slopes((rows - 1) as nat),
            rows - 1,
            (tiles.width + 1) as nat,
            u,
            v,
        );
    }
}

/// The vertex of a point, and the point of a vertex.
proof fn lemma_point(tiles: TilesModel, vertex: int)
    requires
        tiles.complete(),
        seamless(tiles),
        0 <= vertex < tiles.size(),
    ensures
        ({
            let place = tiles.places()[vertex];
            &&& 0 <= place.x <= tiles.width
            &&& 0 <= place.y <= tiles.height
            &&& tiles.target(place.x as int, place.y as int) == Some(vertex)
        }),
{
    let w = tiles.width;
    let h = tiles.height;
    lemma_sizes(tiles);
    lemma_main_places(tiles, h as nat);
    let main = tiles.main_places(h as nat);
    let south = tiles.south_places();
    let east = tiles.east_places();
    let corner = tiles.southeast_places();
    if vertex < w * h {
        let y = vertex / w;
        let x = vertex % w;
        vstd::arithmetic::div_mod::lemma_fundamental_div_mod(vertex, w);
        vstd::arithmetic::div_mod::lemma_mod_bound(vertex, w);
        assert(w * y == y * w) by (nonlinear_arith);
        vstd::arithmetic::div_mod::lemma_div_pos_is_pos(vertex, w);
        if y >= h {
            assert(y * w >= h * w) by (nonlinear_arith)
                requires
                    y >= h,
                    w >= 0,
            ;
        }
        assert(main[y * w + x] == tiles.place(x, y, crate::unreal::terrain::Tile::Main));
        assert(tiles.places()[vertex] == main[vertex]);
    } else if vertex < w * h + south.len() {
        assert(tiles.places()[vertex] == south[vertex - w * h]);
    } else if vertex < w * h + south.len() + east.len() {
        assert(tiles.places()[vertex] == east[vertex - w * h - south.len()]);
    } else {
        assert(tiles.places()[vertex] == corner[0]);
    }
}

/// Where the border is whole, every vertex has the slope of its own place.
pub proof fn seamless_ground_has_its_slopes(
    tiles: TilesModel,
    terrain: TerrainModel,
    vertex: int,
)
    requires
        tiles.complete(),
        seamless(tiles),
        0 <= vertex < tiles.size(),
    ensures
        ({
            let mesh = tiles.mesh(terrain);
            let place = mesh.places[vertex];
            mesh.slopes[vertex] == Some(tiles.slope(place.x as int, place.y as int))
        }),
{
    lemma_point(tiles, vertex);
    let place = tiles.places()[vertex];
    lemma_rows_keep(tiles, (tiles.height + 1) as nat, place.x as int, place.y as int);
}

} // verus!
