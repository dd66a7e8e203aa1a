//! Ground and meshes, told by their triangles: where vertices lie, which of them
//! make a triangle, and which triangles stop a player.

use vstd::prelude::*;

use crate::unreal::objects::TerrainModel;
use crate::unreal::static_mesh;
use crate::unreal::static_mesh::StaticMeshModel;
use crate::unreal::terrain;
use crate::unreal::terrain::{Place, Tile, TilesModel};
use crate::unreal::terrain_laws;
use crate::unreal::texture;
use crate::unreal::texture::TextureModel;

verus! {

/// Bits are counted from the lowest of the first byte on. Those behind the last
/// byte are not set.
pub proof fn bits_are_counted_from_the_lowest(bytes: Seq<u8>, byte: int)
    requires
        0 <= byte,
    ensures
        byte < bytes.len() ==> {
            &&& terrain::bit_set(bytes, 8 * byte) == (bytes[byte] % 2 == 1)
            &&& terrain::bit_set(bytes, 8 * byte + 1) == (bytes[byte] / 2 % 2 == 1)
            &&& terrain::bit_set(bytes, 8 * byte + 2) == (bytes[byte] / 4 % 2 == 1)
            &&& terrain::bit_set(bytes, 8 * byte + 3) == (bytes[byte] / 8 % 2 == 1)
            &&& terrain::bit_set(bytes, 8 * byte + 4) == (bytes[byte] / 16 % 2 == 1)
            &&& terrain::bit_set(bytes, 8 * byte + 5) == (bytes[byte] / 32 % 2 == 1)
            &&& terrain::bit_set(bytes, 8 * byte + 6) == (bytes[byte] / 64 % 2 == 1)
            &&& terrain::bit_set(bytes, 8 * byte + 7) == (bytes[byte] / 128 % 2 == 1)
        },
        byte >= bytes.len() ==> !terrain::bit_set(bytes, 8 * byte),
{
    if byte < bytes.len() {
        let b = bytes[byte];
        assert((b & (1u8 << 0u8) != 0) == (b % 2 == 1) && (b & (1u8 << 1u8) != 0) == (b / 2 % 2
            == 1) && (b & (1u8 << 2u8) != 0) == (b / 4 % 2 == 1) && (b & (1u8 << 3u8) != 0) == (b
            / 8 % 2 == 1) && (b & (1u8 << 4u8) != 0) == (b / 16 % 2 == 1) && (b & (1u8 << 5u8) != 0)
            == (b / 32 % 2 == 1) && (b & (1u8 << 6u8) != 0) == (b / 64 % 2 == 1) && (b & (1u8
            << 7u8) != 0) == (b / 128 % 2 == 1)) by (bit_vector);
    }
}

/// Heights are numbers of two bytes, the low one first, row by row. Only a
/// texture of format 10 holds heights.
pub proof fn heights_are_numbers_of_two_bytes(texture: TextureModel, i: int)
    requires
        texture.heights() is Ok,
        0 <= i < texture.heights()->Ok_0.len(),
        0 <= texture.u_size,
        0 <= texture.v_size,
    ensures
        texture.format == 10,
        texture.heights()->Ok_0.len() == texture.u_size * texture.v_size,
        texture.heights()->Ok_0[i] == texture.mips[0][2 * i] + 256 * texture.mips[0][2 * i + 1],
{
    assert(texture.u_size * texture.v_size >= 0) by (nonlinear_arith)
        requires
            texture.u_size >= 0,
            texture.v_size >= 0,
    ;
}

/// The bytes of sixteen points of a texture: half a byte for each in format 3,
/// one in formats 7 and 8, two in format 10 and four in format 5.
pub proof fn formats_have_their_size()
    ensures
        texture::square_size(3) == Some(8int),
        texture::square_size(7) == Some(16int),
        texture::square_size(8) == Some(16int),
        texture::square_size(10) == Some(32int),
        texture::square_size(5) == Some(64int),
        forall|format: u8|
            format != 3 && format != 5 && format != 7 && format != 8 && format != 10
                ==> #[trigger] texture::square_size(format) is None,
{
}

/// Materials of old and new packages differ in size by their version.
pub proof fn materials_have_their_size(file: i16, license: i16)
    ensures
        license < 33 ==> texture::old_material_size(license) == 1_062,
        33 <= license < 36 ==> texture::old_material_size(license) == 1_063,
        36 <= license ==> texture::old_material_size(license) == 1_054,
        file < 129 ==> texture::new_material_size(file) == 36,
        file >= 129 ==> texture::new_material_size(file) == 92,
{
}

/// The vertices of the ground: those of the tile row by row, each at its height;
/// then the first row of the tile to the south, the first column of the one to
/// the east, and the first point of the one to the southeast, as far as they are
/// there.
pub proof fn ground_has_its_vertices(tiles: TilesModel, terrain: TerrainModel, x: int, y: int)
    requires
        tiles.complete(),
        0 <= x < tiles.width,
        0 <= y < tiles.height,
    ensures
        ({
            let places = tiles.mesh(terrain).places;
            let w = tiles.width;
            let h = tiles.height;
            let south = if tiles.south is Some {
                w
            } else {
                0
            };
            let east = if tiles.east is Some {
                h
            } else {
                0
            };
            &&& places[y * w + x] == (Place {
                x: x as usize,
                y: y as usize,
                height: tiles.main[y * w + x],
                tile: Tile::Main,
            })
            &&& tiles.south is Some ==> places[w * h + x] == (Place {
                x: x as usize,
                y: h as usize,
                height: tiles.south->0[x],
                tile: Tile::South,
            })
            &&& tiles.east is Some ==> places[w * h + south + y] == (Place {
                x: w as usize,
                y: y as usize,
                height: tiles.east->0[y * w],
                tile: Tile::East,
            })
            &&& tiles.southeast is Some ==> places[w * h + south + east] == (Place {
                x: w as usize,
                y: h as usize,
                height: tiles.southeast->0[0],
                tile: Tile::SouthEast,
            })
        }),
{
    terrain_laws::lemma_sizes(tiles);
    terrain_laws::lemma_vertex(tiles, x, y);
    lemma_main_place(tiles, tiles.height as nat, x, y);
    let main = tiles.main_places(tiles.height as nat);
    assert(main.len() == tiles.width * tiles.height);
    let south = tiles.south_places();
    let east = tiles.east_places();
    let corner = tiles.southeast_places();
    let places = tiles.places();
    assert(places[y * tiles.width + x] == main[y * tiles.width + x]);
    if tiles.south is Some {
        assert(places[main.len() + x] == south[x]);
    }
    if tiles.east is Some {
        assert(places[main.len() + south.len() + y] == east[y]);
    }
    if tiles.southeast is Some {
        assert(places[(main.len() + south.len() + east.len()) as int] == corner[0]);
    }
}

proof fn lemma_main_place(tiles: TilesModel, rows: nat, x: int, y: int)
    requires
        tiles.complete(),
        rows <= tiles.height,
        0 <= x < tiles.width,
        0 <= y < rows,
    ensures
        tiles.main_places(rows).len() == rows * tiles.width,
        0 <= y * tiles.width + x < rows * tiles.width,
        tiles.main_places(rows)[y * tiles.width + x] == tiles.place(x, y, Tile::Main),
    decreases rows,
{
    let w = tiles.width;
    let fewer = (rows - 1) as nat;
    assert(rows * w == fewer * w + w) by (nonlinear_arith)
        requires
            rows == fewer + 1,
    ;
    lemma_main_count(tiles, fewer);
    if y < fewer {
        lemma_main_place(tiles, fewer, x, y);
        assert(tiles.main_places(rows)[y * w + x] == tiles.main_places(fewer)[y * w + x]);
    } else {
        assert(0 <= y * w) by (nonlinear_arith)
            requires
                0 <= y,
                2 <= w,
        ;
    }
}

proof fn lemma_main_count(tiles: TilesModel, rows: nat)
    requires
        tiles.complete(),
    ensures
        tiles.main_places(rows).len() == rows * tiles.width,
    decreases rows,
{
    if rows > 0 {
        lemma_main_count(tiles, (rows - 1) as nat);
        let fewer = (rows - 1) as nat;
        assert(rows * tiles.width == fewer * tiles.width + tiles.width) by (nonlinear_arith)
            requires
                rows == fewer + 1,
        ;
    } else {
        assert(0 * tiles.width == 0);
    }
}

/// Inside the tile, the ground falls by the difference of the heights to the left
/// and to the right, and of those above and below.
pub proof fn slopes_are_differences_of_heights(tiles: TilesModel, x: int, y: int)
    requires
        tiles.complete(),
        0 < x < tiles.width - 1,
        0 < y < tiles.height - 1,
    ensures
        ({
            let w = tiles.width;
            let slope = tiles.slope(x, y);
            &&& slope.across == tiles.main[y * w + (x - 1)] - tiles.main[y * w + (x + 1)]
            &&& slope.down == tiles.main[(y - 1) * w + x] - tiles.main[(y + 1) * w + x]
        }),
{
}

/// Three indices in a row, from a multiple of three on.
pub open spec fn has_triangle(indices: Seq<u32>, t: (int, int, int)) -> bool {
    exists|k: int|
        0 <= k && 3 * k + 2 < indices.len() && #[trigger] is_triangle(indices, k, t)
}

pub open spec fn is_triangle(indices: Seq<u32>, k: int, t: (int, int, int)) -> bool {
    indices[3 * k] == t.0 && indices[3 * k + 1] == t.1 && indices[3 * k + 2] == t.2
}

proof fn lemma_joined(left: Seq<u32>, right: Seq<u32>, t: (int, int, int))
    requires
        left.len() % 3 == 0,
    ensures
        has_triangle(left + right, t) == (has_triangle(left, t) || has_triangle(right, t)),
{
    let both = left + right;
    let n = left.len() as int / 3;
    if has_triangle(left, t) {
        let k = choose|k: int| 0 <= k && 3 * k + 2 < left.len() && #[trigger] is_triangle(left, k, t);
        assert(is_triangle(both, k, t));
    }
    if has_triangle(right, t) {
        let k = choose|k: int|
            0 <= k && 3 * k + 2 < right.len() && #[trigger] is_triangle(right, k, t);
        assert(is_triangle(both, n + k, t));
    }
    if has_triangle(both, t) {
        let k = choose|k: int| 0 <= k && 3 * k + 2 < both.len() && #[trigger] is_triangle(both, k, t);
        if k < n {
            assert(is_triangle(left, k, t));
        } else {
            assert(is_triangle(right, k - n, t));
        }
    }
}

proof fn lemma_one(t: (int, int, int), a: u32, b: u32, c: u32)
    ensures
        has_triangle(seq![a, b, c], t) == (t == (a as int, b as int, c as int)),
{
    let s = seq![a, b, c];
    if t == (a as int, b as int, c as int) {
        assert(is_triangle(s, 0, t));
    }
}

proof fn lemma_none(t: (int, int, int))
    ensures
        !has_triangle(Seq::<u32>::empty(), t),
{
}

/// The triangles of a quad of the tile. It has none where it is not visible. Its
/// diagonal runs from the upper left to the lower right, or the other way where
/// the edge is turned.
pub open spec fn in_quad(
    tiles: TilesModel,
    terrain: TerrainModel,
    x: int,
    y: int,
    t: (int, int, int),
) -> bool {
    let w = tiles.width;
    let here = y * w + x;
    &&& terrain::bit_set(terrain.quad_visibility, here)
    &&& if terrain::bit_set(terrain.edge_turn, here) {
        t == (here + w, here, here + 1) || t == (here + w, here + 1, here + w + 1)
    } else {
        t == (here, here + 1, here + w + 1) || t == (here, here + w + 1, here + w)
    }
}

proof fn lemma_quad(tiles: TilesModel, terrain: TerrainModel, x: int, y: int, t: (int, int, int))
    requires
        tiles.complete(),
        0 <= x < tiles.width - 1,
        0 <= y < tiles.height - 1,
    ensures
        has_triangle(tiles.quad(terrain, x, y), t) == in_quad(tiles, terrain, x, y, t),
        tiles.quad(terrain, x, y).len() % 3 == 0,
{
    let w = tiles.width;
    terrain_laws::lemma_vertex(tiles, x, y);
    terrain_laws::lemma_vertex(tiles, x + 1, y);
    terrain_laws::lemma_vertex(tiles, x, y + 1);
    terrain_laws::lemma_vertex(tiles, x + 1, y + 1);
    assert((y + 1) * w == y * w + w) by (nonlinear_arith);
    let a = tiles.vertex(x, y);
    let b = tiles.vertex(x + 1, y);
    let c = tiles.vertex(x, y + 1);
    let d = tiles.vertex(x + 1, y + 1);
    let quad = tiles.quad(terrain, x, y);
    lemma_none(t);
    lemma_one(t, a, b, d);
    lemma_one(t, a, d, c);
    lemma_one(t, c, a, b);
    lemma_one(t, c, b, d);
    lemma_joined(seq![a, b, d], seq![a, d, c], t);
    lemma_joined(seq![c, a, b], seq![c, b, d], t);
    assert(seq![a, b, d] + seq![a, d, c] =~= seq![a, b, d, a, d, c]);
    assert(seq![c, a, b] + seq![c, b, d] =~= seq![c, a, b, c, b, d]);
}

proof fn lemma_row(
    tiles: TilesModel,
    terrain: TerrainModel,
    y: int,
    count: nat,
    t: (int, int, int),
)
    requires
        tiles.complete(),
        count < tiles.width,
        0 <= y < tiles.height - 1,
    ensures
        tiles.row_quads(terrain, y, count).len() % 3 == 0,
        has_triangle(tiles.row_quads(terrain, y, count), t) == exists|x: int|
            0 <= x < count && #[trigger] in_quad(tiles, terrain, x, y, t),
    decreases count,
{
    if count > 0 {
        lemma_row(tiles, terrain, y, (count - 1) as nat, t);
        lemma_quad(tiles, terrain, count - 1, y, t);
        lemma_joined(
            tiles.row_quads(terrain, y, (count - 1) as nat),
            tiles.quad(terrain, count - 1, y),
            t,
        );
    } else {
        lemma_none(t);
    }
}

proof fn lemma_rows(tiles: TilesModel, terrain: TerrainModel, rows: nat, t: (int, int, int))
    requires
        tiles.complete(),
        rows < tiles.height,
    ensures
        tiles.quads(terrain, rows).len() % 3 == 0,
        has_triangle(tiles.quads(terrain, rows), t) == exists|x: int, y: int|
            0 <= x < tiles.width - 1 && 0 <= y < rows && #[trigger] in_quad(
                tiles,
                terrain,
                x,
                y,
                t,
            ),
    decreases rows,
{
    if rows > 0 {
        lemma_rows(tiles, terrain, (rows - 1) as nat, t);
        lemma_row(tiles, terrain, rows - 1, (tiles.width - 1) as nat, t);
        lemma_joined(
            tiles.quads(terrain, (rows - 1) as nat),
            tiles.row_quads(terrain, rows - 1, (tiles.width - 1) as nat),
            t,
        );
    } else {
        lemma_none(t);
    }
}

/// The triangle of a cell of the last row with one point of the border to the
/// south.
pub open spec fn south_first(tiles: TilesModel, x: int, t: (int, int, int)) -> bool {
    let above = (tiles.height - 1) * tiles.width + x;
    let below = tiles.width * tiles.height + x;
    t == (above, above + 1, below)
}

/// The triangle of a cell of the last row with two points of that border.
pub open spec fn south_second(tiles: TilesModel, x: int, t: (int, int, int)) -> bool {
    let above = (tiles.height - 1) * tiles.width + x;
    let below = tiles.width * tiles.height + x;
    t == (above + 1, below + 1, below)
}

/// The first vertex of the border to the east, behind the one to the south.
pub open spec fn east_border(tiles: TilesModel) -> int {
    tiles.width * tiles.height + if tiles.south is Some {
        tiles.width
    } else {
        0
    }
}

/// The triangle of a cell of the last column with one point of the border to the
/// east.
pub open spec fn east_first(tiles: TilesModel, y: int, t: (int, int, int)) -> bool {
    let beside = y * tiles.width + tiles.width - 1;
    t == (beside, east_border(tiles) + y, beside + tiles.width)
}

/// The triangle of a cell of the last column with two points of that border.
pub open spec fn east_second(tiles: TilesModel, y: int, t: (int, int, int)) -> bool {
    let beside = y * tiles.width + tiles.width - 1;
    t == (beside + tiles.width, east_border(tiles) + y, east_border(tiles) + y + 1)
}

proof fn lemma_south_step(tiles: TilesModel, x: int, t: (int, int, int))
    requires
        tiles.complete(),
        tiles.south is Some,
        0 <= x < tiles.width,
    ensures
        ({
            let last = tiles.width * tiles.height + x;
            let above = tiles.vertex(x, tiles.height - 1);
            let opening = if x != tiles.width - 1 {
                seq![above, tiles.vertex(x + 1, tiles.height - 1), last as u32]
            } else {
                Seq::empty()
            };
            let closing = if x != 0 {
                seq![above, last as u32, (last - 1) as u32]
            } else {
                Seq::empty()
            };
            &&& opening.len() % 3 == 0
            &&& closing.len() % 3 == 0
            &&& has_triangle(opening, t) == (x < tiles.width - 1 && south_first(tiles, x, t))
            &&& has_triangle(closing, t) == (x > 0 && south_second(tiles, x - 1, t))
        }),
{
    terrain_laws::lemma_sizes(tiles);
    terrain_laws::lemma_vertex(tiles, x, tiles.height - 1);
    let last = (tiles.width * tiles.height + x) as u32;
    let above = tiles.vertex(x, tiles.height - 1);
    lemma_none(t);
    if x != tiles.width - 1 {
        terrain_laws::lemma_vertex(tiles, x + 1, tiles.height - 1);
        lemma_one(t, above, tiles.vertex(x + 1, tiles.height - 1), last);
    }
    if x != 0 {
        lemma_one(t, above, last, (last - 1) as u32);
    }
}

proof fn lemma_south(tiles: TilesModel, count: nat, t: (int, int, int))
    requires
        tiles.complete(),
        tiles.south is Some,
        count <= tiles.width,
    ensures
        tiles.south_edge(count).len() % 3 == 0,
        has_triangle(tiles.south_edge(count), t) == ((exists|x: int|
            0 <= x < count && x < tiles.width - 1 && #[trigger] south_first(tiles, x, t)) || (
        exists|x: int| 0 <= x < count - 1 && #[trigger] south_second(tiles, x, t))),
    decreases count,
{
    if count > 0 {
        let fewer = (count - 1) as nat;
        let x = count - 1;
        lemma_south(tiles, fewer, t);
        lemma_south_step(tiles, x, t);
        let last = tiles.width * tiles.height + x;
        let above = tiles.vertex(x, tiles.height - 1);
        let opening = if x != tiles.width - 1 {
            seq![above, tiles.vertex(x + 1, tiles.height - 1), last as u32]
        } else {
            Seq::empty()
        };
        let closing = if x != 0 {
            seq![above, last as u32, (last - 1) as u32]
        } else {
            Seq::empty()
        };
        lemma_joined(tiles.south_edge(fewer), opening, t);
        lemma_joined(tiles.south_edge(fewer) + opening, closing, t);
    } else {
        lemma_none(t);
    }
}

proof fn lemma_east_step(tiles: TilesModel, y: int, t: (int, int, int))
    requires
        tiles.complete(),
        tiles.east is Some,
        0 <= y < tiles.height,
    ensures
        ({
            let last = tiles.east_start() + y;
            let beside = tiles.vertex(tiles.width - 1, y);
            let opening = if y != tiles.height - 1 {
                seq![beside, last as u32, tiles.vertex(tiles.width - 1, y + 1)]
            } else {
                Seq::empty()
            };
            let closing = if y != 0 {
                seq![beside, (last - 1) as u32, last as u32]
            } else {
                Seq::empty()
            };
            &&& opening.len() % 3 == 0
            &&& closing.len() % 3 == 0
            &&& has_triangle(opening, t) == (y < tiles.height - 1 && east_first(tiles, y, t))
            &&& has_triangle(closing, t) == (y > 0 && east_second(tiles, y - 1, t))
        }),
{
    terrain_laws::lemma_sizes(tiles);
    terrain_laws::lemma_vertex(tiles, tiles.width - 1, y);
    let last = (tiles.east_start() + y) as u32;
    let beside = tiles.vertex(tiles.width - 1, y);
    assert((y + 1) * tiles.width == y * tiles.width + tiles.width) by (nonlinear_arith);
    assert((y - 1) * tiles.width == y * tiles.width - tiles.width) by (nonlinear_arith);
    lemma_none(t);
    if y != tiles.height - 1 {
        terrain_laws::lemma_vertex(tiles, tiles.width - 1, y + 1);
        lemma_one(t, beside, last, tiles.vertex(tiles.width - 1, y + 1));
    }
    if y != 0 {
        lemma_one(t, beside, (last - 1) as u32, last);
    }
}

proof fn lemma_east(tiles: TilesModel, count: nat, t: (int, int, int))
    requires
        tiles.complete(),
        tiles.east is Some,
        count <= tiles.height,
    ensures
        tiles.east_edge(count).len() % 3 == 0,
        has_triangle(tiles.east_edge(count), t) == ((exists|y: int|
            0 <= y < count && y < tiles.height - 1 && #[trigger] east_first(tiles, y, t)) || (
        exists|y: int| 0 <= y < count - 1 && #[trigger] east_second(tiles, y, t))),
    decreases count,
{
    if count > 0 {
        let fewer = (count - 1) as nat;
        let y = count - 1;
        lemma_east(tiles, fewer, t);
        lemma_east_step(tiles, y, t);
        let last = tiles.east_start() + y;
        let beside = tiles.vertex(tiles.width - 1, y);
        let opening = if y != tiles.height - 1 {
            seq![beside, last as u32, tiles.vertex(tiles.width - 1, y + 1)]
        } else {
            Seq::empty()
        };
        let closing = if y != 0 {
            seq![beside, (last - 1) as u32, last as u32]
        } else {
            Seq::empty()
        };
        lemma_joined(tiles.east_edge(fewer), opening, t);
        lemma_joined(tiles.east_edge(fewer) + opening, closing, t);
    } else {
        lemma_none(t);
    }
}

/// The two triangles at the corner to the southeast. Its own point is the last
/// vertex.
pub open spec fn at_corner(tiles: TilesModel, t: (int, int, int)) -> bool {
    let inner = tiles.width * tiles.height - 1;
    let last = east_border(tiles) + (if tiles.east is Some {
        tiles.height
    } else {
        0
    });
    t == (inner, last - 1, last) || t == (inner, last, last - (tiles.width + 2))
}

/// The triangles of the ground are those of its visible quads, those of the seams
/// to the tiles to the south and to the east, and the two at the corner, all of
/// them and no others.
pub proof fn ground_has_its_triangles(tiles: TilesModel, terrain: TerrainModel, t: (int, int, int))
    requires
        tiles.complete(),
    ensures
        has_triangle(tiles.mesh(terrain).indices, t) == ((exists|x: int, y: int|
            0 <= x < tiles.width - 1 && 0 <= y < tiles.height - 1 && #[trigger] in_quad(
                tiles,
                terrain,
                x,
                y,
                t,
            )) || (tiles.south is Some && ((exists|x: int|
            0 <= x < tiles.width - 1 && #[trigger] south_first(tiles, x, t)) || (exists|x: int|
            0 <= x < tiles.width - 1 && #[trigger] south_second(tiles, x, t)))) || (
        tiles.east is Some && ((exists|y: int|
            0 <= y < tiles.height - 1 && #[trigger] east_first(tiles, y, t)) || (exists|y: int|
            0 <= y < tiles.height - 1 && #[trigger] east_second(tiles, y, t)))) || (
        tiles.southeast is Some && at_corner(tiles, t))),
{
    terrain_laws::lemma_sizes(tiles);
    let quads = tiles.quads(terrain, (tiles.height - 1) as nat);
    lemma_rows(tiles, terrain, (tiles.height - 1) as nat, t);
    let south = if tiles.south is Some {
        tiles.south_edge(tiles.width as nat)
    } else {
        Seq::empty()
    };
    let east = if tiles.east is Some {
        tiles.east_edge(tiles.height as nat)
    } else {
        Seq::empty()
    };
    let corner = if tiles.southeast is Some {
        tiles.corner()
    } else {
        Seq::empty()
    };
    lemma_none(t);
    if tiles.south is Some {
        lemma_south(tiles, tiles.width as nat, t);
    }
    if tiles.east is Some {
        lemma_east(tiles, tiles.height as nat, t);
    }
    if tiles.southeast is Some {
        lemma_corner(tiles, t);
    }
    lemma_joined(quads, south, t);
    lemma_joined(quads + south, east, t);
    lemma_joined(quads + south + east, corner, t);
    assert(tiles.mesh(terrain).indices =~= quads + south + east + corner);
}

proof fn lemma_corner(tiles: TilesModel, t: (int, int, int))
    requires
        tiles.complete(),
        tiles.southeast is Some,
    ensures
        has_triangle(tiles.corner(), t) == at_corner(tiles, t),
{
    terrain_laws::lemma_sizes(tiles);
    terrain_laws::lemma_vertex(tiles, tiles.width - 1, tiles.height - 1);
    let last = tiles.size() - 1;
    let inner = tiles.vertex(tiles.width - 1, tiles.height - 1);
    let beside = (last - 1) as u32;
    let above = (last - (tiles.width + 2)) as u32;
    lemma_one(t, inner, beside, last as u32);
    lemma_one(t, inner, last as u32, above);
    lemma_joined(seq![inner, beside, last as u32], seq![inner, last as u32, above], t);
    assert(seq![inner, beside, last as u32] + seq![inner, last as u32, above] =~= tiles.corner());
}

/// A triangle of a surface whose material stops players, its corners in reverse.
pub open spec fn stops(mesh: StaticMeshModel, surface: int, triangle: int, t: (int, int, int)) -> bool {
    let start = mesh.surfaces[surface].first_index + 3 * triangle;
    &&& 0 <= surface < mesh.surfaces.len()
    &&& surface < mesh.materials.len() && mesh.materials[surface]
    &&& 0 <= triangle < mesh.surfaces[surface].triangle_max
    &&& start + 2 < mesh.indices.len()
    &&& t == (
        mesh.indices[start + 2] as int,
        mesh.indices[start + 1] as int,
        mesh.indices[start] as int,
    )
}

proof fn lemma_surface(mesh: StaticMeshModel, surface: int, t: (int, int, int))
    requires
        0 <= surface < mesh.surfaces.len(),
        mesh.is_solid(surface),
        mesh.surface_fits(surface),
    ensures
        ({
            let part = static_mesh::triangles_of(
                mesh.indices,
                mesh.surfaces[surface].first_index as int,
                mesh.surfaces[surface].triangle_max as nat,
            );
            part.len() % 3 == 0 && has_triangle(part, t) == exists|triangle: int| #[trigger]
                stops(mesh, surface, triangle, t)
        }),
{
    let start = mesh.surfaces[surface].first_index as int;
    let count = mesh.surfaces[surface].triangle_max as nat;
    let part = static_mesh::triangles_of(mesh.indices, start, count);
    assert forall|k: int| 0 <= k < count implies part[3 * k] == mesh.indices[start + 3 * k + 2]
        && part[3 * k + 1] == mesh.indices[start + 3 * k + 1] && #[trigger] part[3 * k + 2]
        == mesh.indices[start + 3 * k] by {
        assert((3 * k) / 3 == k && (3 * k) % 3 == 0);
        assert((3 * k + 1) / 3 == k && (3 * k + 1) % 3 == 1);
        assert((3 * k + 2) / 3 == k && (3 * k + 2) % 3 == 2);
    }
    if has_triangle(part, t) {
        let k = choose|k: int| 0 <= k && 3 * k + 2 < part.len() && #[trigger] is_triangle(part, k, t);
        assert(part[3 * k + 2] == mesh.indices[start + 3 * k]);
        assert(stops(mesh, surface, k, t));
    }
    if exists|triangle: int| #[trigger] stops(mesh, surface, triangle, t) {
        let k = choose|triangle: int| #[trigger] stops(mesh, surface, triangle, t);
        assert(part[3 * k + 2] == mesh.indices[start + 3 * k]);
        assert(is_triangle(part, k, t));
    }
}

proof fn lemma_solid(mesh: StaticMeshModel, count: nat, t: (int, int, int))
    requires
        mesh.collision() is Ok,
        count <= mesh.surfaces.len(),
    ensures
        mesh.solid_corners(count).len() % 3 == 0,
        has_triangle(mesh.solid_corners(count), t) == exists|surface: int, triangle: int|
            surface < count && #[trigger] stops(mesh, surface, triangle, t),
    decreases count,
{
    if count > 0 {
        let fewer = (count - 1) as nat;
        lemma_solid(mesh, fewer, t);
        if mesh.is_solid(count - 1) {
            assert(mesh.surface_fits(count - 1));
            lemma_surface(mesh, count - 1, t);
            lemma_joined(
                mesh.solid_corners(fewer),
                static_mesh::triangles_of(
                    mesh.indices,
                    mesh.surfaces[count - 1].first_index as int,
                    mesh.surfaces[count - 1].triangle_max as nat,
                ),
                t,
            );
        }
        if exists|surface: int, triangle: int|
            surface < count && #[trigger] stops(mesh, surface, triangle, t) {
            let (surface, triangle) = choose|surface: int, triangle: int|
                surface < count && #[trigger] stops(mesh, surface, triangle, t);
            if surface == count - 1 {
                assert(mesh.is_solid(surface));
            }
        }
    } else {
        lemma_none(t);
    }
}

/// Of a static mesh those triangles stop a player whose surface has a material
/// that does, all of them and no others, with their corners in reverse. It keeps
/// its vertices.
pub proof fn solid_surfaces_stop_players(mesh: StaticMeshModel, t: (int, int, int))
    requires
        mesh.collision() is Ok,
    ensures
        mesh.collision()->Ok_0.vertices == mesh.vertices,
        has_triangle(mesh.collision()->Ok_0.indices, t) == exists|surface: int, triangle: int|
            #[trigger] stops(mesh, surface, triangle, t),
{
    lemma_solid(mesh, mesh.surfaces.len(), t);
    if exists|surface: int, triangle: int| #[trigger] stops(mesh, surface, triangle, t) {
        let (surface, triangle) = choose|surface: int, triangle: int| #[trigger]
            stops(mesh, surface, triangle, t);
        assert(surface < mesh.surfaces.len());
    }
}

/// The entries of a static mesh byte by byte: a surface of fourteen bytes with
/// its first index behind four and its number of triangles behind twelve, and a
/// vertex of six numbers of four bytes.
pub proof fn mesh_entries_have_their_bytes(bytes: Seq<u8>, at: int)
    requires
        0 <= at,
        at + 24 <= bytes.len(),
    ensures
        static_mesh::surface(bytes, at).first_index == bytes[at + 4] + 256 * bytes[at + 5],
        static_mesh::surface(bytes, at).triangle_max == bytes[at + 12] + 256 * bytes[at + 13],
        static_mesh::vertex(bytes, at).position.x == bytes[at] + 256 * bytes[at + 1] + 65_536
            * bytes[at + 2] + 16_777_216 * bytes[at + 3],
        static_mesh::vertex(bytes, at).position.y == bytes[at + 4] + 256 * bytes[at + 5] + 65_536
            * bytes[at + 6] + 16_777_216 * bytes[at + 7],
        static_mesh::vertex(bytes, at).position.z == bytes[at + 8] + 256 * bytes[at + 9] + 65_536
            * bytes[at + 10] + 16_777_216 * bytes[at + 11],
        static_mesh::vertex(bytes, at).normal.x == bytes[at + 12] + 256 * bytes[at + 13] + 65_536
            * bytes[at + 14] + 16_777_216 * bytes[at + 15],
        static_mesh::SURFACE_SIZE == 14,
        static_mesh::VERTEX_SIZE == 24,
        static_mesh::BOUNDS_SIZE == 41,
        static_mesh::BOX_SIZE == 25,
{
}

} // verus!
