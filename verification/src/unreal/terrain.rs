//! The ground of a map as triangles.
//!
//! A tile of heights is joined to its neighbours by one row to the south, one
//! column to the east and one corner between them. The border keeps the ground
//! seamless from map to map.

use vstd::prelude::*;

use crate::error::{AppError, ErrorModel, Result};
use crate::unreal::objects::{Terrain, TerrainModel};
use crate::unreal::texture::{Texture, TextureModel};

verus! {

/// The tile that a height comes from. Its terrain gives the vertical scale.
#[derive(Clone, Copy, Debug, PartialEq, Eq, Structural)]
pub enum Tile {
    Main,
    South,
    East,
    SouthEast,
}

/// A vertex of the ground: its column and row, its height and its tile.
#[derive(Clone, Copy, Debug, PartialEq, Eq, Structural)]
pub struct Place {
    pub x: usize,
    pub y: usize,
    pub height: u16,
    pub tile: Tile,
}

/// How the ground falls at a vertex: from left to right, and from top to
/// bottom, over two cells.
#[derive(Clone, Copy, Debug, PartialEq, Eq, Structural)]
pub struct Slope {
    pub across: i32,
    pub down: i32,
}

/// The ground as triangles. A vertex without a slope faces nowhere.
#[derive(Clone, Debug)]
pub struct TerrainMesh {
    pub width: usize,
    pub height: usize,
    pub places: Vec<Place>,
    pub slopes: Vec<Option<Slope>>,
    pub indices: Vec<u32>,
}

/// What a [`TerrainMesh`] holds.
#[verifier::ext_equal]
pub struct TerrainMeshModel {
    pub width: int,
    pub height: int,
    pub places: Seq<Place>,
    pub slopes: Seq<Option<Slope>>,
    pub indices: Seq<u32>,
}

impl View for TerrainMesh {
    type V = TerrainMeshModel;

    open spec fn view(&self) -> TerrainMeshModel {
        TerrainMeshModel {
            width: self.width as int,
            height: self.height as int,
            places: self.places@,
            slopes: self.slopes@,
            indices: self.indices@,
        }
    }
}

/// Whether a bit of a bitmap is set. Bits behind its end are not.
pub open spec fn bit_set(bytes: Seq<u8>, index: int) -> bool {
    index / 8 < bytes.len() && bytes[index / 8] & (1u8 << (index % 8) as u8) != 0
}

pub fn bit(bytes: &[u8], index: usize) -> (set: bool)
    ensures
        set == bit_set(bytes@, index as int),
{
    index / 8 < bytes.len() && bytes[index / 8] & (1u8 << (index % 8) as u8) != 0
}

/// The heights of a tile and of its neighbours.
pub struct Tiles {
    pub width: usize,
    pub height: usize,
    pub main: Vec<u16>,
    pub south: Option<Vec<u16>>,
    pub east: Option<Vec<u16>>,
    pub southeast: Option<Vec<u16>>,
}

/// What [`Tiles`] hold.
#[verifier::ext_equal]
pub struct TilesModel {
    pub width: int,
    pub height: int,
    pub main: Seq<u16>,
    pub south: Option<Seq<u16>>,
    pub east: Option<Seq<u16>>,
    pub southeast: Option<Seq<u16>>,
}

pub open spec fn heights_of(heights: Option<Vec<u16>>) -> Option<Seq<u16>> {
    match heights {
        Some(heights) => Some(heights@),
        None => None,
    }
}

impl View for Tiles {
    type V = TilesModel;

    open spec fn view(&self) -> TilesModel {
        TilesModel {
            width: self.width as int,
            height: self.height as int,
            main: self.main@,
            south: heights_of(self.south),
            east: heights_of(self.east),
            southeast: heights_of(self.southeast),
        }
    }
}

impl TilesModel {
    /// Every height that the ground needs is there, and 32 bits count the
    /// vertices.
    pub open spec fn complete(self) -> bool {
        &&& 2 <= self.width
        &&& 2 <= self.height
        &&& self.main.len() == self.width * self.height
        &&& (self.width + 1) * (self.height + 1) <= u32::MAX
        &&& self.south is Some ==> self.width <= self.south->0.len()
        &&& self.east is Some ==> (self.height - 1) * self.width < self.east->0.len()
        &&& self.southeast is Some ==> 0 < self.southeast->0.len()
    }

    /// The height of a point of the tile or of its border. Where a neighbour is
    /// missing, the border is at zero.
    pub open spec fn ground(self, x: int, y: int) -> int {
        if x < self.width && y < self.height {
            self.main[y * self.width + x] as int
        } else if x < self.width {
            match self.south {
                Some(heights) => heights[x] as int,
                None => 0,
            }
        } else if y < self.height {
            match self.east {
                Some(heights) => heights[y * self.width] as int,
                None => 0,
            }
        } else {
            match self.southeast {
                Some(heights) => heights[0] as int,
                None => 0,
            }
        }
    }

    pub open spec fn place(self, x: int, y: int, tile: Tile) -> Place {
        Place { x: x as usize, y: y as usize, height: self.ground(x, y) as u16, tile }
    }

    /// The vertices of the first rows of the tile.
    pub open spec fn main_places(self, rows: nat) -> Seq<Place>
        decreases rows,
    {
        if rows == 0 {
            Seq::empty()
        } else {
            self.main_places((rows - 1) as nat) + Seq::new(
                self.width as nat,
                |x: int| self.place(x, rows - 1, Tile::Main),
            )
        }
    }

    pub open spec fn south_places(self) -> Seq<Place> {
        if self.south is Some {
            Seq::new(self.width as nat, |x: int| self.place(x, self.height, Tile::South))
        } else {
            Seq::empty()
        }
    }

    pub open spec fn east_places(self) -> Seq<Place> {
        if self.east is Some {
            Seq::new(self.height as nat, |y: int| self.place(self.width, y, Tile::East))
        } else {
            Seq::empty()
        }
    }

    pub open spec fn southeast_places(self) -> Seq<Place> {
        if self.southeast is Some {
            seq![self.place(self.width, self.height, Tile::SouthEast)]
        } else {
            Seq::empty()
        }
    }

    /// The vertices of the ground: the tile row by row, then its border.
    pub open spec fn places(self) -> Seq<Place> {
        self.main_places(self.height as nat) + self.south_places() + self.east_places()
            + self.southeast_places()
    }

    /// The vertex of a point of the tile.
    pub open spec fn vertex(self, x: int, y: int) -> u32 {
        (y * self.width + x) as u32
    }

    /// The first vertex of the border to the east.
    pub open spec fn east_start(self) -> int {
        self.width * self.height + if self.south is Some {
            self.width
        } else {
            0
        }
    }

    /// The two triangles of a quad. Its diagonal runs down to the right, or up
    /// to the right where the edge is turned.
    pub open spec fn quad(self, terrain: TerrainModel, x: int, y: int) -> Seq<u32> {
        if !bit_set(terrain.quad_visibility, y * self.width + x) {
            Seq::empty()
        } else if !bit_set(terrain.edge_turn, y * self.width + x) {
            seq![
                self.vertex(x, y),
                self.vertex(x + 1, y),
                self.vertex(x + 1, y + 1),
                self.vertex(x, y),
                self.vertex(x + 1, y + 1),
                self.vertex(x, y + 1),
            ]
        } else {
            seq![
                self.vertex(x, y + 1),
                self.vertex(x, y),
                self.vertex(x + 1, y),
                self.vertex(x, y + 1),
                self.vertex(x + 1, y),
                self.vertex(x + 1, y + 1),
            ]
        }
    }

    /// The triangles of the first quads of a row.
    pub open spec fn row_quads(self, terrain: TerrainModel, y: int, count: nat) -> Seq<u32>
        decreases count,
    {
        if count == 0 {
            Seq::empty()
        } else {
            self.row_quads(terrain, y, (count - 1) as nat) + self.quad(terrain, count - 1, y)
        }
    }

    /// The triangles of the first rows of quads.
    pub open spec fn quads(self, terrain: TerrainModel, rows: nat) -> Seq<u32>
        decreases rows,
    {
        if rows == 0 {
            Seq::empty()
        } else {
            self.quads(terrain, (rows - 1) as nat) + self.row_quads(
                terrain,
                rows - 1,
                (self.width - 1) as nat,
            )
        }
    }

    /// The triangles at the first vertices of the border to the south.
    pub open spec fn south_edge(self, count: nat) -> Seq<u32>
        decreases count,
    {
        if count == 0 {
            Seq::empty()
        } else {
            let x = count - 1;
            let last = self.width * self.height + x;
            let above = self.vertex(x, self.height - 1);
            let opening = if x != self.width - 1 {
                seq![above, self.vertex(x + 1, self.height - 1), last as u32]
            } else {
                Seq::empty()
            };
            let closing = if x != 0 {
                seq![above, last as u32, (last - 1) as u32]
            } else {
                Seq::empty()
            };
            self.south_edge((count - 1) as nat) + opening + closing
        }
    }

    /// The triangles at the first vertices of the border to the east.
    pub open spec fn east_edge(self, count: nat) -> Seq<u32>
        decreases count,
    {
        if count == 0 {
            Seq::empty()
        } else {
            let y = count - 1;
            let last = self.east_start() + y;
            let beside = self.vertex(self.width - 1, y);
            let opening = if y != self.height - 1 {
                seq![beside, last as u32, self.vertex(self.width - 1, y + 1)]
            } else {
                Seq::empty()
            };
            let closing = if y != 0 {
                seq![beside, (last - 1) as u32, last as u32]
            } else {
                Seq::empty()
            };
            self.east_edge((count - 1) as nat) + opening + closing
        }
    }

    /// The number of vertices.
    pub open spec fn size(self) -> int {
        self.east_start() + (if self.east is Some {
            self.height
        } else {
            0
        }) + if self.southeast is Some {
            1int
        } else {
            0
        }
    }

    /// The triangles at the corner to the southeast.
    pub open spec fn corner(self) -> Seq<u32> {
        let last = self.size() - 1;
        let inner = self.vertex(self.width - 1, self.height - 1);
        seq![
            inner,
            (last - 1) as u32,
            last as u32,
            inner,
            last as u32,
            (last - (self.width + 2)) as u32,
        ]
    }

    /// The triangles of the ground: the quads, then the edges and the corner.
    pub open spec fn indices(self, terrain: TerrainModel) -> Seq<u32> {
        self.quads(terrain, (self.height - 1) as nat) + (if self.south is Some {
            self.south_edge(self.width as nat)
        } else {
            Seq::empty()
        }) + (if self.east is Some {
            self.east_edge(self.height as nat)
        } else {
            Seq::empty()
        }) + if self.southeast is Some {
            self.corner()
        } else {
            Seq::empty()
        }
    }

    /// How the ground falls at a point. At the rim it is taken to be level.
    pub open spec fn slope(self, x: int, y: int) -> Slope {
        let here = self.ground(x, y);
        let top = if y > 0 {
            self.ground(x, y - 1)
        } else {
            here
        };
        let bottom = if y < self.height - (if self.south is None {
            1int
        } else {
            0
        }) {
            self.ground(x, y + 1)
        } else {
            here
        };
        let left = if x > 0 {
            self.ground(x - 1, y)
        } else {
            here
        };
        let right = if x < self.width - (if self.east is None {
            1int
        } else {
            0
        }) {
            self.ground(x + 1, y)
        } else {
            here
        };
        Slope { across: (left - right) as i32, down: (top - bottom) as i32 }
    }

    /// The vertex that gets the slope of a point. Vertices of the border are
    /// counted as if every neighbour before them were there.
    pub open spec fn target(self, x: int, y: int) -> Option<int> {
        if x < self.width && y < self.height {
            Some(y * self.width + x)
        } else if x == self.width && y == self.height && self.southeast is Some {
            Some(y * (self.width + 1) + x)
        } else if y == self.height && self.south is Some {
            Some(y * self.width + x)
        } else if x == self.width && self.east is Some {
            Some((self.height + 1) * self.width + y)
        } else {
            None
        }
    }

    /// The slopes after a point was given out.
    pub open spec fn sloped(self, slopes: Seq<Option<Slope>>, x: int, y: int) -> Seq<
        Option<Slope>,
    > {
        match self.target(x, y) {
            Some(vertex) => if vertex < slopes.len() {
                slopes.update(vertex, Some(self.slope(x, y)))
            } else {
                slopes
            },
            None => slopes,
        }
    }

    /// The slopes after the first points of a row.
    pub open spec fn row_slopes(self, slopes: Seq<Option<Slope>>, y: int, count: nat) -> Seq<
        Option<Slope>,
    >
        decreases count,
    {
        if count == 0 {
            slopes
        } else {
            self.sloped(self.row_slopes(slopes, y, (count - 1) as nat), count - 1, y)
        }
    }

    /// The slopes after the first rows.
    pub open spec fn slopes(self, rows: nat) -> Seq<Option<Slope>>
        decreases rows,
    {
        if rows == 0 {
            Seq::new(self.size() as nat, |i: int| None)
        } else {
            self.row_slopes(
                self.slopes((rows - 1) as nat),
                rows - 1,
                (self.width + 1) as nat,
            )
        }
    }

    /// The ground as triangles.
    pub open spec fn mesh(self, terrain: TerrainModel) -> TerrainMeshModel {
        TerrainMeshModel {
            width: self.width,
            height: self.height,
            places: self.places(),
            slopes: self.slopes((self.height + 1) as nat),
            indices: self.indices(terrain),
        }
    }
}

/// The heights of a neighbour, where there is one.
pub open spec fn side_heights(side: Option<TextureModel>) -> std::result::Result<
    Option<Seq<u16>>,
    ErrorModel,
> {
    match side {
        None => Ok(None),
        Some(texture) => match texture.heights() {
            Err(error) => Err(error),
            Ok(heights) => Ok(Some(heights)),
        },
    }
}

/// The heights that the ground is made of. A neighbour to the south has the
/// same width, one to the east the same height.
pub open spec fn tiles_of(
    texture: TextureModel,
    south: Option<TextureModel>,
    east: Option<TextureModel>,
    southeast: Option<TextureModel>,
) -> std::result::Result<TilesModel, ErrorModel> {
    if texture.u_size < 0 {
        Err(ErrorModel::InvalidData("negative terrain width"@))
    } else if texture.v_size < 0 {
        Err(ErrorModel::InvalidData("negative terrain height"@))
    } else if texture.u_size < 2 || texture.v_size < 2 {
        Err(ErrorModel::InvalidData("terrain must be at least 2x2"@))
    } else {
        match texture.heights() {
            Err(error) => Err(error),
            Ok(main) => if south is Some && south->0.u_size != texture.u_size {
                Err(ErrorModel::InvalidData("south terrain width differs from map terrain"@))
            } else {
                match side_heights(south) {
                    Err(error) => Err(error),
                    Ok(south) => if east is Some && east->0.v_size != texture.v_size {
                        Err(
                            ErrorModel::InvalidData(
                                "east terrain height differs from map terrain"@,
                            ),
                        )
                    } else {
                        match side_heights(east) {
                            Err(error) => Err(error),
                            Ok(east) => match side_heights(southeast) {
                                Err(error) => Err(error),
                                Ok(southeast) => Ok(
                                    TilesModel {
                                        width: texture.u_size as int,
                                        height: texture.v_size as int,
                                        main,
                                        south,
                                        east,
                                        southeast,
                                    },
                                ),
                            },
                        }
                    },
                }
            },
        }
    }
}

pub open spec fn too_small() -> ErrorModel {
    ErrorModel::InvalidData("neighbouring terrain is too small"@)
}

fn heights_of_side(side: Option<&Texture>) -> (result: Result<Option<Vec<u16>>>)
    ensures
        match (
            result,
            side_heights(
                match side {
                    Some(texture) => Some(texture@),
                    None => None,
                },
            ),
        ) {
            (Ok(heights), Ok(expected)) => heights_of(heights) == expected,
            (Err(error), Err(expected)) => error@ == expected,
            _ => false,
        },
{
    match side {
        None => Ok(None),
        Some(texture) => match texture.heights() {
            Err(error) => Err(error),
            Ok(heights) => Ok(Some(heights)),
        },
    }
}

pub open spec fn texture_of(side: Option<&Texture>) -> Option<TextureModel> {
    match side {
        Some(texture) => Some(texture@),
        None => None,
    }
}

fn gather(
    texture: &Texture,
    south: Option<&Texture>,
    east: Option<&Texture>,
    southeast: Option<&Texture>,
) -> (result: Result<Tiles>)
    ensures
        match (
            result,
            tiles_of(texture@, texture_of(south), texture_of(east), texture_of(southeast)),
        ) {
            (Ok(tiles), Ok(expected)) => tiles@ == expected,
            (Err(error), Err(expected)) => error@ == expected,
            _ => false,
        },
{
    if texture.u_size < 0 {
        return Err(AppError::InvalidData("negative terrain width".to_owned()));
    }
    if texture.v_size < 0 {
        return Err(AppError::InvalidData("negative terrain height".to_owned()));
    }
    if texture.u_size < 2 || texture.v_size < 2 {
        return Err(AppError::InvalidData("terrain must be at least 2x2".to_owned()));
    }
    let main = texture.heights()?;
    if let Some(side) = south {
        if side.u_size != texture.u_size {
            return Err(
                AppError::InvalidData("south terrain width differs from map terrain".to_owned()),
            );
        }
    }
    let south = heights_of_side(south)?;
    if let Some(side) = east {
        if side.v_size != texture.v_size {
            return Err(
                AppError::InvalidData("east terrain height differs from map terrain".to_owned()),
            );
        }
    }
    let east = heights_of_side(east)?;
    let southeast = heights_of_side(southeast)?;
    Ok(
        Tiles {
            width: texture.u_size as usize,
            height: texture.v_size as usize,
            main,
            south,
            east,
            southeast,
        },
    )
}

/// The height of a tile's cell is among its heights.
proof fn lemma_cell(x: int, y: int, width: int, height: int)
    requires
        0 <= x <= width,
        0 <= y < height,
    ensures
        0 <= y * width,
        0 <= y * width + x <= width * height,
        x < width ==> y * width + x < width * height,
        (y + 1) * width == y * width + width,
{
    assert(y * width <= (height - 1) * width) by (nonlinear_arith)
        requires
            0 <= y <= height - 1,
            0 <= width,
    ;
    assert((height - 1) * width == width * height - width) by (nonlinear_arith);
    assert(0 <= y * width) by (nonlinear_arith)
        requires
            0 <= y,
            0 <= width,
    ;
    assert((y + 1) * width == y * width + width) by (nonlinear_arith);
}

/// The number of vertices, and what 32 bits therefore hold.
proof fn lemma_size(tiles: TilesModel)
    requires
        tiles.complete(),
    ensures
        0 <= tiles.width * tiles.height,
        tiles.size() <= (tiles.width + 1) * (tiles.height + 1) <= u32::MAX,
        (tiles.width + 1) * (tiles.height + 1) == tiles.width * tiles.height + tiles.width
            + tiles.height + 1,
        tiles.width + 2 <= tiles.width * tiles.height,
        (tiles.height + 1) * tiles.width == tiles.width * tiles.height + tiles.width,
        tiles.height * (tiles.width + 1) == tiles.width * tiles.height + tiles.height,
{
    let w = tiles.width;
    let h = tiles.height;
    assert((w + 1) * (h + 1) == w * h + w + h + 1) by (nonlinear_arith);
    assert((h + 1) * w == w * h + w) by (nonlinear_arith);
    assert(h * (w + 1) == w * h + h) by (nonlinear_arith);
    assert(w + 2 <= w * h) by (nonlinear_arith)
        requires
            2 <= w,
            2 <= h,
    ;
}

impl Tiles {
    fn is_complete(&self) -> (complete: bool)
        requires
            2 <= self.width <= i32::MAX,
            2 <= self.height <= i32::MAX,
            self.main@.len() == self.width * self.height,
        ensures
            complete == self@.complete(),
    {
        let w: u64 = self.width as u64;
        let h: u64 = self.height as u64;
        assert(0 <= (w + 1) * (h + 1) <= 4_611_686_018_427_387_904) by (nonlinear_arith)
            requires
                0 <= w <= 2_147_483_647,
                0 <= h <= 2_147_483_647,
        ;
        assert((w + 1) * (h + 1) == w * h + w + h + 1) by (nonlinear_arith);
        assert((h - 1) * w == w * h - w) by (nonlinear_arith);
        assert(w * h >= w) by (nonlinear_arith)
            requires
                0 <= w,
                1 <= h,
        ;
        if (w + 1) * (h + 1) > u32::MAX as u64 {
            return false;
        }
        let south = match &self.south {
            Some(heights) => self.width <= heights.len(),
            None => true,
        };
        let east = match &self.east {
            Some(heights) => (h - 1) * w < heights.len() as u64,
            None => true,
        };
        let southeast = match &self.southeast {
            Some(heights) => 0 < heights.len(),
            None => true,
        };
        south && east && southeast
    }

    fn ground_at(&self, x: usize, y: usize) -> (height: u16)
        requires
            self@.complete(),
            x <= self.width,
            y <= self.height,
        ensures
            height == self@.ground(x as int, y as int),
    {
        proof {
            lemma_size(self@);
        }
        if x < self.width && y < self.height {
            proof {
                lemma_cell(x as int, y as int, self.width as int, self.height as int);
            }
            self.main[y * self.width + x]
        } else if x < self.width {
            match &self.south {
                Some(heights) => heights[x],
                None => 0,
            }
        } else if y < self.height {
            match &self.east {
                Some(heights) => {
                    proof {
                        lemma_cell(0, y as int, self.width as int, self.height as int);
                        assert(y * self.width <= (self.height - 1) * self.width)
                            by (nonlinear_arith)
                            requires
                                0 <= y <= self.height - 1,
                                0 <= self.width,
                        ;
                    }
                    heights[y * self.width]
                },
                None => 0,
            }
        } else {
            match &self.southeast {
                Some(heights) => heights[0],
                None => 0,
            }
        }
    }

    fn place_at(&self, x: usize, y: usize, tile: Tile) -> (place: Place)
        requires
            self@.complete(),
            x <= self.width,
            y <= self.height,
        ensures
            place == self@.place(x as int, y as int, tile),
    {
        Place { x, y, height: self.ground_at(x, y), tile }
    }

    fn places(&self) -> (places: Vec<Place>)
        requires
            self@.complete(),
        ensures
            places@ == self@.places(),
            places@.len() == self@.size(),
    {
        let mut places: Vec<Place> = Vec::new();
        let mut y: usize = 0;
        while y < self.height
            invariant
                y <= self.height,
                self@.complete(),
                places@ == self@.main_places(y as nat),
                places@.len() == y * self.width,
            decreases self.height - y,
        {
            let ghost before = places@;
            let mut x: usize = 0;
            while x < self.width
                invariant
                    x <= self.width,
                    y < self.height,
                    self@.complete(),
                    places@ == before + Seq::new(
                        x as nat,
                        |x: int| self@.place(x, y as int, Tile::Main),
                    ),
                decreases self.width - x,
            {
                places.push(self.place_at(x, y, Tile::Main));
                x += 1;
                assert(places@ =~= before + Seq::new(
                    x as nat,
                    |x: int| self@.place(x, y as int, Tile::Main),
                ));
            }
            assert((y + 1) * self.width == y * self.width + self.width) by (nonlinear_arith);
            y += 1;
        }
        assert(self.height * self.width == self.width * self.height) by (nonlinear_arith);
        let ghost before = places@;
        if self.south.is_some() {
            let mut x: usize = 0;
            while x < self.width
                invariant
                    x <= self.width,
                    self@.complete(),
                    places@ == before + Seq::new(
                        x as nat,
                        |x: int| self@.place(x, self@.height, Tile::South),
                    ),
                decreases self.width - x,
            {
                places.push(self.place_at(x, self.height, Tile::South));
                x += 1;
                assert(places@ =~= before + Seq::new(
                    x as nat,
                    |x: int| self@.place(x, self@.height, Tile::South),
                ));
            }
        }
        assert(places@ =~= before + self@.south_places());
        let ghost before = places@;
        if self.east.is_some() {
            let mut y: usize = 0;
            while y < self.height
                invariant
                    y <= self.height,
                    self@.complete(),
                    places@ == before + Seq::new(
                        y as nat,
                        |y: int| self@.place(self@.width, y, Tile::East),
                    ),
                decreases self.height - y,
            {
                places.push(self.place_at(self.width, y, Tile::East));
                y += 1;
                assert(places@ =~= before + Seq::new(
                    y as nat,
                    |y: int| self@.place(self@.width, y, Tile::East),
                ));
            }
        }
        assert(places@ =~= before + self@.east_places());
        let ghost before = places@;
        if self.southeast.is_some() {
            places.push(self.place_at(self.width, self.height, Tile::SouthEast));
        }
        assert(places@ =~= before + self@.southeast_places());
        places
    }

    fn vertex_at(&self, x: usize, y: usize) -> (vertex: u32)
        requires
            self@.complete(),
            x < self.width,
            y < self.height,
        ensures
            vertex == self@.vertex(x as int, y as int),
            vertex == y * self.width + x,
    {
        proof {
            lemma_size(self@);
            lemma_cell(x as int, y as int, self.width as int, self.height as int);
        }
        (y * self.width + x) as u32
    }

    fn push_triangle(indices: &mut Vec<u32>, a: u32, b: u32, c: u32)
        ensures
            final(indices)@ == old(indices)@ + seq![a, b, c],
    {
        indices.push(a);
        indices.push(b);
        indices.push(c);
        assert(indices@ =~= old(indices)@ + seq![a, b, c]);
    }

    fn append_quad(&self, terrain: &Terrain, indices: &mut Vec<u32>, x: usize, y: usize)
        requires
            self@.complete(),
            x + 1 < self.width,
            y + 1 < self.height,
        ensures
            final(indices)@ == old(indices)@ + self@.quad(terrain@, x as int, y as int),
    {
        proof {
            lemma_size(self@);
            lemma_cell(x as int, y as int, self.width as int, self.height as int);
        }
        let cell: usize = y * self.width + x;
        if bit(terrain.quad_visibility.as_slice(), cell) {
            let here: u32 = self.vertex_at(x, y);
            let right: u32 = self.vertex_at(x + 1, y);
            let below: u32 = self.vertex_at(x, y + 1);
            let across: u32 = self.vertex_at(x + 1, y + 1);
            if !bit(terrain.edge_turn.as_slice(), cell) {
                Self::push_triangle(indices, here, right, across);
                Self::push_triangle(indices, here, across, below);
            } else {
                Self::push_triangle(indices, below, here, right);
                Self::push_triangle(indices, below, right, across);
            }
        }
        assert(indices@ =~= old(indices)@ + self@.quad(terrain@, x as int, y as int));
    }

    fn append_quads(&self, terrain: &Terrain, indices: &mut Vec<u32>)
        requires
            self@.complete(),
        ensures
            final(indices)@ == old(indices)@ + self@.quads(
                terrain@,
                (self.height - 1) as nat,
            ),
    {
        let ghost start = indices@;
        let mut y: usize = 0;
        assert(indices@ =~= start + self@.quads(terrain@, 0));
        while y + 1 < self.height
            invariant
                y + 1 <= self.height,
                self@.complete(),
                indices@ == start + self@.quads(terrain@, y as nat),
            decreases self.height - y,
        {
            let ghost before = indices@;
            let mut x: usize = 0;
            assert(indices@ =~= before + self@.row_quads(terrain@, y as int, 0));
            while x + 1 < self.width
                invariant
                    x + 1 <= self.width,
                    y + 1 < self.height,
                    self@.complete(),
                    indices@ == before + self@.row_quads(terrain@, y as int, x as nat),
                decreases self.width - x,
            {
                self.append_quad(terrain, indices, x, y);
                x += 1;
                assert(indices@ =~= before + self@.row_quads(terrain@, y as int, x as nat));
            }
            y += 1;
            assert(indices@ =~= start + self@.quads(terrain@, y as nat));
        }
    }

    fn append_south(&self, indices: &mut Vec<u32>)
        requires
            self@.complete(),
            self.south is Some,
        ensures
            final(indices)@ == old(indices)@ + self@.south_edge(self.width as nat),
    {
        proof {
            lemma_size(self@);
        }
        let first: usize = self.width * self.height;
        let ghost start = indices@;
        let mut x: usize = 0;
        assert(indices@ =~= start + self@.south_edge(0));
        while x < self.width
            invariant
                x <= self.width,
                self@.complete(),
                first == self.width * self.height,
                first + self.width <= u32::MAX,
                indices@ == start + self@.south_edge(x as nat),
            decreases self.width - x,
        {
            let ghost before = indices@;
            let last: u32 = (first + x) as u32;
            let above: u32 = self.vertex_at(x, self.height - 1);
            if x != self.width - 1 {
                let next: u32 = self.vertex_at(x + 1, self.height - 1);
                Self::push_triangle(indices, above, next, last);
            }
            if x != 0 {
                Self::push_triangle(indices, above, last, last - 1);
            }
            x += 1;
            assert(indices@ =~= start + self@.south_edge(x as nat));
        }
    }

    fn append_east(&self, indices: &mut Vec<u32>)
        requires
            self@.complete(),
            self.east is Some,
        ensures
            final(indices)@ == old(indices)@ + self@.east_edge(self.height as nat),
    {
        proof {
            lemma_size(self@);
        }
        let border: usize = if self.south.is_some() {
            self.width
        } else {
            0
        };
        let first: usize = self.width * self.height + border;
        let ghost start = indices@;
        let mut y: usize = 0;
        assert(indices@ =~= start + self@.east_edge(0));
        while y < self.height
            invariant
                y <= self.height,
                self@.complete(),
                first == self@.east_start(),
                first + self.height <= u32::MAX,
                0 < first,
                indices@ == start + self@.east_edge(y as nat),
            decreases self.height - y,
        {
            let last: u32 = (first + y) as u32;
            let beside: u32 = self.vertex_at(self.width - 1, y);
            if y != self.height - 1 {
                let below: u32 = self.vertex_at(self.width - 1, y + 1);
                Self::push_triangle(indices, beside, last, below);
            }
            if y != 0 {
                Self::push_triangle(indices, beside, last - 1, last);
            }
            y += 1;
            assert(indices@ =~= start + self@.east_edge(y as nat));
        }
    }

    fn indices(&self, terrain: &Terrain, size: usize) -> (indices: Vec<u32>)
        requires
            self@.complete(),
            size == self@.size(),
        ensures
            indices@ == self@.indices(terrain@),
    {
        proof {
            lemma_size(self@);
        }
        let mut indices: Vec<u32> = Vec::new();
        self.append_quads(terrain, &mut indices);
        if self.south.is_some() {
            self.append_south(&mut indices);
        }
        if self.east.is_some() {
            self.append_east(&mut indices);
        }
        if self.southeast.is_some() {
            let ghost before = indices@;
            let last: u32 = (size - 1) as u32;
            let inner: u32 = self.vertex_at(self.width - 1, self.height - 1);
            Self::push_triangle(&mut indices, inner, last - 1, last);
            Self::push_triangle(&mut indices, inner, last, last - (self.width as u32 + 2));
            assert(indices@ =~= before + self@.corner());
        }
        assert(indices@ =~= self@.indices(terrain@));
        indices
    }

    fn slope_at(&self, x: usize, y: usize) -> (slope: Slope)
        requires
            self@.complete(),
            x <= self.width,
            y <= self.height,
        ensures
            slope == self@.slope(x as int, y as int),
    {
        let here: u16 = self.ground_at(x, y);
        let top: u16 = if y > 0 {
            self.ground_at(x, y - 1)
        } else {
            here
        };
        let rim_y: usize = if self.south.is_some() {
            self.height
        } else {
            self.height - 1
        };
        let bottom: u16 = if y < rim_y {
            self.ground_at(x, y + 1)
        } else {
            here
        };
        let left: u16 = if x > 0 {
            self.ground_at(x - 1, y)
        } else {
            here
        };
        let rim_x: usize = if self.east.is_some() {
            self.width
        } else {
            self.width - 1
        };
        let right: u16 = if x < rim_x {
            self.ground_at(x + 1, y)
        } else {
            here
        };
        Slope { across: left as i32 - right as i32, down: top as i32 - bottom as i32 }
    }

    fn target_of(&self, x: usize, y: usize) -> (vertex: Option<usize>)
        requires
            self@.complete(),
            x <= self.width,
            y <= self.height,
        ensures
            match (vertex, self@.target(x as int, y as int)) {
                (Some(vertex), Some(expected)) => vertex == expected,
                (None, None) => true,
                _ => false,
            },
    {
        proof {
            lemma_size(self@);
            assert(self.height * self.width == self.width * self.height) by (nonlinear_arith);
        }
        let (w, h): (usize, usize) = (self.width, self.height);
        if x < w && y < h {
            proof {
                lemma_cell(x as int, y as int, w as int, h as int);
            }
            Some(y * w + x)
        } else if x == w && y == h && self.southeast.is_some() {
            Some(h * (w + 1) + w)
        } else if y == h && self.south.is_some() {
            Some(h * w + x)
        } else if x == w && self.east.is_some() {
            Some((h + 1) * w + y)
        } else {
            None
        }
    }

    fn slopes(&self, size: usize) -> (slopes: Vec<Option<Slope>>)
        requires
            self@.complete(),
            size == self@.size(),
        ensures
            slopes@ == self@.slopes((self.height + 1) as nat),
    {
        let mut slopes: Vec<Option<Slope>> = Vec::new();
        let mut i: usize = 0;
        while i < size
            invariant
                i <= size,
                slopes@ == Seq::new(i as nat, |i: int| None::<Slope>),
            decreases size - i,
        {
            slopes.push(None);
            i += 1;
            assert(slopes@ =~= Seq::new(i as nat, |i: int| None::<Slope>));
        }
        assert(slopes@ =~= self@.slopes(0));
        proof {
            lemma_size(self@);
        }
        let mut y: usize = 0;
        while y <= self.height
            invariant
                y <= self.height + 1,
                self.height < u32::MAX,
                self.width < u32::MAX,
                self@.complete(),
                slopes@ == self@.slopes(y as nat),
            decreases self.height + 1 - y,
        {
            let ghost before = slopes@;
            let mut x: usize = 0;
            while x <= self.width
                invariant
                    x <= self.width + 1,
                    y <= self.height,
                    self.width < u32::MAX,
                    self@.complete(),
                    slopes@ == self@.row_slopes(before, y as int, x as nat),
                decreases self.width + 1 - x,
            {
                if let Some(vertex) = self.target_of(x, y) {
                    if vertex < slopes.len() {
                        let slope = self.slope_at(x, y);
                        slopes.set(vertex, Some(slope));
                    }
                }
                x += 1;
            }
            y += 1;
        }
        slopes
    }

    fn mesh(&self, terrain: &Terrain) -> (mesh: TerrainMesh)
        requires
            self@.complete(),
        ensures
            mesh@ == self@.mesh(terrain@),
    {
        let places = self.places();
        let indices = self.indices(terrain, places.len());
        let slopes = self.slopes(places.len());
        TerrainMesh { width: self.width, height: self.height, places, slopes, indices }
    }
}

/// Joins a terrain to its neighbours.
pub fn terrain_mesh(
    terrain: &Terrain,
    texture: &Texture,
    south: Option<&Texture>,
    east: Option<&Texture>,
    southeast: Option<&Texture>,
) -> (result: Result<TerrainMesh>)
    ensures
        match (
            result,
            tiles_of(texture@, texture_of(south), texture_of(east), texture_of(southeast)),
        ) {
            (Ok(mesh), Ok(tiles)) => tiles.complete() && mesh@ == tiles.mesh(terrain@),
            (Err(error), Ok(tiles)) => !tiles.complete() && error@ == too_small(),
            (Err(error), Err(expected)) => error@ == expected,
            _ => false,
        },
{
    let tiles = gather(texture, south, east, southeast)?;
    if !tiles.is_complete() {
        return Err(AppError::InvalidData("neighbouring terrain is too small".to_owned()));
    }
    Ok(tiles.mesh(terrain))
}

} // verus!
