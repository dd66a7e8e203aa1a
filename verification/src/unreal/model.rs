//! Solids, as polygons of a partition of space.

use vstd::prelude::*;
use vstd::string::StringExecFns;

use crate::error::{AppError, ErrorModel, Result};
use crate::text;
use crate::text::push_decimal;
use crate::unreal::layout;
use crate::unreal::layout::{read_indexes, read_rows, vector_in};
use crate::unreal::package::{Archive, ArchiveModel};
use crate::unreal::properties;
use crate::unreal::properties::read_properties;
use crate::unreal::reader;
use crate::unreal::reader::{Parsed, Reader, Vector};
use crate::unreal::static_mesh::{Mesh, MeshModel, Vertex, BOUNDS_SIZE};

verus! {

/// The flags of polygons that players pass.
pub const PASSABLE: u32 = 67_109_087;

/// The flag of polygons with two faces.
pub const TWO_SIDED: u32 = 256;

#[derive(Clone, Copy, Debug, PartialEq, Eq, Structural)]
pub struct BspNode {
    pub flags: u8,
    pub vertex_pool_index: i32,
    pub surface_index: i32,
    pub vertex_count: u8,
}

#[derive(Clone, Copy, Debug, PartialEq, Eq, Structural)]
pub struct BspSurface {
    pub polygon_flags: u32,
    pub base_index: i32,
    pub normal_index: i32,
    pub u_index: i32,
    pub v_index: i32,
}

#[derive(Clone, Copy, Debug, PartialEq, Eq, Structural)]
pub struct BspVertex {
    pub vertex_index: i32,
}

#[derive(Clone, Debug)]
pub struct Model {
    pub vectors: Vec<Vector>,
    pub points: Vec<Vector>,
    pub nodes: Vec<BspNode>,
    pub surfaces: Vec<BspSurface>,
    pub vertices: Vec<BspVertex>,
}

/// What a [`Model`] holds.
#[verifier::ext_equal]
pub struct SolidModel {
    pub vectors: Seq<Vector>,
    pub points: Seq<Vector>,
    pub nodes: Seq<BspNode>,
    pub surfaces: Seq<BspSurface>,
    pub vertices: Seq<BspVertex>,
}

impl View for Model {
    type V = SolidModel;

    open spec fn view(&self) -> SolidModel {
        SolidModel {
            vectors: self.vectors@,
            points: self.points@,
            nodes: self.nodes@,
            surfaces: self.surfaces@,
            vertices: self.vertices@,
        }
    }
}

pub open spec fn vectors(bytes: Seq<u8>, start: int, count: int) -> Seq<Vector> {
    Seq::new(count as nat, |i: int| reader::vector(bytes, start + 12 * i))
}

pub open spec fn vectors_at(bytes: Seq<u8>, pos: int) -> Parsed<Seq<Vector>> {
    match layout::rows_at(bytes, pos, 12) {
        Err(error) => Err(error),
        Ok((rows, end)) => Ok((vectors(bytes, rows.1, rows.0), end)),
    }
}

/// A node: a plane and a zone mask, its flags, seven indices, two spheres and
/// masks, two zones, the number of its corners and its leaves.
pub open spec fn node_at(bytes: Seq<u8>, pos: int) -> Parsed<BspNode> {
    match reader::behind(bytes, pos, 24) {
        Err(error) => Err(error),
        Ok((_, pos)) => match reader::byte_at(bytes, pos) {
            Err(error) => Err(error),
            Ok((flags, pos)) => match layout::indexes_at(bytes, pos, 7) {
                Err(error) => Err(error),
                Ok((indexes, pos)) => match reader::behind(bytes, pos, 32) {
                    Err(error) => Err(error),
                    Ok((_, pos)) => match layout::indexes_at(bytes, pos, 2) {
                        Err(error) => Err(error),
                        Ok((_, pos)) => match reader::byte_at(bytes, pos) {
                            Err(error) => Err(error),
                            Ok((vertex_count, pos)) => match reader::behind(bytes, pos, 20) {
                                Err(error) => Err(error),
                                Ok((_, end)) => Ok(
                                    (
                                        BspNode {
                                            flags,
                                            vertex_pool_index: indexes[0],
                                            surface_index: indexes[1],
                                            vertex_count,
                                        },
                                        end,
                                    ),
                                ),
                            },
                        },
                    },
                },
            },
        },
    }
}

/// A surface: its material, its flags, six indices, its plane and its light
/// map, in later packages with one number more.
pub open spec fn surface_at(bytes: Seq<u8>, pos: int, license: i16) -> Parsed<BspSurface> {
    match reader::index_at(bytes, pos) {
        Err(error) => Err(error),
        Ok((_, pos)) => match reader::u32_at(bytes, pos) {
            Err(error) => Err(error),
            Ok((polygon_flags, pos)) => match layout::indexes_at(bytes, pos, 6) {
                Err(error) => Err(error),
                Ok((indexes, pos)) => match reader::behind(
                    bytes,
                    pos,
                    if license > 20 {
                        24
                    } else {
                        20
                    },
                ) {
                    Err(error) => Err(error),
                    Ok((_, end)) => Ok(
                        (
                            BspSurface {
                                polygon_flags,
                                base_index: indexes[0],
                                normal_index: indexes[1],
                                u_index: indexes[2],
                                v_index: indexes[3],
                            },
                            end,
                        ),
                    ),
                },
            },
        },
    }
}

pub open spec fn corner_at(bytes: Seq<u8>, pos: int) -> Parsed<BspVertex> {
    match layout::indexes_at(bytes, pos, 2) {
        Err(error) => Err(error),
        Ok((indexes, end)) => Ok((BspVertex { vertex_index: indexes[0] }, end)),
    }
}

pub open spec fn nodes_from(bytes: Seq<u8>, pos: int, count: nat, done: Seq<BspNode>) -> Parsed<
    Seq<BspNode>,
>
    decreases count,
{
    if count == 0 {
        Ok((done, pos))
    } else {
        match node_at(bytes, pos) {
            Err(error) => Err(error),
            Ok((node, next)) => nodes_from(bytes, next, (count - 1) as nat, done.push(node)),
        }
    }
}

pub open spec fn surfaces_from(
    bytes: Seq<u8>,
    pos: int,
    license: i16,
    count: nat,
    done: Seq<BspSurface>,
) -> Parsed<Seq<BspSurface>>
    decreases count,
{
    if count == 0 {
        Ok((done, pos))
    } else {
        match surface_at(bytes, pos, license) {
            Err(error) => Err(error),
            Ok((surface, next)) => surfaces_from(
                bytes,
                next,
                license,
                (count - 1) as nat,
                done.push(surface),
            ),
        }
    }
}

pub open spec fn corners_from(bytes: Seq<u8>, pos: int, count: nat, done: Seq<BspVertex>) -> Parsed<
    Seq<BspVertex>,
>
    decreases count,
{
    if count == 0 {
        Ok((done, pos))
    } else {
        match corner_at(bytes, pos) {
            Err(error) => Err(error),
            Ok((corner, next)) => corners_from(bytes, next, (count - 1) as nat, done.push(corner)),
        }
    }
}

pub open spec fn nodes_at(bytes: Seq<u8>, pos: int) -> Parsed<Seq<BspNode>> {
    match reader::count_at(bytes, pos, "array"@) {
        Err(error) => Err(error),
        Ok((count, pos)) => nodes_from(bytes, pos, count as nat, Seq::empty()),
    }
}

pub open spec fn surfaces_at(bytes: Seq<u8>, pos: int, license: i16) -> Parsed<Seq<BspSurface>> {
    match reader::count_at(bytes, pos, "array"@) {
        Err(error) => Err(error),
        Ok((count, pos)) => surfaces_from(bytes, pos, license, count as nat, Seq::empty()),
    }
}

pub open spec fn corners_at(bytes: Seq<u8>, pos: int) -> Parsed<Seq<BspVertex>> {
    match reader::count_at(bytes, pos, "array"@) {
        Err(error) => Err(error),
        Ok((count, pos)) => corners_from(bytes, pos, count as nat, Seq::empty()),
    }
}

/// The solid in the bytes of an object.
pub open spec fn model_at(archive: ArchiveModel, bytes: Seq<u8>, pos: int, flags: u32) -> Parsed<
    SolidModel,
> {
    match properties::properties_at(archive.names, bytes, pos, flags) {
        Err(error) => Err(error),
        Ok((_, pos)) => match reader::behind(bytes, pos, BOUNDS_SIZE as int) {
            Err(error) => Err(error),
            Ok((_, pos)) => match vectors_at(bytes, pos) {
                Err(error) => Err(error),
                Ok((vectors, pos)) => match vectors_at(bytes, pos) {
                    Err(error) => Err(error),
                    Ok((points, pos)) => match nodes_at(bytes, pos) {
                        Err(error) => Err(error),
                        Ok((nodes, pos)) => match surfaces_at(
                            bytes,
                            pos,
                            archive.license_version,
                        ) {
                            Err(error) => Err(error),
                            Ok((surfaces, pos)) => match corners_at(bytes, pos) {
                                Err(error) => Err(error),
                                Ok((vertices, end)) => Ok(
                                    (
                                        SolidModel { vectors, points, nodes, surfaces, vertices },
                                        end,
                                    ),
                                ),
                            },
                        },
                    },
                },
            },
        },
    }
}

fn read_vectors(reader: &mut Reader<'_>) -> (result: Result<Vec<Vector>>)
    ensures
        reader::reads_view(
            *old(reader),
            *final(reader),
            result,
            vectors_at(old(reader).bytes@, old(reader).pos as int),
        ),
{
    let (count, start) = read_rows(reader, 12)?;
    let bytes = reader.bytes;
    let mut list: Vec<Vector> = Vec::new();
    let mut i: usize = 0;
    assert(bytes.len() <= usize::MAX);
    while i < count
        invariant
            i <= count,
            start + 12 * count <= bytes@.len(),
            bytes@.len() <= usize::MAX,
            list@ == vectors(bytes@, start as int, i as int),
        decreases count - i,
    {
        list.push(vector_in(bytes, start + 12 * i));
        i += 1;
        assert(list@ =~= vectors(bytes@, start as int, i as int));
    }
    Ok(list)
}

proof fn lemma_indexes_length(bytes: Seq<u8>, pos: int, count: nat, done: Seq<i32>)
    ensures
        layout::indexes_from(bytes, pos, count, done) matches Ok((list, _)) ==> list.len()
            == done.len() + count,
    decreases count,
{
    if count > 0 {
        match reader::index_at(bytes, pos) {
            Ok((index, next)) => {
                lemma_indexes_length(bytes, next, (count - 1) as nat, done.push(index));
            },
            Err(_) => {},
        }
    }
}

fn read_node(reader: &mut Reader<'_>) -> (result: Result<BspNode>)
    ensures
        reader::reads(
            *old(reader),
            *final(reader),
            result,
            node_at(old(reader).bytes@, old(reader).pos as int),
        ),
{
    reader.skip(24)?;
    let flags: u8 = reader.u8()?;
    proof {
        lemma_indexes_length(reader.bytes@, reader.pos as int, 7, Seq::empty());
    }
    let indexes = read_indexes(reader, 7)?;
    reader.skip(32)?;
    let _zones = read_indexes(reader, 2)?;
    let vertex_count: u8 = reader.u8()?;
    reader.skip(20)?;
    Ok(
        BspNode {
            flags,
            vertex_pool_index: indexes[0],
            surface_index: indexes[1],
            vertex_count,
        },
    )
}

fn read_surface(reader: &mut Reader<'_>, license: i16) -> (result: Result<BspSurface>)
    ensures
        reader::reads(
            *old(reader),
            *final(reader),
            result,
            surface_at(old(reader).bytes@, old(reader).pos as int, license),
        ),
{
    let _material: i32 = reader.index()?;
    let polygon_flags: u32 = reader.u32()?;
    proof {
        lemma_indexes_length(reader.bytes@, reader.pos as int, 6, Seq::empty());
    }
    let indexes = read_indexes(reader, 6)?;
    let tail: usize = if license > 20 {
        24
    } else {
        20
    };
    reader.skip(tail)?;
    Ok(
        BspSurface {
            polygon_flags,
            base_index: indexes[0],
            normal_index: indexes[1],
            u_index: indexes[2],
            v_index: indexes[3],
        },
    )
}

fn read_nodes(reader: &mut Reader<'_>) -> (result: Result<Vec<BspNode>>)
    ensures
        reader::reads_view(
            *old(reader),
            *final(reader),
            result,
            nodes_at(old(reader).bytes@, old(reader).pos as int),
        ),
{
    let count: i32 = reader.count("array")?;
    let mut list: Vec<BspNode> = Vec::new();
    let mut left: i32 = count;
    while left > 0
        invariant
            0 <= left,
            reader.bytes == old(reader).bytes,
            nodes_at(old(reader).bytes@, old(reader).pos as int) == nodes_from(
                reader.bytes@,
                reader.pos as int,
                left as nat,
                list@,
            ),
        decreases left,
    {
        list.push(read_node(reader)?);
        left = left - 1;
    }
    Ok(list)
}

fn read_surfaces(reader: &mut Reader<'_>, license: i16) -> (result: Result<Vec<BspSurface>>)
    ensures
        reader::reads_view(
            *old(reader),
            *final(reader),
            result,
            surfaces_at(old(reader).bytes@, old(reader).pos as int, license),
        ),
{
    let count: i32 = reader.count("array")?;
    let mut list: Vec<BspSurface> = Vec::new();
    let mut left: i32 = count;
    while left > 0
        invariant
            0 <= left,
            reader.bytes == old(reader).bytes,
            surfaces_at(old(reader).bytes@, old(reader).pos as int, license) == surfaces_from(
                reader.bytes@,
                reader.pos as int,
                license,
                left as nat,
                list@,
            ),
        decreases left,
    {
        list.push(read_surface(reader, license)?);
        left = left - 1;
    }
    Ok(list)
}

fn read_corners(reader: &mut Reader<'_>) -> (result: Result<Vec<BspVertex>>)
    ensures
        reader::reads_view(
            *old(reader),
            *final(reader),
            result,
            corners_at(old(reader).bytes@, old(reader).pos as int),
        ),
{
    let count: i32 = reader.count("array")?;
    let mut list: Vec<BspVertex> = Vec::new();
    let mut left: i32 = count;
    while left > 0
        invariant
            0 <= left,
            reader.bytes == old(reader).bytes,
            corners_at(old(reader).bytes@, old(reader).pos as int) == corners_from(
                reader.bytes@,
                reader.pos as int,
                left as nat,
                list@,
            ),
        decreases left,
    {
        proof {
            lemma_indexes_length(reader.bytes@, reader.pos as int, 2, Seq::empty());
        }
        let indexes = read_indexes(reader, 2)?;
        list.push(BspVertex { vertex_index: indexes[0] });
        left = left - 1;
    }
    Ok(list)
}

/// A box in space, open at its sides.
#[derive(Clone, Copy, Debug, PartialEq, Eq, Structural)]
pub struct Box3 {
    pub min: Vector,
    pub max: Vector,
}

/// Whether bits are those of no number.
pub open spec fn is_nan(bits: u32) -> bool {
    bits % 2_147_483_648 > 2_139_095_040
}

/// A number that orders bits as the numbers that they write.
pub open spec fn rank(bits: u32) -> int {
    if bits < 2_147_483_648 {
        bits as int
    } else {
        2_147_483_648 - bits
    }
}

/// Whether one floating-point number is less than another, both given by their
/// bits.
pub open spec fn less(left: u32, right: u32) -> bool {
    !is_nan(left) && !is_nan(right) && rank(left) < rank(right)
}

impl Box3 {
    /// Whether a point lies inside, and not on a side.
    pub open spec fn holds(self, point: Vector) -> bool {
        &&& less(self.min.x, point.x)
        &&& less(self.min.y, point.y)
        &&& less(self.min.z, point.z)
        &&& less(point.x, self.max.x)
        &&& less(point.y, self.max.y)
        &&& less(point.z, self.max.z)
    }

    pub fn contains_strict(&self, point: Vector) -> (inside: bool)
        ensures
            inside == self.holds(point),
    {
        is_less(self.min.x, point.x) && is_less(self.min.y, point.y) && is_less(
            self.min.z,
            point.z,
        ) && is_less(point.x, self.max.x) && is_less(point.y, self.max.y) && is_less(
            point.z,
            self.max.z,
        )
    }
}

fn rank_of(bits: u32) -> (result: i64)
    ensures
        result == rank(bits),
{
    if bits < 2_147_483_648 {
        bits as i64
    } else {
        2_147_483_648 - bits as i64
    }
}

fn is_less(left: u32, right: u32) -> (result: bool)
    ensures
        result == less(left, right),
{
    left % 2_147_483_648 <= 2_139_095_040 && right % 2_147_483_648 <= 2_139_095_040 && rank_of(left)
        < rank_of(right)
}

/// The opposite of a number, by its bits.
pub open spec fn negated(bits: u32) -> u32 {
    if bits < 2_147_483_648 {
        (bits + 2_147_483_648) as u32
    } else {
        (bits - 2_147_483_648) as u32
    }
}

fn negate(bits: u32) -> (result: u32)
    ensures
        result == negated(bits),
{
    if bits < 2_147_483_648 {
        bits + 2_147_483_648
    } else {
        bits - 2_147_483_648
    }
}

/// A polygon that stops players.
pub struct Polygon {
    pub positions: Vec<Vector>,
    pub normal: Vector,
    pub two_sided: bool,
}

/// What a [`Polygon`] holds.
#[verifier::ext_equal]
pub struct PolygonModel {
    pub positions: Seq<Vector>,
    pub normal: Vector,
    pub two_sided: bool,
}

impl View for Polygon {
    type V = PolygonModel;

    open spec fn view(&self) -> PolygonModel {
        PolygonModel {
            positions: self.positions@,
            normal: self.normal,
            two_sided: self.two_sided,
        }
    }
}

pub open spec fn invalid(text: Seq<char>) -> ErrorModel {
    ErrorModel::InvalidData(text)
}

pub open spec fn bad_pool(start: int, count: int, pool: nat) -> ErrorModel {
    ErrorModel::InvalidData(
        "BSP vertex pool range is invalid (start="@ + text::decimal(start as nat) + ", count="@
            + text::decimal(count as nat) + ", pool="@ + text::decimal(pool) + ")"@,
    )
}

impl SolidModel {
    /// The point of a corner.
    pub open spec fn corner(self, at: int) -> Vector {
        self.points[self.vertices[at].vertex_index as int]
    }

    pub open spec fn corner_exists(self, at: int) -> bool {
        0 <= self.vertices[at].vertex_index < self.points.len()
    }

    /// The corners of a node.
    pub open spec fn positions(self, node: BspNode) -> Seq<Vector> {
        Seq::new(node.vertex_count as nat, |i: int| self.corner(node.vertex_pool_index + i))
    }

    /// Whether every corner of a node lies inside the bounds.
    pub open spec fn within(self, node: BspNode, bounds: Option<Box3>) -> bool {
        bounds is Some ==> forall|i: int|
            0 <= i < node.vertex_count ==> bounds->0.holds(#[trigger] self.positions(node)[i])
    }

    /// The polygon of a node whose surface stops players: none where it reaches
    /// out of the bounds or has fewer than three corners.
    pub open spec fn surface_polygon(
        self,
        node: BspNode,
        surface: BspSurface,
        bounds: Option<Box3>,
    ) -> std::result::Result<Option<PolygonModel>, ErrorModel> {
        let start = node.vertex_pool_index as int;
        let count = node.vertex_count as int;
        if start < 0 {
            Err(invalid("negative BSP vertex pool index"@))
        } else if start + count > self.vertices.len() {
            Err(bad_pool(start, count, self.vertices.len()))
        } else if exists|i: int| start <= i < start + count && !#[trigger] self.corner_exists(i) {
            Err(invalid("BSP point index out of bounds"@))
        } else if !self.within(node, bounds) || count < 3 {
            Ok(None)
        } else if surface.normal_index < 0 {
            Err(invalid("negative BSP normal index"@))
        } else if surface.normal_index >= self.vectors.len() {
            Err(invalid("BSP normal index out of bounds"@))
        } else {
            Ok(
                Some(
                    PolygonModel {
                        positions: self.positions(node),
                        normal: self.vectors[surface.normal_index as int],
                        two_sided: surface.polygon_flags & TWO_SIDED != 0,
                    },
                ),
            )
        }
    }

    /// The polygon of a node, if it stops players.
    pub open spec fn polygon(
        self,
        node: BspNode,
        bounds: Option<Box3>,
    ) -> std::result::Result<Option<PolygonModel>, ErrorModel> {
        if node.flags % 2 == 1 {
            Ok(None)
        } else if node.surface_index < 0 {
            Err(invalid("negative BSP surface index"@))
        } else if node.surface_index >= self.surfaces.len() {
            Err(invalid("BSP surface index out of bounds"@))
        } else {
            let surface = self.surfaces[node.surface_index as int];
            if surface.polygon_flags & PASSABLE != 0 {
                Ok(None)
            } else {
                self.surface_polygon(node, surface, bounds)
            }
        }
    }

    /// The mesh of the first nodes.
    pub open spec fn meshed(self, bounds: Option<Box3>, count: nat) -> std::result::Result<
        MeshModel,
        ErrorModel,
    >
        decreases count,
    {
        if count == 0 {
            Ok(MeshModel { vertices: Seq::empty(), indices: Seq::empty() })
        } else {
            match self.meshed(bounds, (count - 1) as nat) {
                Err(error) => Err(error),
                Ok(mesh) => match self.polygon(self.nodes[count - 1], bounds) {
                    Err(error) => Err(error),
                    Ok(None) => Ok(mesh),
                    Ok(Some(polygon)) => extended(mesh, polygon),
                },
            }
        }
    }

    /// The triangles that stop players, where there are any.
    pub open spec fn mesh(self, bounds: Option<Box3>) -> std::result::Result<
        Option<MeshModel>,
        ErrorModel,
    > {
        match self.meshed(bounds, self.nodes.len()) {
            Err(error) => Err(error),
            Ok(mesh) => if mesh.vertices.len() == 0 {
                Ok(None)
            } else {
                Ok(Some(mesh))
            },
        }
    }
}

/// The corners of the triangles that fan out from the first corner of a
/// polygon.
pub open spec fn fan(offset: nat, corners: nat) -> Seq<u32> {
    Seq::new(
        (3 * (corners - 2)) as nat,
        |i: int|
            (if i % 3 == 0 {
                offset as int
            } else {
                offset + i / 3 + i % 3
            }) as u32,
    )
}

/// The same triangles, seen from behind.
pub open spec fn reverse_fan(offset: nat, corners: nat) -> Seq<u32> {
    Seq::new(
        (3 * (corners - 2)) as nat,
        |i: int|
            (if i % 3 == 0 {
                offset as int
            } else {
                offset + i / 3 + (3 - i % 3)
            }) as u32,
    )
}

pub open spec fn placed(positions: Seq<Vector>, normal: Vector) -> Seq<Vertex> {
    positions.map_values(|position: Vector| Vertex { position, normal })
}

/// A mesh with a polygon more. The other face of a two-sided polygon has the
/// vertical direction of its normal turned around.
pub open spec fn extended(mesh: MeshModel, polygon: PolygonModel) -> std::result::Result<
    MeshModel,
    ErrorModel,
> {
    let offset = mesh.vertices.len();
    let corners = polygon.positions.len();
    let front = MeshModel {
        vertices: mesh.vertices + placed(polygon.positions, polygon.normal),
        indices: mesh.indices + fan(offset, corners),
    };
    if offset + 2 * corners > u32::MAX {
        Err(invalid("BSP mesh has too many vertices"@))
    } else if polygon.two_sided {
        let behind = Vector { z: negated(polygon.normal.z), ..polygon.normal };
        Ok(
            MeshModel {
                vertices: front.vertices + placed(polygon.positions, behind),
                indices: front.indices + reverse_fan(offset + corners, corners),
            },
        )
    } else {
        Ok(front)
    }
}

fn place(vertices: &mut Vec<Vertex>, positions: &Vec<Vector>, normal: Vector)
    ensures
        final(vertices)@ == old(vertices)@ + placed(positions@, normal),
{
    let mut i: usize = 0;
    assert(vertices@ =~= old(vertices)@ + placed(positions@.take(0), normal));
    while i < positions.len()
        invariant
            i <= positions@.len(),
            vertices@ == old(vertices)@ + placed(positions@.take(i as int), normal),
        decreases positions.len() - i,
    {
        vertices.push(Vertex { position: positions[i], normal });
        i += 1;
        assert(vertices@ =~= old(vertices)@ + placed(positions@.take(i as int), normal));
    }
    assert(positions@.take(i as int) =~= positions@);
}

fn append_fan(indices: &mut Vec<u32>, offset: u32, corners: u32, reverse: bool)
    requires
        offset + corners <= u32::MAX,
        corners >= 3,
    ensures
        final(indices)@ == old(indices)@ + if reverse {
            reverse_fan(offset as nat, corners as nat)
        } else {
            fan(offset as nat, corners as nat)
        },
{
    let ghost whole = if reverse {
        reverse_fan(offset as nat, corners as nat)
    } else {
        fan(offset as nat, corners as nat)
    };
    let mut corner: u32 = 2;
    assert(indices@ =~= old(indices)@ + whole.take(0));
    while corner < corners
        invariant
            2 <= corner <= corners,
            offset + corners <= u32::MAX,
            whole == (if reverse {
                reverse_fan(offset as nat, corners as nat)
            } else {
                fan(offset as nat, corners as nat)
            }),
            indices@ == old(indices)@ + whole.take(3 * (corner - 2)),
        decreases corners - corner,
    {
        indices.push(offset);
        if reverse {
            indices.push(offset + corner);
            indices.push(offset + corner - 1);
        } else {
            indices.push(offset + corner - 1);
            indices.push(offset + corner);
        }
        corner += 1;
        assert(indices@ =~= old(indices)@ + whole.take(3 * (corner - 2)));
    }
    assert(whole.take(3 * (corners - 2)) =~= whole);
}

impl Model {
    /// Reads a solid.
    pub fn read(archive: &Archive, reader: &mut Reader<'_>, flags: u32) -> (result: Result<Self>)
        ensures
            reader::reads_view(
                *old(reader),
                *final(reader),
                result,
                model_at(archive@, old(reader).bytes@, old(reader).pos as int, flags),
            ),
    {
        let _props = read_properties(reader, &archive.names, flags)?;
        reader.skip(BOUNDS_SIZE)?;
        let vectors = read_vectors(reader)?;
        let points = read_vectors(reader)?;
        let nodes = read_nodes(reader)?;
        let surfaces = read_surfaces(reader, archive.license_version)?;
        let vertices = read_corners(reader)?;
        Ok(Model { vectors, points, nodes, surfaces, vertices })
    }

    fn positions(&self, start: usize, count: usize) -> (positions: Option<Vec<Vector>>)
        requires
            start + count <= self.vertices@.len(),
        ensures
            match positions {
                None => exists|i: int|
                    start <= i < start + count && !#[trigger] self@.corner_exists(i),
                Some(positions) => {
                    &&& forall|i: int|
                        start <= i < start + count ==> #[trigger] self@.corner_exists(i)
                    &&& positions@ == Seq::new(count as nat, |i: int| self@.corner(start + i))
                },
            },
    {
        let mut positions: Vec<Vector> = Vec::new();
        let mut i: usize = 0;
        assert(self.vertices.len() <= usize::MAX);
        while i < count
            invariant
                i <= count,
                start + count <= self.vertices@.len(),
                self.vertices@.len() <= usize::MAX,
                forall|j: int| start <= j < start + i ==> #[trigger] self@.corner_exists(j),
                positions@ == Seq::new(i as nat, |j: int| self@.corner(start + j)),
            decreases count - i,
        {
            let index: i32 = self.vertices[start + i].vertex_index;
            if index < 0 || index as usize >= self.points.len() {
                assert(!self@.corner_exists(start + i));
                return None;
            }
            positions.push(self.points[index as usize]);
            i += 1;
            assert(positions@ =~= Seq::new(i as nat, |j: int| self@.corner(start + j)));
        }
        Some(positions)
    }

    fn surface_polygon(
        &self,
        node: BspNode,
        surface: BspSurface,
        bounds: Option<Box3>,
    ) -> (result: Result<Option<Polygon>>)
        ensures
            match (result, self@.surface_polygon(node, surface, bounds)) {
                (Ok(Some(polygon)), Ok(Some(expected))) => polygon@ == expected,
                (Ok(None), Ok(None)) => true,
                (Err(error), Err(expected)) => error@ == expected,
                _ => false,
            },
    {
        if node.vertex_pool_index < 0 {
            return Err(AppError::InvalidData("negative BSP vertex pool index".to_owned()));
        }
        let start: usize = node.vertex_pool_index as usize;
        let count: usize = node.vertex_count as usize;
        if start > self.vertices.len() || self.vertices.len() - start < count {
            let mut text = "BSP vertex pool range is invalid (start=".to_owned();
            push_decimal(&mut text, start as u64);
            text.append(", count=");
            push_decimal(&mut text, count as u64);
            text.append(", pool=");
            push_decimal(&mut text, self.vertices.len() as u64);
            text.append(")");
            return Err(AppError::InvalidData(text));
        }
        let positions = match self.positions(start, count) {
            None => {
                return Err(AppError::InvalidData("BSP point index out of bounds".to_owned()));
            },
            Some(positions) => positions,
        };
        assert(positions@ =~= self@.positions(node));
        if let Some(limits) = bounds {
            let mut i: usize = 0;
            while i < positions.len()
                invariant
                    i <= positions@.len(),
                    positions@.len() == node.vertex_count,
                    positions@ == self@.positions(node),
                    start == node.vertex_pool_index,
                    count == node.vertex_count,
                    start + count <= self.vertices@.len(),
                    forall|j: int|
                        start <= j < start + count ==> #[trigger] self@.corner_exists(j),
                    forall|j: int|
                        0 <= j < i ==> limits.holds(#[trigger] self@.positions(node)[j]),
                    bounds == Some(limits),
                decreases positions.len() - i,
            {
                if !limits.contains_strict(positions[i]) {
                    assert(!self@.within(node, bounds)) by {
                        assert(!limits.holds(self@.positions(node)[i as int]));
                    }
                    return Ok(None);
                }
                i += 1;
            }
        }
        if count < 3 {
            return Ok(None);
        }
        if surface.normal_index < 0 {
            return Err(AppError::InvalidData("negative BSP normal index".to_owned()));
        }
        if surface.normal_index as usize >= self.vectors.len() {
            return Err(AppError::InvalidData("BSP normal index out of bounds".to_owned()));
        }
        Ok(
            Some(
                Polygon {
                    positions,
                    normal: self.vectors[surface.normal_index as usize],
                    two_sided: surface.polygon_flags & TWO_SIDED != 0,
                },
            ),
        )
    }

    fn polygon(&self, node: BspNode, bounds: Option<Box3>) -> (result: Result<Option<Polygon>>)
        ensures
            match (result, self@.polygon(node, bounds)) {
                (Ok(Some(polygon)), Ok(Some(expected))) => polygon@ == expected,
                (Ok(None), Ok(None)) => true,
                (Err(error), Err(expected)) => error@ == expected,
                _ => false,
            },
    {
        if node.flags % 2 == 1 {
            return Ok(None);
        }
        if node.surface_index < 0 {
            return Err(AppError::InvalidData("negative BSP surface index".to_owned()));
        }
        if node.surface_index as usize >= self.surfaces.len() {
            return Err(AppError::InvalidData("BSP surface index out of bounds".to_owned()));
        }
        let surface = self.surfaces[node.surface_index as usize];
        if surface.polygon_flags & PASSABLE != 0 {
            return Ok(None);
        }
        self.surface_polygon(node, surface, bounds)
    }

    /// The triangles that stop players, of the polygons that lie within bounds.
    pub fn mesh(&self, bounds: Option<Box3>) -> (result: Result<Option<Mesh>>)
        ensures
            match (result, self@.mesh(bounds)) {
                (Ok(Some(mesh)), Ok(Some(expected))) => mesh@ == expected,
                (Ok(None), Ok(None)) => true,
                (Err(error), Err(expected)) => error@ == expected,
                _ => false,
            },
    {
        let mut mesh = Mesh { vertices: Vec::new(), indices: Vec::new() };
        let mut number: usize = 0;
        assert(mesh@ =~= self@.meshed(bounds, 0)->Ok_0);
        while number < self.nodes.len()
            invariant
                number <= self.nodes@.len(),
                self@.meshed(bounds, number as nat) == Ok::<_, ErrorModel>(mesh@),
            decreases self.nodes.len() - number,
        {
            let ghost before = mesh@;
            match self.polygon(self.nodes[number], bounds) {
                Err(error) => {
                    proof {
                        lemma_stopped(self@, bounds, number as nat + 1, self@.nodes.len());
                    }
                    return Err(error);
                },
                Ok(None) => {},
                Ok(Some(polygon)) => {
                    let offset: usize = mesh.vertices.len();
                    let corners: usize = polygon.positions.len();
                    if corners as u64 > 255 || offset as u64 > u32::MAX as u64 - 2
                        * corners as u64 {
                        proof {
                            lemma_stopped(self@, bounds, number as nat + 1, self@.nodes.len());
                        }
                        return Err(
                            AppError::InvalidData("BSP mesh has too many vertices".to_owned()),
                        );
                    }
                    place(&mut mesh.vertices, &polygon.positions, polygon.normal);
                    append_fan(&mut mesh.indices, offset as u32, corners as u32, false);
                    if polygon.two_sided {
                        let normal = polygon.normal;
                        let behind = Vector { x: normal.x, y: normal.y, z: negate(normal.z) };
                        place(&mut mesh.vertices, &polygon.positions, behind);
                        append_fan(
                            &mut mesh.indices,
                            (offset + corners) as u32,
                            corners as u32,
                            true,
                        );
                    }
                    assert(Ok::<_, ErrorModel>(mesh@) == extended(before, polygon@));
                },
            }
            number += 1;
        }
        if mesh.vertices.len() == 0 {
            Ok(None)
        } else {
            Ok(Some(mesh))
        }
    }
}

/// A mesh that fails at a node fails whatever follows.
proof fn lemma_stopped(model: SolidModel, bounds: Option<Box3>, count: nat, more: nat)
    requires
        model.meshed(bounds, count) is Err,
        count <= more,
    ensures
        model.meshed(bounds, more) == model.meshed(bounds, count),
    decreases more,
{
    if count < more {
        lemma_stopped(model, bounds, count, (more - 1) as nat);
    }
}

/// Every corner of a triangle of a solid's mesh is one of its vertices.
pub proof fn solid_mesh_is_closed(model: SolidModel, bounds: Option<Box3>, count: nat)
    requires
        count <= model.nodes.len(),
        model.meshed(bounds, count) is Ok,
    ensures
        ({
            let mesh = model.meshed(bounds, count)->Ok_0;
            &&& mesh.indices.len() % 3 == 0
            &&& forall|i: int|
                0 <= i < mesh.indices.len() ==> (#[trigger] mesh.indices[i]) < mesh.vertices.len()
        }),
    decreases count,
{
    if count > 0 {
        solid_mesh_is_closed(model, bounds, (count - 1) as nat);
        let mesh = model.meshed(bounds, (count - 1) as nat)->Ok_0;
        match model.polygon(model.nodes[count - 1], bounds) {
            Ok(Some(polygon)) => {
                let offset = mesh.vertices.len();
                let corners = polygon.positions.len();
                let longer = model.meshed(bounds, count)->Ok_0;
                let first = fan(offset, corners);
                let second = reverse_fan(offset + corners, corners);
                assert forall|i: int| 0 <= i < longer.indices.len() implies (
                #[trigger] longer.indices[i]) < longer.vertices.len() by {
                    if i < mesh.indices.len() {
                        assert(longer.indices[i] == mesh.indices[i]);
                    } else if i < mesh.indices.len() + first.len() {
                        assert(longer.indices[i] == first[i - mesh.indices.len()]);
                    } else {
                        assert(longer.indices[i] == second[i - mesh.indices.len() - first.len()]);
                    }
                }
            },
            _ => {},
        }
    }
}

} // verus!
