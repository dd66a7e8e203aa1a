//! Meshes that actors place.

use vstd::prelude::*;

use crate::error::{AppError, ErrorModel, Result};
use crate::unreal::layout;
use crate::unreal::layout::{read_rows, vector_in, word_in};
use crate::unreal::package::{Archive, ArchiveModel};
use crate::unreal::properties;
use crate::unreal::properties::{read_properties, PropertiesModel};
use crate::unreal::reader;
use crate::unreal::reader::{Parsed, Reader, Vector};

verus! {

/// A point of a mesh, with the direction that its surface faces.
#[derive(Clone, Copy, Debug, PartialEq, Eq, Structural)]
pub struct Vertex {
    pub position: Vector,
    pub normal: Vector,
}

/// Triangles, by the indices of their corners.
#[derive(Clone, Debug)]
pub struct Mesh {
    pub vertices: Vec<Vertex>,
    pub indices: Vec<u32>,
}

/// What a [`Mesh`] holds.
#[verifier::ext_equal]
pub struct MeshModel {
    pub vertices: Seq<Vertex>,
    pub indices: Seq<u32>,
}

impl View for Mesh {
    type V = MeshModel;

    open spec fn view(&self) -> MeshModel {
        MeshModel { vertices: self.vertices@, indices: self.indices@ }
    }
}

/// A run of triangles of one material.
#[derive(Clone, Copy, Debug, PartialEq, Eq, Structural)]
pub struct StaticSurface {
    pub first_index: u16,
    pub triangle_max: u16,
}

#[derive(Clone, Debug)]
pub struct StaticMesh {
    pub vertices: Vec<Vertex>,
    pub surfaces: Vec<StaticSurface>,
    pub indices: Vec<u16>,
    /// Whether each material stops actors.
    pub materials: Vec<bool>,
}

/// What a [`StaticMesh`] holds.
#[verifier::ext_equal]
pub struct StaticMeshModel {
    pub vertices: Seq<Vertex>,
    pub surfaces: Seq<StaticSurface>,
    pub indices: Seq<u16>,
    pub materials: Seq<bool>,
}

impl View for StaticMesh {
    type V = StaticMeshModel;

    open spec fn view(&self) -> StaticMeshModel {
        StaticMeshModel {
            vertices: self.vertices@,
            surfaces: self.surfaces@,
            indices: self.indices@,
            materials: self.materials@,
        }
    }
}

/// The size of the bounding volumes that open a mesh: a box, a sphere.
pub const BOUNDS_SIZE: usize = 41;

/// The size of a box: two vectors and a validity byte.
pub const BOX_SIZE: usize = 25;

pub const SURFACE_SIZE: usize = 14;

pub const VERTEX_SIZE: usize = 24;

pub open spec fn surface(bytes: Seq<u8>, at: int) -> StaticSurface {
    StaticSurface {
        first_index: reader::word(bytes, at + 4) as u16,
        triangle_max: reader::word(bytes, at + 12) as u16,
    }
}

pub open spec fn vertex(bytes: Seq<u8>, at: int) -> Vertex {
    Vertex { position: reader::vector(bytes, at), normal: reader::vector(bytes, at + 12) }
}

pub open spec fn surfaces(bytes: Seq<u8>, start: int, count: int) -> Seq<StaticSurface> {
    Seq::new(count as nat, |i: int| surface(bytes, start + 14 * i))
}

pub open spec fn vertices(bytes: Seq<u8>, start: int, count: int) -> Seq<Vertex> {
    Seq::new(count as nat, |i: int| vertex(bytes, start + 24 * i))
}

pub open spec fn words(bytes: Seq<u8>, start: int, count: int) -> Seq<u16> {
    Seq::new(count as nat, |i: int| reader::word(bytes, start + 2 * i) as u16)
}

/// The position behind an array of fixed entries and a number of bytes.
pub open spec fn behind_rows(bytes: Seq<u8>, pos: int, size: int, tail: int) -> Parsed<()> {
    match layout::rows_at(bytes, pos, size) {
        Err(error) => Err(error),
        Ok((_, pos)) => reader::behind(bytes, pos, tail),
    }
}

/// The position behind streams of texture coordinates.
pub open spec fn behind_streams(bytes: Seq<u8>, pos: int, count: nat) -> Parsed<()>
    decreases count,
{
    if count == 0 {
        Ok(((), pos))
    } else {
        match behind_rows(bytes, pos, 8, 8) {
            Err(error) => Err(error),
            Ok((_, next)) => behind_streams(bytes, next, (count - 1) as nat),
        }
    }
}

/// The position behind what is drawn of a mesh: the revision of its vertices,
/// colours, opacities and texture coordinates.
pub open spec fn behind_drawing(bytes: Seq<u8>, pos: int) -> Parsed<()> {
    match reader::behind(bytes, pos, 4) {
        Err(error) => Err(error),
        Ok((_, pos)) => match behind_rows(bytes, pos, 4, 4) {
            Err(error) => Err(error),
            Ok((_, pos)) => match behind_rows(bytes, pos, 4, 4) {
                Err(error) => Err(error),
                Ok((_, pos)) => match reader::count_at(bytes, pos, "UV stream"@) {
                    Err(error) => Err(error),
                    Ok((count, pos)) => behind_streams(bytes, pos, count as nat),
                },
            },
        },
    }
}

/// The surfaces and vertices of a mesh, behind its bounding volumes.
pub open spec fn shape_at(bytes: Seq<u8>, pos: int) -> Parsed<(Seq<StaticSurface>, Seq<Vertex>)> {
    match reader::behind(bytes, pos, BOUNDS_SIZE as int) {
        Err(error) => Err(error),
        Ok((_, pos)) => match layout::rows_at(bytes, pos, SURFACE_SIZE as int) {
            Err(error) => Err(error),
            Ok((rows, pos)) => match reader::behind(bytes, pos, BOX_SIZE as int) {
                Err(error) => Err(error),
                Ok((_, pos)) => match layout::rows_at(bytes, pos, VERTEX_SIZE as int) {
                    Err(error) => Err(error),
                    Ok((points, pos)) => Ok(
                        (
                            (
                                surfaces(bytes, rows.1, rows.0),
                                vertices(bytes, points.1, points.0),
                            ),
                            pos,
                        ),
                    ),
                },
            },
        },
    }
}

/// The corners of the triangles of a mesh, then those of its wire frame, and a
/// collision model.
pub open spec fn corners_at(bytes: Seq<u8>, pos: int) -> Parsed<Seq<u16>> {
    match layout::rows_at(bytes, pos, 2) {
        Err(error) => Err(error),
        Ok((rows, pos)) => match reader::behind(bytes, pos, 4) {
            Err(error) => Err(error),
            Ok((_, pos)) => match behind_rows(bytes, pos, 2, 4) {
                Err(error) => Err(error),
                Ok((_, pos)) => match reader::index_at(bytes, pos) {
                    Err(error) => Err(error),
                    Ok((_, end)) => Ok((words(bytes, rows.1, rows.0), end)),
                },
            },
        },
    }
}

/// Whether each material of a mesh stops actors.
pub open spec fn solid_materials(props: PropertiesModel) -> Seq<bool> {
    properties::maps_of(props, "Materials"@).map_values(
        |entry: PropertiesModel| properties::boolean_of(entry, "EnableCollision"@),
    )
}

/// The mesh in the bytes of an object.
pub open spec fn static_mesh_at(
    archive: ArchiveModel,
    bytes: Seq<u8>,
    pos: int,
    flags: u32,
) -> Parsed<StaticMeshModel> {
    match properties::properties_at(archive.names, bytes, pos, flags) {
        Err(error) => Err(error),
        Ok((props, pos)) => match shape_at(bytes, pos) {
            Err(error) => Err(error),
            Ok((shape, pos)) => match behind_drawing(bytes, pos) {
                Err(error) => Err(error),
                Ok((_, pos)) => match corners_at(bytes, pos) {
                    Err(error) => Err(error),
                    Ok((indices, end)) => Ok(
                        (
                            StaticMeshModel {
                                surfaces: shape.0,
                                vertices: shape.1,
                                indices,
                                materials: solid_materials(props),
                            },
                            end,
                        ),
                    ),
                },
            },
        },
    }
}

fn surfaces_in(bytes: &[u8], start: usize, count: usize) -> (list: Vec<StaticSurface>)
    requires
        start + 14 * count <= bytes@.len(),
    ensures
        list@ == surfaces(bytes@, start as int, count as int),
{
    let mut list: Vec<StaticSurface> = Vec::new();
    let mut i: usize = 0;
    assert(bytes.len() <= usize::MAX);
    while i < count
        invariant
            i <= count,
            start + 14 * count <= bytes@.len(),
            bytes@.len() <= usize::MAX,
            list@ == surfaces(bytes@, start as int, i as int),
        decreases count - i,
    {
        let at: usize = start + 14 * i;
        list.push(
            StaticSurface {
                first_index: word_in(bytes, at + 4),
                triangle_max: word_in(bytes, at + 12),
            },
        );
        i += 1;
        assert(list@ =~= surfaces(bytes@, start as int, i as int));
    }
    list
}

fn vertices_in(bytes: &[u8], start: usize, count: usize) -> (list: Vec<Vertex>)
    requires
        start + 24 * count <= bytes@.len(),
    ensures
        list@ == vertices(bytes@, start as int, count as int),
{
    let mut list: Vec<Vertex> = Vec::new();
    let mut i: usize = 0;
    assert(bytes.len() <= usize::MAX);
    while i < count
        invariant
            i <= count,
            start + 24 * count <= bytes@.len(),
            bytes@.len() <= usize::MAX,
            list@ == vertices(bytes@, start as int, i as int),
        decreases count - i,
    {
        let at: usize = start + 24 * i;
        list.push(Vertex { position: vector_in(bytes, at), normal: vector_in(bytes, at + 12) });
        i += 1;
        assert(list@ =~= vertices(bytes@, start as int, i as int));
    }
    list
}

fn words_in(bytes: &[u8], start: usize, count: usize) -> (list: Vec<u16>)
    requires
        start + 2 * count <= bytes@.len(),
    ensures
        list@ == words(bytes@, start as int, count as int),
{
    let mut list: Vec<u16> = Vec::new();
    let mut i: usize = 0;
    assert(bytes.len() <= usize::MAX);
    while i < count
        invariant
            i <= count,
            start + 2 * count <= bytes@.len(),
            bytes@.len() <= usize::MAX,
            list@ == words(bytes@, start as int, i as int),
        decreases count - i,
    {
        list.push(word_in(bytes, start + 2 * i));
        i += 1;
        assert(list@ =~= words(bytes@, start as int, i as int));
    }
    list
}

fn skip_rows(reader: &mut Reader<'_>, size: usize, tail: usize) -> (result: Result<()>)
    requires
        size <= 100,
    ensures
        reader::reads(
            *old(reader),
            *final(reader),
            result,
            behind_rows(old(reader).bytes@, old(reader).pos as int, size as int, tail as int),
        ),
{
    let _rows = read_rows(reader, size)?;
    reader.skip(tail)
}

fn skip_drawing(reader: &mut Reader<'_>) -> (result: Result<()>)
    ensures
        reader::reads(
            *old(reader),
            *final(reader),
            result,
            behind_drawing(old(reader).bytes@, old(reader).pos as int),
        ),
{
    reader.skip(4)?;
    skip_rows(reader, 4, 4)?;
    skip_rows(reader, 4, 4)?;
    let count: i32 = reader.count("UV stream")?;
    let ghost start = reader.pos as int;
    let mut left: usize = count as usize;
    while left > 0
        invariant
            reader.bytes == old(reader).bytes,
            behind_drawing(old(reader).bytes@, old(reader).pos as int) == behind_streams(
                reader.bytes@,
                reader.pos as int,
                left as nat,
            ),
        decreases left,
    {
        skip_rows(reader, 8, 8)?;
        left = left - 1;
    }
    Ok(())
}

fn read_shape(reader: &mut Reader<'_>) -> (result: Result<(Vec<StaticSurface>, Vec<Vertex>)>)
    ensures
        final(reader).bytes == old(reader).bytes,
        match (result, shape_at(old(reader).bytes@, old(reader).pos as int)) {
            (Ok((surfaces, vertices)), Ok((expected, end))) => {
                &&& surfaces@ == expected.0
                &&& vertices@ == expected.1
                &&& final(reader).pos == end
            },
            (Err(error), Err(expected)) => error@ == expected,
            _ => false,
        },
{
    reader.skip(BOUNDS_SIZE)?;
    let (count, start) = read_rows(reader, SURFACE_SIZE)?;
    let surfaces = surfaces_in(reader.bytes, start, count);
    reader.skip(BOX_SIZE)?;
    let (count, start) = read_rows(reader, VERTEX_SIZE)?;
    let vertices = vertices_in(reader.bytes, start, count);
    Ok((surfaces, vertices))
}

fn read_corners(reader: &mut Reader<'_>) -> (result: Result<Vec<u16>>)
    ensures
        reader::reads_view(
            *old(reader),
            *final(reader),
            result,
            corners_at(old(reader).bytes@, old(reader).pos as int),
        ),
{
    let (count, start) = read_rows(reader, 2)?;
    let indices = words_in(reader.bytes, start, count);
    reader.skip(4)?;
    skip_rows(reader, 2, 4)?;
    let _collision_model: i32 = reader.index()?;
    Ok(indices)
}

/// The corners of the triangles of a surface, in reverse.
pub open spec fn triangles_of(indices: Seq<u16>, start: int, count: nat) -> Seq<u32> {
    Seq::new(3 * count, |i: int| indices[start + 3 * (i / 3) + (2 - i % 3)] as u32)
}

impl StaticMeshModel {
    /// Whether the triangles of a surface lie among the indices.
    pub open spec fn surface_fits(self, surface: int) -> bool {
        self.surfaces[surface].triangle_max > 0 ==> self.surfaces[surface].first_index + 3
            * self.surfaces[surface].triangle_max <= self.indices.len()
    }

    /// Whether a surface stops actors.
    pub open spec fn is_solid(self, surface: int) -> bool {
        surface < self.materials.len() && self.materials[surface]
    }

    /// The corners of the triangles of the first surfaces that stop actors.
    pub open spec fn solid_corners(self, count: nat) -> Seq<u32>
        decreases count,
    {
        if count == 0 {
            Seq::empty()
        } else if self.is_solid(count - 1) {
            self.solid_corners((count - 1) as nat) + triangles_of(
                self.indices,
                self.surfaces[count - 1].first_index as int,
                self.surfaces[count - 1].triangle_max as nat,
            )
        } else {
            self.solid_corners((count - 1) as nat)
        }
    }

    /// What of the mesh stops actors.
    pub open spec fn collision(self) -> std::result::Result<MeshModel, ErrorModel> {
        if exists|i: int|
            0 <= i < self.surfaces.len() && self.is_solid(i) && !#[trigger] self.surface_fits(i) {
            Err(ErrorModel::InvalidData("StaticMesh surface index range is invalid"@))
        } else {
            Ok(
                MeshModel {
                    vertices: self.vertices,
                    indices: self.solid_corners(self.surfaces.len()),
                },
            )
        }
    }
}

impl StaticMesh {
    /// Reads a mesh.
    pub fn read(archive: &Archive, reader: &mut Reader<'_>, flags: u32) -> (result: Result<Self>)
        ensures
            reader::reads_view(
                *old(reader),
                *final(reader),
                result,
                static_mesh_at(archive@, old(reader).bytes@, old(reader).pos as int, flags),
            ),
    {
        let props = read_properties(reader, &archive.names, flags)?;
        let (surfaces, vertices) = read_shape(reader)?;
        skip_drawing(reader)?;
        let indices = read_corners(reader)?;
        let materials = props.flags_of_maps("Materials", "EnableCollision");
        Ok(StaticMesh { vertices, surfaces, indices, materials })
    }

    /// The triangles that stop actors.
    pub fn collision_mesh(&self) -> (result: Result<Mesh>)
        ensures
            match (result, self@.collision()) {
                (Ok(mesh), Ok(expected)) => mesh@ == expected,
                (Err(error), Err(expected)) => error@ == expected,
                _ => false,
            },
    {
        let mut indices: Vec<u32> = Vec::new();
        let mut number: usize = 0;
        while number < self.surfaces.len()
            invariant
                number <= self.surfaces@.len(),
                indices@ == self@.solid_corners(number as nat),
                forall|i: int|
                    0 <= i < number && self@.is_solid(i) ==> #[trigger] self@.surface_fits(i),
            decreases self.surfaces.len() - number,
        {
            if number < self.materials.len() && self.materials[number] {
                let surface = self.surfaces[number];
                let start: usize = surface.first_index as usize;
                let count: usize = surface.triangle_max as usize;
                if count > 0 && start + 3 * count > self.indices.len() {
                    assert(self@.is_solid(number as int) && !self@.surface_fits(number as int));
                    return Err(
                        AppError::InvalidData(
                            "StaticMesh surface index range is invalid".to_owned(),
                        ),
                    );
                }
                let ghost before = indices@;
                let mut triangle: usize = 0;
                assert(indices@ =~= before + triangles_of(self.indices@, start as int, 0));
                while triangle < count
                    invariant
                        triangle <= count,
                        count <= 65_535,
                        start <= 65_535,
                        count > 0 ==> start + 3 * count <= self.indices@.len(),
                        indices@ == before + triangles_of(
                            self.indices@,
                            start as int,
                            triangle as nat,
                        ),
                    decreases count - triangle,
                {
                    let at: usize = start + 3 * triangle;
                    indices.push(self.indices[at + 2] as u32);
                    indices.push(self.indices[at + 1] as u32);
                    indices.push(self.indices[at] as u32);
                    triangle += 1;
                    assert(indices@ =~= before + triangles_of(
                        self.indices@,
                        start as int,
                        triangle as nat,
                    ));
                }
            }
            number += 1;
        }
        Ok(Mesh { vertices: vstd::slice::slice_to_vec(self.vertices.as_slice()), indices })
    }
}

} // verus!
