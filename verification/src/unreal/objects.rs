//! Objects that are placed in a map, and the level that lists them.

use vstd::prelude::*;

use crate::error::{AppError, ErrorModel, Result};
use crate::unreal::layout;
use crate::unreal::layout::{read_indexes, skip_strings};
use crate::unreal::package::{Archive, ArchiveModel};
use crate::unreal::properties;
use crate::unreal::properties::{read_properties, Properties, PropertiesModel};
use crate::unreal::reader;
use crate::unreal::reader::{check_count, Parsed, Reader, Rotator, Vector};

verus! {

/// The bits of the number one.
pub const ONE: u32 = 1_065_353_216;

pub open spec fn origin() -> Vector {
    Vector { x: 0, y: 0, z: 0 }
}

/// A placed object: where it stands, how it is drawn, and what it stops.
#[derive(Clone, Copy, Debug, PartialEq, Eq, Structural)]
pub struct Actor {
    pub location: Vector,
    pub rotation: Rotator,
    pub draw_scale: u32,
    pub draw_scale_3d: Vector,
    pub pre_pivot: Vector,
    pub static_mesh: Option<i32>,
    pub delete_me: bool,
    pub hidden: bool,
    pub collide_actors: bool,
    pub block_actors: bool,
    pub block_players: bool,
}

pub open spec fn vector_or(props: PropertiesModel, name: Seq<char>, default: Vector) -> Vector {
    match properties::vector_of(props, name) {
        Some(vector) => vector,
        None => default,
    }
}

/// The actor that properties describe.
pub open spec fn actor_in(props: PropertiesModel) -> Actor {
    Actor {
        location: vector_or(props, "Location"@, origin()),
        rotation: match properties::rotator_of(props, "Rotation"@) {
            Some(rotation) => rotation,
            None => Rotator { pitch: 0, yaw: 0, roll: 0 },
        },
        draw_scale: match properties::float_of(props, "DrawScale"@) {
            Some(bits) => bits,
            None => ONE,
        },
        draw_scale_3d: vector_or(props, "DrawScale3D"@, Vector { x: ONE, y: ONE, z: ONE }),
        pre_pivot: vector_or(props, "PrePivot"@, origin()),
        static_mesh: properties::index_of(props, "StaticMesh"@),
        delete_me: properties::boolean_of(props, "bDeleteMe"@),
        hidden: properties::boolean_of(props, "bHidden"@),
        collide_actors: properties::boolean_or_of(props, "bCollideActors"@, true),
        block_actors: properties::boolean_or_of(props, "bBlockActors"@, true),
        block_players: properties::boolean_or_of(props, "bBlockPlayers"@, true),
    }
}

fn vector_or_default(props: &Properties, name: &str, default: Vector) -> (vector: Vector)
    ensures
        vector == vector_or(props@, name@, default),
{
    match props.vector(name) {
        Some(vector) => vector,
        None => default,
    }
}

impl Actor {
    /// Whether the actor stops players: it exists, shows and collides.
    pub open spec fn solid(self) -> bool {
        !self.delete_me && !self.hidden && self.collide_actors && self.block_actors
            && self.block_players
    }

    pub fn is_solid(&self) -> (solid: bool)
        ensures
            solid == self.solid(),
    {
        !self.delete_me && !self.hidden && self.collide_actors && self.block_actors
            && self.block_players
    }

    pub fn from_properties(props: &Properties) -> (actor: Self)
        ensures
            actor == actor_in(props@),
    {
        Actor {
            location: vector_or_default(props, "Location", Vector { x: 0, y: 0, z: 0 }),
            rotation: match props.rotator("Rotation") {
                Some(rotation) => rotation,
                None => Rotator { pitch: 0, yaw: 0, roll: 0 },
            },
            draw_scale: match props.float("DrawScale") {
                Some(bits) => bits,
                None => ONE,
            },
            draw_scale_3d: vector_or_default(
                props,
                "DrawScale3D",
                Vector { x: ONE, y: ONE, z: ONE },
            ),
            pre_pivot: vector_or_default(props, "PrePivot", Vector { x: 0, y: 0, z: 0 }),
            static_mesh: props.index("StaticMesh"),
            delete_me: props.boolean("bDeleteMe"),
            hidden: props.boolean("bHidden"),
            collide_actors: props.boolean_or("bCollideActors", true),
            block_actors: props.boolean_or("bBlockActors", true),
            block_players: props.boolean_or("bBlockPlayers", true),
        }
    }

    /// Reads an actor.
    pub fn read(archive: &Archive, reader: &mut Reader<'_>, flags: u32) -> (result: Result<Self>)
        ensures
            reader::reads(
                *old(reader),
                *final(reader),
                result,
                actor_at(archive@, old(reader).bytes@, old(reader).pos as int, flags),
            ),
    {
        let props = read_properties(reader, &archive.names, flags)?;
        Ok(Actor::from_properties(&props))
    }
}

/// The actor in the bytes of an object.
pub open spec fn actor_at(archive: ArchiveModel, bytes: Seq<u8>, pos: int, flags: u32) -> Parsed<
    Actor,
> {
    match properties::properties_at(archive.names, bytes, pos, flags) {
        Err(error) => Err(error),
        Ok((props, end)) => Ok((actor_in(props), end)),
    }
}

/// A placed solid.
#[derive(Clone, Copy, Debug, PartialEq, Eq, Structural)]
pub struct Brush {
    pub actor: Actor,
    pub brush: Option<i32>,
}

/// The brush in the bytes of an object.
pub open spec fn brush_at(archive: ArchiveModel, bytes: Seq<u8>, pos: int, flags: u32) -> Parsed<
    Brush,
> {
    match properties::properties_at(archive.names, bytes, pos, flags) {
        Err(error) => Err(error),
        Ok((props, end)) => Ok(
            (
                Brush { actor: actor_in(props), brush: properties::index_of(props, "Brush"@) },
                end,
            ),
        ),
    }
}

impl Brush {
    /// Reads a brush.
    pub fn read(archive: &Archive, reader: &mut Reader<'_>, flags: u32) -> (result: Result<Self>)
        ensures
            reader::reads(
                *old(reader),
                *final(reader),
                result,
                brush_at(archive@, old(reader).bytes@, old(reader).pos as int, flags),
            ),
    {
        let props = read_properties(reader, &archive.names, flags)?;
        Ok(Brush { actor: Actor::from_properties(&props), brush: props.index("Brush") })
    }
}

/// The ground of a map.
#[derive(Clone, Debug)]
pub struct Terrain {
    pub actor: Actor,
    pub map_index: i32,
    pub terrain_scale: Vector,
    pub quad_visibility: Vec<u8>,
    pub edge_turn: Vec<u8>,
    pub map_x: i32,
    pub map_y: i32,
}

/// What a [`Terrain`] holds.
#[verifier::ext_equal]
pub struct TerrainModel {
    pub actor: Actor,
    pub map_index: i32,
    pub terrain_scale: Vector,
    pub quad_visibility: Seq<u8>,
    pub edge_turn: Seq<u8>,
    pub map_x: i32,
    pub map_y: i32,
}

impl View for Terrain {
    type V = TerrainModel;

    open spec fn view(&self) -> TerrainModel {
        TerrainModel {
            actor: self.actor,
            map_index: self.map_index,
            terrain_scale: self.terrain_scale,
            quad_visibility: self.quad_visibility@,
            edge_turn: self.edge_turn@,
            map_x: self.map_x,
            map_y: self.map_y,
        }
    }
}

pub open spec fn bytes_or_none(props: PropertiesModel, name: Seq<char>) -> Seq<u8> {
    match properties::bytes_of(props, name) {
        Some(bytes) => bytes,
        None => Seq::empty(),
    }
}

pub open spec fn integer_or_zero(props: PropertiesModel, name: Seq<char>) -> i32 {
    match properties::integer_of(props, name) {
        Some(number) => number,
        None => 0,
    }
}

/// The terrain in the bytes of an object.
pub open spec fn terrain_at(archive: ArchiveModel, bytes: Seq<u8>, pos: int, flags: u32) -> Parsed<
    TerrainModel,
> {
    match properties::properties_at(archive.names, bytes, pos, flags) {
        Err(error) => Err(error),
        Ok((props, end)) => match properties::index_of(props, "TerrainMap"@) {
            None => Err(ErrorModel::InvalidData("TerrainInfo without TerrainMap"@)),
            Some(map_index) => Ok(
                (
                    TerrainModel {
                        actor: actor_in(props),
                        map_index,
                        terrain_scale: vector_or(props, "TerrainScale"@, origin()),
                        quad_visibility: bytes_or_none(props, "QuadVisibilityBitmap"@),
                        edge_turn: bytes_or_none(props, "EdgeTurnBitmap"@),
                        map_x: integer_or_zero(props, "MapX"@),
                        map_y: integer_or_zero(props, "MapY"@),
                    },
                    end,
                ),
            ),
        },
    }
}

/// Whether bits are those of zero, of either sign.
pub open spec fn is_zero(bits: u32) -> bool {
    bits % 2_147_483_648 == 0
}

impl TerrainModel {
    /// Whether the scale is zero in a direction, which gives no ground.
    pub open spec fn broken_scale(self) -> bool {
        is_zero(self.terrain_scale.x) || is_zero(self.terrain_scale.y) || is_zero(
            self.terrain_scale.z,
        )
    }
}

fn bytes_or_default(props: &Properties, name: &str) -> (bytes: Vec<u8>)
    ensures
        bytes@ == bytes_or_none(props@, name@),
{
    match props.bytes(name) {
        Some(bytes) => bytes,
        None => Vec::new(),
    }
}

fn integer_or_default(props: &Properties, name: &str) -> (number: i32)
    ensures
        number == integer_or_zero(props@, name@),
{
    match props.integer(name) {
        Some(number) => number,
        None => 0,
    }
}

impl Terrain {
    /// Reads a terrain.
    pub fn read(archive: &Archive, reader: &mut Reader<'_>, flags: u32) -> (result: Result<Self>)
        ensures
            reader::reads_view(
                *old(reader),
                *final(reader),
                result,
                terrain_at(archive@, old(reader).bytes@, old(reader).pos as int, flags),
            ),
    {
        let props = read_properties(reader, &archive.names, flags)?;
        match props.index("TerrainMap") {
            None => Err(AppError::InvalidData("TerrainInfo without TerrainMap".to_owned())),
            Some(map_index) => Ok(
                Terrain {
                    actor: Actor::from_properties(&props),
                    map_index,
                    terrain_scale: vector_or_default(&props, "TerrainScale", Vector { x: 0, y: 0, z: 0 }),
                    quad_visibility: bytes_or_default(&props, "QuadVisibilityBitmap"),
                    edge_turn: bytes_or_default(&props, "EdgeTurnBitmap"),
                    map_x: integer_or_default(&props, "MapX"),
                    map_y: integer_or_default(&props, "MapY"),
                },
            ),
        }
    }

    pub fn broken_scale(&self) -> (broken: bool)
        ensures
            broken == self@.broken_scale(),
    {
        let scale = self.terrain_scale;
        scale.x % 2_147_483_648 == 0 || scale.y % 2_147_483_648 == 0 || scale.z % 2_147_483_648
            == 0
    }
}

/// The level of a map.
#[derive(Clone, Copy, Debug, PartialEq, Eq, Structural)]
pub struct Level {
    pub model_index: i32,
}

/// The position behind a list of objects: its length, written twice, and an
/// index for each.
pub open spec fn behind_objects(bytes: Seq<u8>, pos: int) -> Parsed<()> {
    match reader::i32_at(bytes, pos) {
        Err(error) => Err(error),
        Ok((count, pos)) => match reader::behind(bytes, pos, 4) {
            Err(error) => Err(error),
            Ok((_, pos)) => if reader::countable(count as int) {
                match layout::indexes_at(bytes, pos, count as nat) {
                    Err(error) => Err(error),
                    Ok((_, pos)) => Ok(((), pos)),
                }
            } else {
                Err(reader::bad_count("Level objects"@, count as int))
            },
        },
    }
}

/// The position behind the address of a level: four strings, a list of
/// options, a port and a validity byte, and two bytes more.
pub open spec fn behind_address(bytes: Seq<u8>, pos: int) -> Parsed<()> {
    match layout::behind_strings(bytes, pos, 4) {
        Err(error) => Err(error),
        Ok((_, pos)) => match reader::count_at(bytes, pos, "URL options"@) {
            Err(error) => Err(error),
            Ok((options, pos)) => match layout::behind_strings(bytes, pos, options as nat) {
                Err(error) => Err(error),
                Ok((_, pos)) => reader::behind(bytes, pos, 7),
            },
        },
    }
}

/// The position behind connections of places: a distance, two indices, three
/// numbers and a byte each.
pub open spec fn behind_connections(bytes: Seq<u8>, pos: int, count: nat) -> Parsed<()>
    decreases count,
{
    if count == 0 {
        Ok(((), pos))
    } else {
        match reader::behind(bytes, pos, 4) {
            Err(error) => Err(error),
            Ok((_, pos)) => match layout::indexes_at(bytes, pos, 2) {
                Err(error) => Err(error),
                Ok((_, pos)) => match reader::behind(bytes, pos, 13) {
                    Err(error) => Err(error),
                    Ok((_, next)) => behind_connections(bytes, next, (count - 1) as nat),
                },
            },
        }
    }
}

/// The model of a level, behind its lists.
pub open spec fn level_model_at(bytes: Seq<u8>, pos: int) -> Parsed<Level> {
    match behind_address(bytes, pos) {
        Err(error) => Err(error),
        Ok((_, pos)) => match reader::count_at(bytes, pos, "reach specs"@) {
            Err(error) => Err(error),
            Ok((count, pos)) => match behind_connections(bytes, pos, count as nat) {
                Err(error) => Err(error),
                Ok((_, pos)) => match reader::index_at(bytes, pos) {
                    Err(error) => Err(error),
                    Ok((model_index, end)) => Ok((Level { model_index }, end)),
                },
            },
        },
    }
}

/// The level in the bytes of an object. Later packages list objects twice.
pub open spec fn level_at(archive: ArchiveModel, bytes: Seq<u8>, pos: int, flags: u32) -> Parsed<
    Level,
> {
    match properties::properties_at(archive.names, bytes, pos, flags) {
        Err(error) => Err(error),
        Ok((_, pos)) => match behind_objects(bytes, pos) {
            Err(error) => Err(error),
            Ok((_, pos)) => match (if archive.license_version > 20 {
                behind_objects(bytes, pos)
            } else {
                Ok(((), pos))
            }) {
                Err(error) => Err(error),
                Ok((_, pos)) => level_model_at(bytes, pos),
            },
        },
    }
}

fn skip_objects(reader: &mut Reader<'_>) -> (result: Result<()>)
    ensures
        reader::reads(
            *old(reader),
            *final(reader),
            result,
            behind_objects(old(reader).bytes@, old(reader).pos as int),
        ),
{
    let count: i32 = reader.i32()?;
    reader.skip(4)?;
    check_count("Level objects", count)?;
    let _objects = read_indexes(reader, count as usize)?;
    Ok(())
}

fn skip_address(reader: &mut Reader<'_>) -> (result: Result<()>)
    ensures
        reader::reads(
            *old(reader),
            *final(reader),
            result,
            behind_address(old(reader).bytes@, old(reader).pos as int),
        ),
{
    skip_strings(reader, 4)?;
    let options: i32 = reader.count("URL options")?;
    skip_strings(reader, options as usize)?;
    reader.skip(7)
}

fn skip_connections(reader: &mut Reader<'_>, count: usize) -> (result: Result<()>)
    ensures
        reader::reads(
            *old(reader),
            *final(reader),
            result,
            behind_connections(old(reader).bytes@, old(reader).pos as int, count as nat),
        ),
{
    let mut left: usize = count;
    while left > 0
        invariant
            reader.bytes == old(reader).bytes,
            behind_connections(old(reader).bytes@, old(reader).pos as int, count as nat)
                == behind_connections(reader.bytes@, reader.pos as int, left as nat),
        decreases left,
    {
        reader.skip(4)?;
        let _ends = read_indexes(reader, 2)?;
        reader.skip(13)?;
        left = left - 1;
    }
    Ok(())
}

impl Level {
    /// Reads a level.
    pub fn read(archive: &Archive, reader: &mut Reader<'_>, flags: u32) -> (result: Result<Self>)
        ensures
            reader::reads(
                *old(reader),
                *final(reader),
                result,
                level_at(archive@, old(reader).bytes@, old(reader).pos as int, flags),
            ),
    {
        let _props = read_properties(reader, &archive.names, flags)?;
        skip_objects(reader)?;
        if archive.license_version > 20 {
            skip_objects(reader)?;
        }
        skip_address(reader)?;
        let count: i32 = reader.count("reach specs")?;
        skip_connections(reader, count as usize)?;
        let model_index: i32 = reader.index()?;
        Ok(Level { model_index })
    }
}

} // verus!
