//! What of a map stops a player, and where it is looked for.

use vstd::prelude::*;

use crate::error::ErrorModel;
use crate::unreal::geometry_laws;
use crate::unreal::loader;
use crate::unreal::loader::{
    Answer, GeometrySource, GroundModel, PackageModel, PartModel, StopModel,
};
use crate::unreal::model;
use crate::unreal::model::{BspNode, PolygonModel, SolidModel};
use crate::unreal::object::ObjectModel;
use crate::unreal::objects;
use crate::unreal::objects::{Actor, TerrainModel};
use crate::unreal::package::ArchiveModel;
use crate::unreal::package_laws;
use crate::unreal::properties;
use crate::unreal::properties::{PropertiesModel, PropertyModel, ValueModel};
use crate::unreal::reader;
use crate::unreal::reader::Vector;
use crate::unreal::static_mesh::MeshModel;

verus! {

/// The highest bit of a floating-point number is its sign, and the others order
/// the numbers of one sign by their size. Both zeros are equal, and what is no
/// number is neither less nor greater than anything.
pub proof fn bits_order_as_numbers(left: u32, right: u32)
    ensures
        model::is_nan(left) || model::is_nan(right) ==> !model::less(left, right),
        !model::is_nan(left) && !model::is_nan(right) ==> {
            let a = left as int % 0x8000_0000;
            let b = right as int % 0x8000_0000;
            &&& left < 0x8000_0000 && right < 0x8000_0000 ==> model::less(left, right) == (a < b)
            &&& left >= 0x8000_0000 && right >= 0x8000_0000 ==> model::less(left, right) == (a > b)
            &&& left >= 0x8000_0000 && right < 0x8000_0000 ==> model::less(left, right) == (a != 0
                || b != 0)
            &&& left < 0x8000_0000 && right >= 0x8000_0000 ==> !model::less(left, right)
        },
        model::is_nan(left) == (left as int % 0x8000_0000 > 0x7f80_0000),
        model::negated(left) as int % 0x8000_0000 == left as int % 0x8000_0000,
        (model::negated(left) >= 0x8000_0000) == (left < 0x8000_0000),
{
}

/// A polygon becomes triangles that all share its first corner: one for each pair
/// of neighbours among the others.
pub proof fn polygons_fan_out(offset: nat, corners: nat, t: (int, int, int))
    requires
        corners >= 3,
        offset + corners <= u32::MAX,
    ensures
        geometry_laws::has_triangle(model::fan(offset, corners), t) == exists|k: int|
            1 <= k < corners - 1 && t == (offset as int, offset + k, #[trigger] step(offset, k)),
        geometry_laws::has_triangle(model::reverse_fan(offset, corners), t) == exists|k: int|
            1 <= k < corners - 1 && t == (offset as int, #[trigger] step(offset, k), offset + k),
        model::fan(offset, corners).len() == 3 * (corners - 2),
        model::reverse_fan(offset, corners).len() == 3 * (corners - 2),
{
    let fan = model::fan(offset, corners);
    let back = model::reverse_fan(offset, corners);
    assert forall|k: int| 0 <= k < corners - 2 implies fan[3 * k] == offset && fan[3 * k + 1]
        == offset + k + 1 && #[trigger] fan[3 * k + 2] == offset + k + 2 && back[3 * k] == offset
        && back[3 * k + 1] == offset + k + 2 && back[3 * k + 2] == offset + k + 1 by {
        assert((3 * k) / 3 == k && (3 * k) % 3 == 0);
        assert((3 * k + 1) / 3 == k && (3 * k + 1) % 3 == 1);
        assert((3 * k + 2) / 3 == k && (3 * k + 2) % 3 == 2);
    }
    if geometry_laws::has_triangle(fan, t) {
        let k = choose|k: int|
            0 <= k && 3 * k + 2 < fan.len() && #[trigger] geometry_laws::is_triangle(fan, k, t);
        assert(fan[3 * k + 2] == offset + k + 2);
        assert(step(offset, k + 1) == offset + k + 2);
    }
    if exists|k: int|
        1 <= k < corners - 1 && t == (offset as int, offset + k, #[trigger] step(offset, k)) {
        let k = choose|k: int|
            1 <= k < corners - 1 && t == (offset as int, offset + k, #[trigger] step(offset, k));
        assert(fan[3 * (k - 1) + 2] == offset + k + 1);
        assert(geometry_laws::is_triangle(fan, k - 1, t));
    }
    if geometry_laws::has_triangle(back, t) {
        let k = choose|k: int|
            0 <= k && 3 * k + 2 < back.len() && #[trigger] geometry_laws::is_triangle(back, k, t);
        assert(fan[3 * k + 2] == offset + k + 2);
        assert(step(offset, k + 1) == offset + k + 2);
    }
    if exists|k: int|
        1 <= k < corners - 1 && t == (offset as int, #[trigger] step(offset, k), offset + k) {
        let k = choose|k: int|
            1 <= k < corners - 1 && t == (offset as int, #[trigger] step(offset, k), offset + k);
        assert(fan[3 * (k - 1) + 2] == offset + k + 1);
        assert(geometry_laws::is_triangle(back, k - 1, t));
    }
}

/// The vertex behind a corner of a fan.
pub open spec fn step(offset: nat, k: int) -> int {
    offset + k + 1
}

/// Whether a node of a solid gives a polygon: it and its surface are not passable,
/// it has at least three corners, and all of them lie inside the bounds, if there
/// are any.
pub open spec fn stops_players(solid: SolidModel, node: BspNode, bounds: Option<model::Box3>) -> bool {
    let surface = solid.surfaces[node.surface_index as int];
    &&& node.flags % 2 == 0
    &&& surface.polygon_flags & 0x0400_00df == 0
    &&& node.vertex_count >= 3
    &&& bounds is Some ==> forall|i: int|
        0 <= i < node.vertex_count ==> inside(
            bounds->0,
            #[trigger] solid.points[solid.vertices[node.vertex_pool_index + i].vertex_index as int],
        )
}

/// A point strictly between two corners of a box, along every axis.
pub open spec fn inside(bounds: model::Box3, point: Vector) -> bool {
    &&& model::less(bounds.min.x, point.x) && model::less(point.x, bounds.max.x)
    &&& model::less(bounds.min.y, point.y) && model::less(point.y, bounds.max.y)
    &&& model::less(bounds.min.z, point.z) && model::less(point.z, bounds.max.z)
}

/// A polygon of a solid has the corners of its node and the normal of its
/// surface, and two faces where the surface says so. Nodes that players pass, that
/// reach out of the bounds or that have fewer than three corners give none.
pub proof fn nodes_give_polygons(solid: SolidModel, node: BspNode, bounds: Option<model::Box3>)
    requires
        solid.polygon(node, bounds) is Ok,
    ensures
        match solid.polygon(node, bounds)->Ok_0 {
            Some(polygon) => {
                let surface = solid.surfaces[node.surface_index as int];
                &&& stops_players(solid, node, bounds)
                &&& polygon.positions.len() == node.vertex_count
                &&& forall|i: int|
                    0 <= i < node.vertex_count ==> #[trigger] polygon.positions[i]
                        == solid.points[solid.vertices[node.vertex_pool_index
                        + i].vertex_index as int]
                &&& polygon.normal == solid.vectors[surface.normal_index as int]
                &&& polygon.two_sided == (surface.polygon_flags & 0x100 != 0)
            },
            None => !stops_players(solid, node, bounds),
        },
{
    let surface = solid.surfaces[node.surface_index as int];
    if node.flags % 2 == 0 && surface.polygon_flags & 0x0400_00df == 0 {
        if bounds is Some {
            if solid.within(node, bounds) {
                assert forall|i: int| 0 <= i < node.vertex_count implies inside(
                    bounds->0,
                    #[trigger] solid.points[solid.vertices[node.vertex_pool_index
                        + i].vertex_index as int],
                ) by {
                    assert(bounds->0.holds(solid.positions(node)[i]));
                }
            } else {
                let i = choose|i: int|
                    0 <= i < node.vertex_count && !bounds->0.holds(
                        #[trigger] solid.positions(node)[i],
                    );
                let point = solid.points[solid.vertices[node.vertex_pool_index
                    + i].vertex_index as int];
                assert(solid.positions(node)[i] == point);
                assert(!inside(bounds->0, point));
            }
        }
    }
}

/// A polygon adds its corners with its normal and its fan. One with two faces adds
/// them once more, with the vertical part of the normal turned around and the
/// triangles seen from behind.
pub proof fn polygons_are_added(mesh: MeshModel, polygon: PolygonModel, i: int)
    requires
        polygon.positions.len() >= 3,
        model::extended(mesh, polygon) is Ok,
        0 <= i < polygon.positions.len(),
    ensures
        ({
            let after = model::extended(mesh, polygon)->Ok_0;
            let offset = mesh.vertices.len();
            let corners = polygon.positions.len();
            let faces: nat = if polygon.two_sided {
                2
            } else {
                1
            };
            &&& after.vertices.len() == offset + faces * corners
            &&& after.indices.len() == mesh.indices.len() + faces * (3 * (corners - 2))
            &&& after.vertices.take(offset as int) == mesh.vertices
            &&& after.indices.take(mesh.indices.len() as int) == mesh.indices
            &&& after.vertices[offset + i].position == polygon.positions[i]
            &&& after.vertices[offset + i].normal == polygon.normal
            &&& after.indices.subrange(
                mesh.indices.len() as int,
                mesh.indices.len() + 3 * (corners - 2),
            ) == model::fan(offset, corners)
            &&& polygon.two_sided ==> {
                let other = after.vertices[offset + corners + i];
                &&& other.position == polygon.positions[i]
                &&& other.normal.x == polygon.normal.x
                &&& other.normal.y == polygon.normal.y
                &&& other.normal.z == model::negated(polygon.normal.z)
                &&& after.indices.skip(mesh.indices.len() + 3 * (corners - 2))
                    == model::reverse_fan(offset + corners, corners)
            }
        }),
{
    let after = model::extended(mesh, polygon)->Ok_0;
    let offset = mesh.vertices.len();
    let corners = polygon.positions.len();
    let n = mesh.indices.len() as int;
    assert(model::fan(offset, corners).len() == 3 * (corners - 2));
    assert(after.vertices.take(offset as int) =~= mesh.vertices);
    assert(after.indices.take(n) =~= mesh.indices);
    assert(after.indices.subrange(n, n + 3 * (corners - 2)) =~= model::fan(offset, corners));
    if polygon.two_sided {
        assert(after.indices.skip(n + 3 * (corners - 2)) =~= model::reverse_fan(
            offset + corners,
            corners,
        ));
    }
}

/// Of two values under one name the later one counts, and values under other
/// names do not touch it.
pub proof fn later_values_count(props: PropertiesModel, entry: PropertyModel, name: Seq<char>)
    ensures
        properties::lookup(props.push(entry), name) == if name == entry.name {
            Some(entry.value)
        } else {
            properties::lookup(props, name)
        },
        properties::lookup(Seq::<PropertyModel>::empty(), name) is None,
{
    assert(props.push(entry).drop_last() =~= props);
}

/// An actor stops players unless it is deleted or hidden, or says that it does not
/// collide, block actors or block players. Without properties it stands at the
/// origin, unturned and in full size.
pub proof fn actors_stop_players(props: PropertiesModel)
    ensures
        objects::actor_in(props).solid() == (properties::lookup(props, "bDeleteMe"@) != Some(
            ValueModel::Bool(true),
        ) && properties::lookup(props, "bHidden"@) != Some(ValueModel::Bool(true)) && (
        properties::lookup(props, "bCollideActors"@) is None || properties::lookup(
            props,
            "bCollideActors"@,
        ) == Some(ValueModel::Bool(true))) && (properties::lookup(props, "bBlockActors"@) is None
            || properties::lookup(props, "bBlockActors"@) == Some(ValueModel::Bool(true))) && (
        properties::lookup(props, "bBlockPlayers"@) is None || properties::lookup(
            props,
            "bBlockPlayers"@,
        ) == Some(ValueModel::Bool(true)))),
        forall|place: Vector|
            properties::lookup(props, "Location"@) == Some(ValueModel::Vector(place))
                ==> #[trigger] at(place) == objects::actor_in(props).location,
        forall|index: i32| #[trigger]
            properties::lookup(props, "StaticMesh"@) == Some(ValueModel::Index(index))
                ==> objects::actor_in(props).static_mesh == Some(index),
        props.len() == 0 ==> {
            let actor = objects::actor_in(props);
            &&& actor.location == (Vector { x: 0, y: 0, z: 0 })
            &&& actor.pre_pivot == (Vector { x: 0, y: 0, z: 0 })
            &&& actor.rotation.pitch == 0 && actor.rotation.yaw == 0 && actor.rotation.roll == 0
            &&& actor.draw_scale == 0x3f80_0000
            &&& actor.draw_scale_3d == (Vector {
                x: 0x3f80_0000,
                y: 0x3f80_0000,
                z: 0x3f80_0000,
            })
            &&& actor.static_mesh is None
            &&& actor.solid()
        },
{
}

pub open spec fn at(place: Vector) -> Vector {
    place
}

/// A scale is broken where one of its parts is zero, of either sign.
pub proof fn zero_scales_are_broken(terrain: TerrainModel)
    ensures
        terrain.broken_scale() == (terrain.terrain_scale.x == 0 || terrain.terrain_scale.x
            == 0x8000_0000 || terrain.terrain_scale.y == 0 || terrain.terrain_scale.y
            == 0x8000_0000 || terrain.terrain_scale.z == 0 || terrain.terrain_scale.z
            == 0x8000_0000),
{
}

/// A property is read where its name, its head and its value are, and the rest of
/// the list behind it.
proof fn lemma_next(
    names: Seq<Seq<char>>,
    front: Seq<u8>,
    name: int,
    back: Seq<u8>,
    head: properties::HeadModel,
    start: int,
    value: ValueModel,
    end: int,
    done: PropertiesModel,
)
    requires
        0 <= name < names.len() <= 10_000_000,
        names[name] != "None"@,
        ({
            let bytes = front + package_laws::as_index(name) + back;
            let at = (front.len() + package_laws::as_index(name).len()) as int;
            &&& properties::head_at(names, bytes, at) == reader::Parsed::<
                properties::HeadModel,
            >::Ok((head, start))
            &&& properties::value_at(names, bytes, start, names[name], head) == reader::Parsed::<
                ValueModel,
            >::Ok((value, end))
            &&& at < start <= end <= bytes.len()
        }),
    ensures
        properties::properties_from(
            names,
            front + package_laws::as_index(name) + back,
            front.len() as int,
            done,
        ) == properties::properties_from(
            names,
            front + package_laws::as_index(name) + back,
            end,
            done.push(PropertyModel { name: names[name], value }),
        ),
{
    package_laws::compact_indices_are_read_back(front, name, back);
}

/// A whole number is written as its name, the byte 22 and four bytes.
pub proof fn written_numbers_are_read(
    names: Seq<Seq<char>>,
    front: Seq<u8>,
    name: int,
    value: Seq<u8>,
    back: Seq<u8>,
    done: PropertiesModel,
)
    requires
        0 <= name < names.len() <= 10_000_000,
        names[name] != "None"@,
        value.len() == 4,
    ensures
        ({
            let key = package_laws::as_index(name);
            let bytes = front + key + (seq![0x22u8] + value + back);
            let number = package_laws::signed_at(value, 0) as i32;
            properties::properties_from(names, bytes, front.len() as int, done)
                == properties::properties_from(
                names,
                bytes,
                (front.len() + key.len()) as int + 5,
                done.push(PropertyModel { name: names[name], value: ValueModel::Int(number) }),
            )
        }),
{
    let key = package_laws::as_index(name);
    let at = (front.len() + key.len()) as int;
    let tail = seq![0x22u8] + value + back;
    let bytes = front + key + tail;
    assert(bytes[at] == 0x22);
    assert(bytes[at + 1] == value[0] && bytes[at + 2] == value[1] && bytes[at + 3] == value[2]
        && bytes[at + 4] == value[3]);
    let head = properties::HeadModel { kind: 2, marked: false, structure: None, size: 4 };
    let number = package_laws::signed_at(value, 0) as i32;
    assert(properties::head_at(names, bytes, at) == reader::Parsed::<properties::HeadModel>::Ok(
        (head, at + 1),
    ));
    assert(properties::value_at(names, bytes, at + 1, names[name], head) == reader::Parsed::<
        ValueModel,
    >::Ok((ValueModel::Int(number), at + 5)));
    lemma_next(
        names,
        front,
        name,
        tail,
        head,
        at + 1,
        ValueModel::Int(number),
        at + 5,
        done,
    );
}

/// A truth value is written as its name and the byte 83 or 03.
pub proof fn written_truth_values_are_read(
    names: Seq<Seq<char>>,
    front: Seq<u8>,
    name: int,
    truth: bool,
    back: Seq<u8>,
    done: PropertiesModel,
)
    requires
        0 <= name < names.len() <= 10_000_000,
        names[name] != "None"@,
    ensures
        ({
            let key = package_laws::as_index(name);
            let info: u8 = if truth {
                0x83
            } else {
                0x03
            };
            let bytes = front + key + (seq![info] + back);
            properties::properties_from(names, bytes, front.len() as int, done)
                == properties::properties_from(
                names,
                bytes,
                (front.len() + key.len()) as int + 1,
                done.push(PropertyModel { name: names[name], value: ValueModel::Bool(truth) }),
            )
        }),
{
    let key = package_laws::as_index(name);
    let info: u8 = if truth {
        0x83
    } else {
        0x03
    };
    let at = (front.len() + key.len()) as int;
    let tail = seq![info] + back;
    let bytes = front + key + tail;
    assert(bytes[at] == info);
    let head = properties::HeadModel { kind: 3, marked: truth, structure: None, size: 1 };
    assert(properties::head_at(names, bytes, at) == reader::Parsed::<properties::HeadModel>::Ok(
        (head, at + 1),
    ));
    lemma_next(names, front, name, tail, head, at + 1, ValueModel::Bool(truth), at + 1, done);
}

/// A byte is written as its name, the byte 01 and the byte itself.
pub proof fn written_bytes_are_read(
    names: Seq<Seq<char>>,
    front: Seq<u8>,
    name: int,
    value: u8,
    back: Seq<u8>,
    done: PropertiesModel,
)
    requires
        0 <= name < names.len() <= 10_000_000,
        names[name] != "None"@,
    ensures
        ({
            let key = package_laws::as_index(name);
            let bytes = front + key + (seq![0x01u8, value] + back);
            properties::properties_from(names, bytes, front.len() as int, done)
                == properties::properties_from(
                names,
                bytes,
                (front.len() + key.len()) as int + 2,
                done.push(PropertyModel { name: names[name], value: ValueModel::Byte(value) }),
            )
        }),
{
    let key = package_laws::as_index(name);
    let at = (front.len() + key.len()) as int;
    let tail = seq![0x01u8, value] + back;
    let bytes = front + key + tail;
    assert(bytes[at] == 0x01 && bytes[at + 1] == value);
    let head = properties::HeadModel { kind: 1, marked: false, structure: None, size: 1 };
    assert(properties::head_at(names, bytes, at) == reader::Parsed::<properties::HeadModel>::Ok(
        (head, at + 1),
    ));
    assert(properties::value_at(names, bytes, at + 1, names[name], head) == reader::Parsed::<
        ValueModel,
    >::Ok((ValueModel::Byte(value), at + 2)));
    lemma_next(names, front, name, tail, head, at + 1, ValueModel::Byte(value), at + 2, done);
}

/// A place is written as its name, the byte 3b and twelve bytes: four for each of
/// its parts.
pub proof fn written_places_are_read(
    names: Seq<Seq<char>>,
    front: Seq<u8>,
    name: int,
    value: Seq<u8>,
    back: Seq<u8>,
    done: PropertiesModel,
)
    requires
        0 <= name < names.len() <= 10_000_000,
        names[name] != "None"@,
        value.len() == 12,
    ensures
        ({
            let key = package_laws::as_index(name);
            let bytes = front + key + (seq![0x3bu8] + value + back);
            let place = Vector {
                x: package_laws::unsigned_at(value, 0) as u32,
                y: package_laws::unsigned_at(value, 4) as u32,
                z: package_laws::unsigned_at(value, 8) as u32,
            };
            properties::properties_from(names, bytes, front.len() as int, done)
                == properties::properties_from(
                names,
                bytes,
                (front.len() + key.len()) as int + 13,
                done.push(PropertyModel { name: names[name], value: ValueModel::Vector(place) }),
            )
        }),
{
    let key = package_laws::as_index(name);
    let at = (front.len() + key.len()) as int;
    let tail = seq![0x3bu8] + value + back;
    let bytes = front + key + tail;
    assert(bytes[at] == 0x3b);
    assert forall|i: int| 0 <= i < 12 implies value[i] == #[trigger] bytes[at + 1 + i] by {}
    let place = Vector {
        x: package_laws::unsigned_at(value, 0) as u32,
        y: package_laws::unsigned_at(value, 4) as u32,
        z: package_laws::unsigned_at(value, 8) as u32,
    };
    let head = properties::HeadModel { kind: 11, marked: false, structure: None, size: 12 };
    assert(properties::head_at(names, bytes, at) == reader::Parsed::<properties::HeadModel>::Ok(
        (head, at + 1),
    ));
    assert(properties::value_at(names, bytes, at + 1, names[name], head) == reader::Parsed::<
        ValueModel,
    >::Ok((ValueModel::Vector(place), at + 13)));
    lemma_next(names, front, name, tail, head, at + 1, ValueModel::Vector(place), at + 13, done);
}

/// The name `None` ends a property list.
pub proof fn none_ends_the_list(
    names: Seq<Seq<char>>,
    front: Seq<u8>,
    name: int,
    back: Seq<u8>,
    done: PropertiesModel,
)
    requires
        0 <= name < names.len() <= 10_000_000,
        names[name] == "None"@,
    ensures
        properties::properties_from(
            names,
            front + package_laws::as_index(name) + back,
            front.len() as int,
            done,
        ) == reader::Parsed::<PropertiesModel>::Ok(
            (done, (front.len() + package_laws::as_index(name).len()) as int),
        ),
{
    package_laws::compact_indices_are_read_back(front, name, back);
}

/// The size of a value stands in three bits: 1, 2, 4, 12 or 16 bytes, or one, two
/// or four bytes that tell it.
pub proof fn sizes_are_chosen(bytes: Seq<u8>, pos: int)
    requires
        0 <= pos,
        pos + 4 <= bytes.len(),
    ensures
        properties::size_at(bytes, pos, 0) == reader::Parsed::<int>::Ok((1, pos)),
        properties::size_at(bytes, pos, 1) == reader::Parsed::<int>::Ok((2, pos)),
        properties::size_at(bytes, pos, 2) == reader::Parsed::<int>::Ok((4, pos)),
        properties::size_at(bytes, pos, 3) == reader::Parsed::<int>::Ok((12, pos)),
        properties::size_at(bytes, pos, 4) == reader::Parsed::<int>::Ok((16, pos)),
        properties::size_at(bytes, pos, 5) == reader::Parsed::<int>::Ok(
            (bytes[pos] as int, pos + 1),
        ),
        properties::size_at(bytes, pos, 6) == reader::Parsed::<int>::Ok(
            (bytes[pos] + 256 * bytes[pos + 1], pos + 2),
        ),
        properties::size_at(bytes, pos, 7) == reader::Parsed::<int>::Ok(
            (package_laws::unsigned_at(bytes, pos), pos + 4),
        ),
{
}

/// A package is looked for among maps, then static meshes, then textures, then
/// system textures.
pub proof fn packages_are_looked_for_in_turn(name: Seq<char>)
    ensures
        loader::package_files(name).len() == 4,
        loader::package_files(name)[0] == ("Maps"@, name + ".unr"@),
        loader::package_files(name)[1] == ("StaticMeshes"@, name + ".usx"@),
        loader::package_files(name)[2] == ("Textures"@, name + ".utx"@),
        loader::package_files(name)[3] == ("SysTextures"@, name + ".utx"@),
{
}

/// The ground of a map is joined to the map one row further on to the south, the
/// one a column further on to the east, and the one both further on to the
/// southeast.
pub proof fn neighbours_are_one_map_away(packages: Seq<PackageModel>, ground: GroundModel)
    requires
        ground.terrain.map_x < i32::MAX,
        ground.terrain.map_y < i32::MAX,
        loader::joined_ground(packages, ground) is Ok,
    ensures
        ({
            let x = ground.terrain.map_x as int;
            let y = ground.terrain.map_y as int;
            let south = loader::side_of(packages, x, y + 1);
            let east = loader::side_of(packages, x + 1, y);
            let southeast = loader::side_of(packages, x + 1, y + 1);
            &&& south is Ok && east is Ok && southeast is Ok
            &&& loader::joined_ground(packages, ground) == loader::joined(
                ground,
                south->Ok_0,
                east->Ok_0,
                southeast->Ok_0,
            )
        }),
{
}

/// The neighbour at a place is the package of its column and row with a line
/// between them. It is passed over where the package does not exist, where it has
/// no ground, or where the scale of that is broken.
pub proof fn missing_neighbours_are_passed_over(packages: Seq<PackageModel>, x: int, y: int)
    ensures
        ({
            let name = crate::text::signed_decimal(x) + seq!['_'] + crate::text::signed_decimal(y);
            let found = loader::archive_named(packages, name);
            let side = loader::side_of(packages, x, y);
            &&& found == Answer::<ArchiveModel>::Err(
                StopModel::Failed(ErrorModel::Missing("can't find package: "@ + name)),
            ) ==> side == Answer::<Option<GroundModel>>::Ok(None)
            &&& found == Answer::<ArchiveModel>::Err(StopModel::Needs(name)) ==> side == Answer::<
                Option<GroundModel>,
            >::Err(StopModel::Needs(name))
            &&& side is Ok && side->Ok_0 is Some ==> found is Ok
                && !side->Ok_0->0.terrain.broken_scale()
        }),
{
    reveal_strlit("_");
    assert("_"@ =~= seq!['_']);
    assert(loader::map_name(x, y) =~= crate::text::signed_decimal(x) + seq!['_']
        + crate::text::signed_decimal(y));
}

/// An actor gives geometry exactly if it stops players and has a mesh: what of the
/// mesh stops them, where the actor places it. An actor whose mesh is missing
/// gives none.
pub proof fn solid_actors_give_geometry(
    packages: Seq<PackageModel>,
    archive: ArchiveModel,
    actor: Actor,
)
    requires
        loader::actor_part(packages, archive, ObjectModel::Actor(actor)) is Ok,
    ensures
        match loader::actor_part(packages, archive, ObjectModel::Actor(actor))->Ok_0 {
            Some(part) => {
                &&& !actor.delete_me && !actor.hidden && actor.collide_actors && actor.block_actors
                    && actor.block_players
                &&& actor.static_mesh is Some
                &&& part.source == GeometrySource::StaticMesh
                &&& part.actor == Some(actor)
                &&& loader::mesh_referenced(
                    packages,
                    archive,
                    actor.static_mesh->0 as int,
                )->Ok_0.collision() == Ok::<MeshModel, ErrorModel>(part.mesh)
            },
            None => {
                ||| actor.delete_me || actor.hidden || !actor.collide_actors
                    || !actor.block_actors || !actor.block_players
                ||| actor.static_mesh is None
                ||| loader::mesh_referenced(packages, archive, actor.static_mesh->0 as int) is Err
            },
        },
{
}

/// A positive number refers to an export of the package itself, counted from one;
/// a negative one to an import, and zero to nothing.
pub proof fn references_count_from_one(
    packages: Seq<PackageModel>,
    archive: ArchiveModel,
    index: int,
    context: Seq<char>,
)
    requires
        index != 0,
    ensures
        index > 0 ==> loader::referenced(packages, archive, index, context) == loader::settled(
            crate::unreal::object::object_in(archive, index - 1),
        ),
        index < 0 && -index <= archive.imports.len() ==> loader::referenced(
            packages,
            archive,
            index,
            context,
        ) == loader::imported(packages, archive, -index - 1),
        index < 0 && -index > archive.imports.len() ==> loader::referenced(
            packages,
            archive,
            index,
            context,
        ) is Err,
        loader::referenced(packages, archive, 0, context) is Err,
{
}

/// The triangles of a source are counted part by part, three indices each.
pub proof fn triangles_are_counted(
    parts: Seq<PartModel>,
    more: PartModel,
    source: GeometrySource,
)
    ensures
        loader::triangles(parts.push(more), source) == loader::triangles(parts, source)
            + if more.source == source {
            more.mesh.indices.len() / 3
        } else {
            0
        },
        loader::triangles(Seq::<PartModel>::empty(), source) == 0,
{
    assert(parts.push(more).drop_last() =~= parts);
}

/// A structure is written as its name, the byte 3a, the name of its kind and its
/// bytes. One of the kind `Vector` is a place.
pub proof fn written_structures_are_read(
    names: Seq<Seq<char>>,
    front: Seq<u8>,
    name: int,
    kind: int,
    value: Seq<u8>,
    back: Seq<u8>,
    done: PropertiesModel,
)
    requires
        0 <= name < names.len() <= 10_000_000,
        0 <= kind < names.len(),
        names[name] != "None"@,
        names[kind] == "Vector"@,
        value.len() == 12,
    ensures
        ({
            let key = package_laws::as_index(name);
            let called = package_laws::as_index(kind);
            let bytes = front + key + (seq![0x3au8] + called + value + back);
            let place = Vector {
                x: package_laws::unsigned_at(value, 0) as u32,
                y: package_laws::unsigned_at(value, 4) as u32,
                z: package_laws::unsigned_at(value, 8) as u32,
            };
            properties::properties_from(names, bytes, front.len() as int, done)
                == properties::properties_from(
                names,
                bytes,
                (front.len() + key.len() + called.len()) as int + 13,
                done.push(PropertyModel { name: names[name], value: ValueModel::Vector(place) }),
            )
        }),
{
    let key = package_laws::as_index(name);
    let called = package_laws::as_index(kind);
    let at = (front.len() + key.len()) as int;
    let tail = seq![0x3au8] + called + value + back;
    let bytes = front + key + tail;
    assert(bytes[at] == 0x3a);
    let before = front + key + seq![0x3au8];
    assert(bytes =~= before + called + (value + back));
    package_laws::compact_indices_are_read_back(before, kind, value + back);
    let start = at + 1 + called.len();
    assert forall|i: int| 0 <= i < 12 implies value[i] == #[trigger] bytes[start + i] by {}
    let place = Vector {
        x: package_laws::unsigned_at(value, 0) as u32,
        y: package_laws::unsigned_at(value, 4) as u32,
        z: package_laws::unsigned_at(value, 8) as u32,
    };
    let head = properties::HeadModel {
        kind: 10,
        marked: false,
        structure: Some("Vector"@),
        size: 12,
    };
    assert(properties::head_at(names, bytes, at) == reader::Parsed::<properties::HeadModel>::Ok(
        (head, start),
    ));
    assert(properties::value_at(names, bytes, start, names[name], head) == reader::Parsed::<
        ValueModel,
    >::Ok((ValueModel::Vector(place), start + 12)));
    lemma_next(
        names,
        front,
        name,
        tail,
        head,
        start,
        ValueModel::Vector(place),
        start + 12,
        done,
    );
}

} // verus!
