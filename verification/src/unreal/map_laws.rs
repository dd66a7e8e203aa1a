//! What a map is put together from: solids as they are written, objects as they
//! are called, and packages as they are found.

use vstd::prelude::*;

use crate::error::ErrorModel;
use crate::unreal::layout;
use crate::unreal::loader;
use crate::unreal::loader::{Answer, GeometrySource, PackageModel, PartModel, StopModel};
use crate::unreal::model;
use crate::unreal::model::{Box3, BspNode, BspSurface, BspVertex};
use crate::unreal::object;
use crate::unreal::object::ObjectModel;
use crate::unreal::objects;
use crate::unreal::package;
use crate::unreal::package::{ArchiveModel, ExportModel, ImportModel};
use crate::unreal::package_laws;
use crate::unreal::properties;
use crate::unreal::properties::ValueModel;
use crate::unreal::reader::Parsed;
use crate::unreal::static_mesh::MeshModel;

verus! {

/// Compact numbers in a row.
pub open spec fn row(numbers: Seq<i32>) -> Seq<u8>
    decreases numbers.len(),
{
    if numbers.len() == 0 {
        Seq::empty()
    } else {
        package_laws::as_index(numbers[0] as int) + row(numbers.skip(1))
    }
}

proof fn lemma_row(front: Seq<u8>, numbers: Seq<i32>, back: Seq<u8>, done: Seq<i32>)
    ensures
        layout::indexes_from(
            front + row(numbers) + back,
            front.len() as int,
            numbers.len(),
            done,
        ) == Parsed::<Seq<i32>>::Ok(
            (done + numbers, (front.len() + row(numbers).len()) as int),
        ),
    decreases numbers.len(),
{
    let bytes = front + row(numbers) + back;
    if numbers.len() == 0 {
        assert(done + numbers =~= done);
    } else {
        let first = package_laws::as_index(numbers[0] as int);
        let rest = numbers.skip(1);
        package_laws::compact_indices_are_read_back(front, numbers[0] as int, row(rest) + back);
        assert(bytes =~= front + first + (row(rest) + back));
        assert(bytes =~= (front + first) + row(rest) + back);
        lemma_row(front + first, rest, back, done.push(numbers[0]));
        assert(done.push(numbers[0]) + rest =~= done + numbers);
    }
}

/// A node of a solid has 24 bytes, its flags, seven numbers of which the first two
/// are its corners' place and its surface, 32 bytes, two numbers, its number of
/// corners and 20 bytes.
pub proof fn nodes_have_their_bytes(
    front: Seq<u8>,
    head: Seq<u8>,
    flags: u8,
    numbers: Seq<i32>,
    middle: Seq<u8>,
    more: Seq<i32>,
    corners: u8,
    tail: Seq<u8>,
    back: Seq<u8>,
)
    requires
        head.len() == 24,
        numbers.len() == 7,
        middle.len() == 32,
        more.len() == 2,
        tail.len() == 20,
    ensures
        ({
            let written = head + seq![flags] + row(numbers) + middle + row(more) + seq![corners]
                + tail;
            model::node_at(front + written + back, front.len() as int) == Parsed::<BspNode>::Ok(
                (
                    BspNode {
                        flags,
                        vertex_pool_index: numbers[0],
                        surface_index: numbers[1],
                        vertex_count: corners,
                    },
                    (front.len() + written.len()) as int,
                ),
            )
        }),
{
    let written = head + seq![flags] + row(numbers) + middle + row(more) + seq![corners] + tail;
    let bytes = front + written + back;
    let first = front + head + seq![flags];
    let behind = middle + row(more) + seq![corners] + tail + back;
    lemma_row(first, numbers, behind, Seq::empty());
    assert(bytes =~= first + row(numbers) + behind);
    assert(Seq::<i32>::empty() + numbers =~= numbers);
    let second = first + row(numbers) + middle;
    let last = seq![corners] + tail + back;
    lemma_row(second, more, last, Seq::empty());
    assert(bytes =~= second + row(more) + last);
    assert(bytes[front.len() as int + 24] == flags);
    assert(bytes[(second.len() + row(more).len()) as int] == corners);
}

/// A surface of a solid has a number, its flags in four bytes, six numbers of
/// which the second is its normal, and 24 bytes, or 20 in older packages.
pub proof fn surfaces_have_their_bytes(
    front: Seq<u8>,
    material: Seq<i32>,
    flags: Seq<u8>,
    numbers: Seq<i32>,
    tail: Seq<u8>,
    back: Seq<u8>,
    license: i16,
)
    requires
        material.len() == 1,
        flags.len() == 4,
        numbers.len() == 6,
        tail.len() == if license > 20 {
            24nat
        } else {
            20
        },
    ensures
        ({
            let written = row(material) + flags + row(numbers) + tail;
            model::surface_at(front + written + back, front.len() as int, license) == Parsed::<
                BspSurface,
            >::Ok(
                (
                    BspSurface {
                        polygon_flags: package_laws::unsigned_at(flags, 0) as u32,
                        base_index: numbers[0],
                        normal_index: numbers[1],
                        u_index: numbers[2],
                        v_index: numbers[3],
                    },
                    (front.len() + written.len()) as int,
                ),
            )
        }),
{
    let written = row(material) + flags + row(numbers) + tail;
    let bytes = front + written + back;
    let behind = flags + row(numbers) + tail + back;
    let index = material[0] as int;
    package_laws::compact_indices_are_read_back(front, index, behind);
    assert(row(material.skip(1)) =~= Seq::empty());
    assert(row(material) =~= package_laws::as_index(index));
    assert(bytes =~= front + package_laws::as_index(index) + behind);
    let at = (front.len() + row(material).len()) as int;
    assert(bytes[at] == flags[0] && bytes[at + 1] == flags[1] && bytes[at + 2] == flags[2]
        && bytes[at + 3] == flags[3]);
    let first = front + row(material) + flags;
    lemma_row(first, numbers, tail + back, Seq::empty());
    assert(bytes =~= first + row(numbers) + (tail + back));
    assert(Seq::<i32>::empty() + numbers =~= numbers);
}

/// A corner of a solid has two numbers, of which the first is its point.
pub proof fn corners_have_their_bytes(front: Seq<u8>, numbers: Seq<i32>, back: Seq<u8>)
    requires
        numbers.len() == 2,
    ensures
        model::corner_at(front + row(numbers) + back, front.len() as int) == Parsed::<
            BspVertex,
        >::Ok(
            (
                BspVertex { vertex_index: numbers[0] },
                (front.len() + row(numbers).len()) as int,
            ),
        ),
{
    lemma_row(front, numbers, back, Seq::empty());
    assert(Seq::<i32>::empty() + numbers =~= numbers);
}

proof fn lemma_classes_are_apart()
    ensures
        "TerrainInfo"@.len() == 11,
        "Texture"@.len() == 7,
        "StaticMesh"@.len() == 10,
        "StaticMeshActor"@.len() == 15,
        "MovableStaticMeshActor"@.len() == 22,
        "L2MovableStaticMeshActor"@.len() == 24,
        "BlockingVolume"@.len() == 14,
        "Level"@.len() == 5,
        "Model"@.len() == 5,
        "Brush"@.len() == 5,
        "Level"@[0] == 'L',
        "Model"@[0] == 'M',
        "Brush"@[0] == 'B',
{
    reveal_strlit("TerrainInfo");
    reveal_strlit("Texture");
    reveal_strlit("StaticMesh");
    reveal_strlit("StaticMeshActor");
    reveal_strlit("MovableStaticMeshActor");
    reveal_strlit("L2MovableStaticMeshActor");
    reveal_strlit("BlockingVolume");
    reveal_strlit("Level");
    reveal_strlit("Model");
    reveal_strlit("Brush");
}

/// What a class is read as.
pub proof fn classes_tell_what_objects_are(
    archive: ArchiveModel,
    export: ExportModel,
    bytes: Seq<u8>,
    pos: int,
)
    requires
        object::object_at(archive, export, bytes, pos) is Ok,
    ensures
        ({
            let read = object::object_at(archive, export, bytes, pos)->Ok_0;
            let class = export.class_name;
            &&& read is Terrain <==> class == "TerrainInfo"@
            &&& read is Texture <==> class == "Texture"@
            &&& read is StaticMesh <==> class == "StaticMesh"@
            &&& read is Level <==> class == "Level"@
            &&& read is Model <==> class == "Model"@
            &&& read is Actor <==> class == "StaticMeshActor"@ || class
                == "MovableStaticMeshActor"@ || class == "L2MovableStaticMeshActor"@
            &&& read is Brush <==> class == "Brush"@ || class == "BlockingVolume"@
        }),
{
    lemma_classes_are_apart();
}

/// The class of an export is the name of an import, of another export, or none.
pub proof fn classes_have_names(imports: Seq<ImportModel>, exports: Seq<ExportModel>, k: int)
    requires
        0 <= k,
    ensures
        k < imports.len() ==> package::class_of(imports, exports, -1 - k) == Ok::<
            Seq<char>,
            ErrorModel,
        >(imports[k].object_name),
        k < exports.len() ==> package::class_of(imports, exports, 1 + k) == Ok::<
            Seq<char>,
            ErrorModel,
        >(exports[k].object_name),
        k >= imports.len() ==> package::class_of(imports, exports, -1 - k) is Err,
        k >= exports.len() ==> package::class_of(imports, exports, 1 + k) is Err,
        package::class_of(imports, exports, 0) == Ok::<Seq<char>, ErrorModel>("None"@),
{
}

proof fn lemma_export(archive: ArchiveModel, import: ImportModel, index: nat)
    ensures
        match loader::export_from(archive, import, index) {
            Some(found) => {
                &&& index <= found < archive.exports.len()
                &&& is_called(archive, import, found)
                &&& forall|i: int| index <= i < found ==> !#[trigger] is_called(archive, import, i)
            },
            None => forall|i: int|
                index <= i < archive.exports.len() ==> !#[trigger] is_called(archive, import, i),
        },
    decreases archive.exports.len() - index,
{
    if index < archive.exports.len() {
        lemma_export(archive, import, index + 1);
        assert(is_called(archive, import, index as int) == (loader::export_from(
            archive,
            import,
            index,
        ) == Some(index as int)));
    }
}

/// Whether an export has the name and the class of an import, and is no package.
pub open spec fn is_called(archive: ArchiveModel, import: ImportModel, i: int) -> bool {
    &&& archive.exports[i].object_name == import.object_name
    &&& archive.exports[i].class_name == import.class_name
    &&& import.class_name != "Package"@
}

/// An import stands for the first export of that name and class in its package.
pub proof fn imports_are_found_by_name(archive: ArchiveModel, import: ImportModel)
    ensures
        match loader::export_from(archive, import, 0) {
            Some(found) => {
                &&& 0 <= found < archive.exports.len()
                &&& is_called(archive, import, found)
                &&& forall|i: int| 0 <= i < found ==> !#[trigger] is_called(archive, import, i)
            },
            None => forall|i: int|
                0 <= i < archive.exports.len() ==> !#[trigger] is_called(archive, import, i),
        },
{
    lemma_export(archive, import, 0);
}

/// The package of an import is the one at the end of the way from import to
/// import. A way that leaves the table is an error, and so is one that never
/// ends.
pub proof fn imports_lie_in_packages(archive: ArchiveModel, index: int, steps: nat)
    ensures
        loader::root_of(archive, index, steps) matches Ok(root) ==> archive.imports[root].package_index
            == 0,
        archive.imports[index].package_index == 0 ==> loader::root_of(archive, index, steps)
            == Ok::<int, ErrorModel>(index),
        archive.imports[index].package_index > 0 ==> loader::root_of(archive, index, steps) is Err,
        archive.imports[index].package_index < -archive.imports.len() ==> loader::root_of(
            archive,
            index,
            steps,
        ) is Err,
        steps > 0 && -archive.imports.len() <= archive.imports[index].package_index < 0
            ==> loader::root_of(archive, index, steps) == loader::root_of(
            archive,
            -1 - archive.imports[index].package_index,
            (steps - 1) as nat,
        ),
    decreases steps,
{
    let next = -archive.imports[index].package_index - 1;
    if steps > 0 && archive.imports[index].package_index != 0 && 0 <= next
        < archive.imports.len() {
        imports_lie_in_packages(archive, next, (steps - 1) as nat);
    }
}

/// A package that was looked for answers for its name: with what is in it, or
/// that it is missing. One that was not is asked for.
pub proof fn packages_answer_for_their_names(
    packages: Seq<PackageModel>,
    name: Seq<char>,
    at: int,
)
    requires
        0 <= at <= packages.len(),
        forall|i: int| 0 <= i < at ==> (#[trigger] packages[i]).name != name,
        at < packages.len() ==> packages[at].name == name,
    ensures
        loader::archive_named(packages, name) == if at == packages.len() {
            Answer::<ArchiveModel>::Err(StopModel::Needs(name))
        } else {
            match packages[at].archive {
                Some(archive) => Answer::<ArchiveModel>::Ok(archive),
                None => Answer::<ArchiveModel>::Err(
                    StopModel::Failed(ErrorModel::Missing("can't find package: "@ + name)),
                ),
            }
        },
{
    lemma_answer(packages, name, 0, at);
}

proof fn lemma_answer(packages: Seq<PackageModel>, name: Seq<char>, index: nat, at: int)
    requires
        index <= at <= packages.len(),
        forall|i: int| 0 <= i < at ==> (#[trigger] packages[i]).name != name,
        at < packages.len() ==> packages[at].name == name,
    ensures
        loader::archive_from(packages, name, index) == loader::archive_from(
            packages,
            name,
            at as nat,
        ),
    decreases at - index,
{
    if index < at {
        assert(packages[index as int].name != name);
        lemma_answer(packages, name, index + 1, at);
    }
}

/// The packages that exist are counted one by one.
pub proof fn existing_packages_are_counted(packages: Seq<PackageModel>, more: PackageModel)
    ensures
        loader::existing(packages.push(more)) == loader::existing(packages) + if more.archive
            is Some {
            1nat
        } else {
            0
        },
        loader::existing(Seq::<PackageModel>::empty()) == 0,
{
    assert(packages.push(more).drop_last() =~= packages);
}

/// A level gives what of its solid lies inside the bounds, where it stands. A
/// blocking volume gives its whole solid, where its actor places it.
pub proof fn levels_and_volumes_give_solids(
    packages: Seq<PackageModel>,
    archive: ArchiveModel,
    level: objects::Level,
    volume: objects::Brush,
    bounds: Box3,
)
    ensures
        loader::level_part(packages, archive, ObjectModel::Level(level), bounds) matches Ok(
            Some(part),
        ) ==> {
            let solid = loader::referenced(
                packages,
                archive,
                level.model_index as int,
                "Level.Model"@,
            );
            &&& part.source == GeometrySource::Bsp
            &&& part.actor is None
            &&& solid is Ok && solid->Ok_0 is Model
            &&& solid->Ok_0->Model_0.mesh(Some(bounds)) == Ok::<Option<MeshModel>, ErrorModel>(
                Some(part.mesh),
            )
        },
        loader::volume_part(packages, archive, ObjectModel::Brush(volume)) matches Ok(Some(part))
            ==> {
            let solid = loader::referenced(
                packages,
                archive,
                volume.brush->0 as int,
                "BlockingVolume.Brush"@,
            );
            &&& part.source == GeometrySource::BlockingVolume
            &&& part.actor == Some(volume.actor)
            &&& volume.brush is Some
            &&& solid is Ok && solid->Ok_0 is Model
            &&& solid->Ok_0->Model_0.mesh(None) == Ok::<Option<MeshModel>, ErrorModel>(
                Some(part.mesh),
            )
        },
        volume.brush is None ==> loader::volume_part(
            packages,
            archive,
            ObjectModel::Brush(volume),
        ) == Answer::<Option<PartModel>>::Ok(None),
{
}

/// What a piece of ground is read from: it has a height map, stands at the map of
/// its column and row, and is as large as it says.
pub proof fn grounds_are_told_by_their_properties(
    archive: ArchiveModel,
    bytes: Seq<u8>,
    pos: int,
    flags: u32,
    column: i32,
    line: i32,
    map: i32,
)
    requires
        properties::properties_at(archive.names, bytes, pos, flags) is Ok,
    ensures
        ({
            let props = properties::properties_at(archive.names, bytes, pos, flags)->Ok_0.0;
            let ground = objects::terrain_at(archive, bytes, pos, flags);
            let brush = objects::brush_at(archive, bytes, pos, flags);
            &&& properties::lookup(props, "TerrainMap"@) is None ==> ground is Err
            &&& properties::lookup(props, "TerrainMap"@) == Some(ValueModel::Index(map)) ==> {
                &&& ground is Ok
                &&& ground->Ok_0.0.map_index == map
                &&& ground->Ok_0.0.actor == objects::actor_in(props)
                &&& properties::lookup(props, "MapX"@) == Some(ValueModel::Int(column))
                    ==> ground->Ok_0.0.map_x == column
                &&& properties::lookup(props, "MapY"@) == Some(ValueModel::Int(line))
                    ==> ground->Ok_0.0.map_y == line
                &&& properties::lookup(props, "MapX"@) is None ==> ground->Ok_0.0.map_x == 0
                &&& properties::lookup(props, "MapY"@) is None ==> ground->Ok_0.0.map_y == 0
                &&& properties::lookup(props, "QuadVisibilityBitmap"@) is None
                    ==> ground->Ok_0.0.quad_visibility.len() == 0
                &&& properties::lookup(props, "EdgeTurnBitmap"@) is None
                    ==> ground->Ok_0.0.edge_turn.len() == 0
                &&& properties::lookup(props, "TerrainScale"@) is None
                    ==> ground->Ok_0.0.broken_scale()
            }
            &&& brush is Ok && brush->Ok_0.0.actor == objects::actor_in(props)
            &&& properties::lookup(props, "Brush"@) == Some(ValueModel::Index(map))
                ==> brush->Ok_0.0.brush == Some(map)
            &&& properties::lookup(props, "Brush"@) is None ==> brush->Ok_0.0.brush is None
        }),
{
}

proof fn lemma_terrain(objects: Seq<ObjectModel>, index: nat, at: int)
    requires
        index <= at < objects.len(),
        objects[at] is Terrain,
        forall|i: int| 0 <= i < at ==> !((#[trigger] objects[i]) is Terrain),
    ensures
        loader::terrain_from(objects, index) == Some(objects[at]->Terrain_0),
    decreases at - index,
{
    if index < at {
        assert(!(objects[index as int] is Terrain));
        lemma_terrain(objects, index + 1, at);
    }
}

/// The ground of a map is the first one in its package.
pub proof fn first_ground_counts(archive: ArchiveModel, at: int)
    requires
        object::objects_named(archive, "TerrainInfo"@) is Ok,
        ({
            let objects = object::objects_named(archive, "TerrainInfo"@)->Ok_0;
            &&& 0 <= at < objects.len()
            &&& objects[at] is Terrain
            &&& forall|i: int| 0 <= i < at ==> !((#[trigger] objects[i]) is Terrain)
        }),
    ensures
        loader::terrain_in(archive) == Ok::<Option<objects::TerrainModel>, ErrorModel>(
            Some(object::objects_named(archive, "TerrainInfo"@)->Ok_0[at]->Terrain_0),
        ),
{
    lemma_terrain(object::objects_named(archive, "TerrainInfo"@)->Ok_0, 0, at);
}

/// An import is the object of the first export of its name and class in the
/// package that it lies in.
pub proof fn imports_stand_for_exports(
    packages: Seq<PackageModel>,
    archive: ArchiveModel,
    other: ArchiveModel,
    index: int,
    root: int,
    found: int,
)
    requires
        loader::root_of(archive, index, archive.imports.len()) == Ok::<int, ErrorModel>(root),
        loader::archive_named(packages, archive.imports[root].object_name) == Answer::<
            ArchiveModel,
        >::Ok(other),
        0 <= found < other.exports.len(),
        is_called(other, archive.imports[index], found),
        forall|i: int|
            0 <= i < found ==> !#[trigger] is_called(other, archive.imports[index], i),
    ensures
        loader::imported(packages, archive, index) == loader::settled(
            object::object_in(other, found),
        ),
{
    lemma_export(other, archive.imports[index], 0);
}

} // verus!
