//! Why packages can be read one by one, as they are asked for.

use vstd::prelude::*;

use crate::unreal::loader;
use crate::unreal::loader::{Answer, GroundModel, PackageModel, PartModel, Role, StopModel};
use crate::unreal::model::Box3;
use crate::unreal::object;
use crate::unreal::object::ObjectModel;
use crate::unreal::package::ArchiveModel;

verus! {

/// Whether an answer waits for a package.
pub open spec fn waits<T>(answer: Answer<T>) -> bool {
    answer matches Err(StopModel::Needs(_))
}

proof fn lemma_found(packages: Seq<PackageModel>, name: Seq<char>, index: nat, at: int)
    requires
        index <= at < packages.len(),
        packages[at].name == name,
    ensures
        !waits(loader::archive_from(packages, name, index)),
    decreases packages.len() - index,
{
    if packages[index as int].name != name {
        lemma_found(packages, name, index + 1, at);
    }
}

/// A package that was looked for is not asked for again.
pub proof fn looked_for_once(packages: Seq<PackageModel>, name: Seq<char>, at: int)
    requires
        0 <= at < packages.len(),
        packages[at].name == name,
    ensures
        !waits(loader::archive_named(packages, name)),
{
    lemma_found(packages, name, 0, at);
}

proof fn lemma_archive_from(
    packages: Seq<PackageModel>,
    more: PackageModel,
    name: Seq<char>,
    index: nat,
)
    requires
        !waits(loader::archive_from(packages, name, index)),
    ensures
        loader::archive_from(packages.push(more), name, index) == loader::archive_from(
            packages,
            name,
            index,
        ),
    decreases packages.len() - index,
{
    if index < packages.len() && packages[index as int].name != name {
        lemma_archive_from(packages, more, name, index + 1);
    }
}

proof fn lemma_archive(packages: Seq<PackageModel>, more: PackageModel)
    ensures
        forall|name: Seq<char>|
            !waits(#[trigger] loader::archive_named(packages, name)) ==> loader::archive_named(
                packages.push(more),
                name,
            ) == loader::archive_named(packages, name),
{
    assert forall|name: Seq<char>|
        !waits(#[trigger] loader::archive_named(packages, name)) implies loader::archive_named(
        packages.push(more),
        name,
    ) == loader::archive_named(packages, name) by {
        lemma_archive_from(packages, more, name, 0);
    }
}

proof fn lemma_referenced(
    packages: Seq<PackageModel>,
    more: PackageModel,
    archive: ArchiveModel,
    index: int,
    context: Seq<char>,
)
    requires
        !waits(loader::referenced(packages, archive, index, context)),
    ensures
        loader::referenced(packages.push(more), archive, index, context) == loader::referenced(
            packages,
            archive,
            index,
            context,
        ),
{
    lemma_archive(packages, more);
}

proof fn lemma_side(packages: Seq<PackageModel>, more: PackageModel, x: int, y: int)
    requires
        !waits(loader::side_of(packages, x, y)),
    ensures
        loader::side_of(packages.push(more), x, y) == loader::side_of(packages, x, y),
{
    lemma_archive(packages, more);
    let name = loader::map_name(x, y);
    match loader::archive_named(packages, name) {
        Ok(archive) => match loader::terrain_in(archive) {
            Ok(Some(terrain)) => if !terrain.broken_scale() {
                lemma_referenced(
                    packages,
                    more,
                    archive,
                    terrain.map_index as int,
                    "TerrainMap"@,
                );
            },
            _ => {},
        },
        Err(_) => {},
    }
}

proof fn lemma_ground(packages: Seq<PackageModel>, more: PackageModel, name: Seq<char>)
    requires
        !waits(loader::ground_of(packages, name)),
    ensures
        loader::ground_of(packages.push(more), name) == loader::ground_of(packages, name),
        !waits(loader::archive_named(packages, name)),
{
    lemma_archive(packages, more);
    match loader::archive_named(packages, name) {
        Ok(archive) => match loader::terrain_in(archive) {
            Ok(Some(terrain)) => {
                lemma_referenced(
                    packages,
                    more,
                    archive,
                    terrain.map_index as int,
                    "TerrainMap"@,
                );
            },
            _ => {},
        },
        Err(_) => {},
    }
}

proof fn lemma_joined(packages: Seq<PackageModel>, more: PackageModel, ground: GroundModel)
    requires
        !waits(loader::joined_ground(packages, ground)),
    ensures
        loader::joined_ground(packages.push(more), ground) == loader::joined_ground(
            packages,
            ground,
        ),
{
    let x = ground.terrain.map_x;
    let y = ground.terrain.map_y;
    lemma_side(packages, more, x as int, loader::next(y) as int);
    if loader::side_of(packages, x as int, loader::next(y) as int) is Ok {
        lemma_side(packages, more, loader::next(x) as int, y as int);
        if loader::side_of(packages, loader::next(x) as int, y as int) is Ok {
            lemma_side(packages, more, loader::next(x) as int, loader::next(y) as int);
        }
    }
}

proof fn lemma_part(
    packages: Seq<PackageModel>,
    more: PackageModel,
    archive: ArchiveModel,
    found: ObjectModel,
    role: Role,
    bounds: Box3,
)
    requires
        !waits(loader::part_of(packages, archive, found, role, bounds)),
    ensures
        loader::part_of(packages.push(more), archive, found, role, bounds) == loader::part_of(
            packages,
            archive,
            found,
            role,
            bounds,
        ),
{
    match (role, found) {
        (Role::Actor, ObjectModel::Actor(actor)) => {
            if actor.solid() && actor.static_mesh is Some {
                lemma_referenced(
                    packages,
                    more,
                    archive,
                    actor.static_mesh->0 as int,
                    "Actor.StaticMesh"@,
                );
            }
        },
        (Role::Level, ObjectModel::Level(level)) => {
            lemma_referenced(packages, more, archive, level.model_index as int, "Level.Model"@);
        },
        (Role::Volume, ObjectModel::Brush(brush)) => {
            if brush.brush is Some {
                lemma_referenced(
                    packages,
                    more,
                    archive,
                    brush.brush->0 as int,
                    "BlockingVolume.Brush"@,
                );
            }
        },
        _ => {},
    }
}

proof fn lemma_parts_from(
    packages: Seq<PackageModel>,
    more: PackageModel,
    archive: ArchiveModel,
    objects: Seq<ObjectModel>,
    role: Role,
    bounds: Box3,
    index: nat,
    done: Seq<PartModel>,
)
    requires
        !waits(loader::parts_from(packages, archive, objects, role, bounds, index, done)),
    ensures
        loader::parts_from(packages.push(more), archive, objects, role, bounds, index, done)
            == loader::parts_from(packages, archive, objects, role, bounds, index, done),
    decreases objects.len() - index,
{
    if index < objects.len() {
        lemma_part(packages, more, archive, objects[index as int], role, bounds);
        match loader::part_of(packages, archive, objects[index as int], role, bounds) {
            Ok(None) => {
                lemma_parts_from(packages, more, archive, objects, role, bounds, index + 1, done);
            },
            Ok(Some(part)) => {
                lemma_parts_from(
                    packages,
                    more,
                    archive,
                    objects,
                    role,
                    bounds,
                    index + 1,
                    done.push(part),
                );
            },
            Err(_) => {},
        }
    }
}

proof fn lemma_class_parts(
    packages: Seq<PackageModel>,
    more: PackageModel,
    archive: ArchiveModel,
    class: Seq<char>,
    role: Role,
    bounds: Box3,
    done: Seq<PartModel>,
)
    requires
        !waits(loader::class_parts(packages, archive, class, role, bounds, done)),
    ensures
        loader::class_parts(packages.push(more), archive, class, role, bounds, done)
            == loader::class_parts(packages, archive, class, role, bounds, done),
{
    match object::objects_named(archive, class) {
        Ok(objects) => {
            lemma_parts_from(packages, more, archive, objects, role, bounds, 0, done);
        },
        Err(_) => {},
    }
}

proof fn lemma_all_parts(
    packages: Seq<PackageModel>,
    more: PackageModel,
    archive: ArchiveModel,
    bounds: Box3,
)
    requires
        !waits(loader::all_parts(packages, archive, bounds)),
    ensures
        loader::all_parts(packages.push(more), archive, bounds) == loader::all_parts(
            packages,
            archive,
            bounds,
        ),
{
    let none = Seq::<PartModel>::empty();
    lemma_class_parts(packages, more, archive, "StaticMeshActor"@, Role::Actor, bounds, none);
    match loader::class_parts(packages, archive, "StaticMeshActor"@, Role::Actor, bounds, none) {
        Ok(first) => {
            lemma_class_parts(
                packages,
                more,
                archive,
                "MovableStaticMeshActor"@,
                Role::Actor,
                bounds,
                first,
            );
            match loader::class_parts(
                packages,
                archive,
                "MovableStaticMeshActor"@,
                Role::Actor,
                bounds,
                first,
            ) {
                Ok(second) => {
                    lemma_class_parts(
                        packages,
                        more,
                        archive,
                        "L2MovableStaticMeshActor"@,
                        Role::Actor,
                        bounds,
                        second,
                    );
                    match loader::class_parts(
                        packages,
                        archive,
                        "L2MovableStaticMeshActor"@,
                        Role::Actor,
                        bounds,
                        second,
                    ) {
                        Ok(third) => {
                            lemma_class_parts(
                                packages,
                                more,
                                archive,
                                "Level"@,
                                Role::Level,
                                bounds,
                                third,
                            );
                            match loader::class_parts(
                                packages,
                                archive,
                                "Level"@,
                                Role::Level,
                                bounds,
                                third,
                            ) {
                                Ok(fourth) => {
                                    lemma_class_parts(
                                        packages,
                                        more,
                                        archive,
                                        "BlockingVolume"@,
                                        Role::Volume,
                                        bounds,
                                        fourth,
                                    );
                                },
                                Err(_) => {},
                            }
                        },
                        Err(_) => {},
                    }
                },
                Err(_) => {},
            }
        },
        Err(_) => {},
    }
}

/// What was answered about a map stays so, whatever packages are added.
pub proof fn answers_do_not_change(
    packages: Seq<PackageModel>,
    more: PackageModel,
    name: Seq<char>,
    bounds: Box3,
)
    requires
        !waits(loader::map_of(packages, name, bounds)),
    ensures
        loader::map_of(packages.push(more), name, bounds) == loader::map_of(
            packages,
            name,
            bounds,
        ),
{
    lemma_archive(packages, more);
    lemma_ground(packages, more, name);
    match loader::ground_of(packages, name) {
        Ok(ground) => {
            if !ground.terrain.broken_scale() {
                lemma_joined(packages, more, ground);
            }
            if ground.terrain.broken_scale() || loader::joined_ground(packages, ground) is Ok {
                lemma_all_parts(
                    packages,
                    more,
                    loader::archive_named(packages, name)->Ok_0,
                    bounds,
                );
            }
        },
        Err(_) => {},
    }
}

} // verus!
